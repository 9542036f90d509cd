//! The feature-matrix graph representation.
//!
//! Per collection it assigns every document key a dense index in first-seen
//! order, keeps the inverse reading, collects numeric feature vectors
//! aligned with those indices, and gathers edges into COO buckets keyed by
//! (edge collection, from collection, to collection).

use vstd::prelude::*;

use crate::assoc::{ByteMap, StrMap};
use crate::json::{JsonValue, SpecJson};

verus! {

broadcast use crate::assoc::lemma_first_key_index;

/// A 64-bit content hash identifying a vertex.
#[derive(Eq, Hash, PartialEq, Structural, Clone, Copy, Debug)]
pub struct VertexHash(pub u64);

/// A dense index identifying a vertex.
#[derive(Eq, PartialEq, Structural, Clone, Copy, Debug)]
pub struct VertexIndex(pub u64);

/// One COO bucket: the edges of one edge collection between one pair of
/// vertex collections, as two parallel arrays of endpoint indices.
pub struct CooBucket {
    pub edge_col: Vec<u8>,
    pub from_col: Vec<u8>,
    pub to_col: Vec<u8>,
    pub from_inds: Vec<usize>,
    pub to_inds: Vec<usize>,
}

/// A key-to-index map assigns positions in insertion order: the value at
/// position `i` is `i`, so the key vector read backwards is the
/// index-to-key map.
pub open spec fn dense_index_map(m: ByteMap<usize>) -> bool {
    &&& m.wf()
    &&& forall|i: int| 0 <= i < m.vals@.len() ==> m.vals@[i] == i
}

/// The feature lists of one collection by feature name, each entry read as
/// its sequence of numeric texts.
pub open spec fn feature_table_view(t: StrMap<Vec<Vec<String>>>) -> Map<
    Seq<char>,
    Seq<Seq<Seq<char>>>,
> {
    Map::new(|k: Seq<char>| t@.dom().contains(k), |k: Seq<char>| t@[k].deep_view())
}

/// The key-to-index maps of all collections.
pub open spec fn index_maps_view(m: ByteMap<ByteMap<usize>>) -> Map<Seq<u8>, Map<Seq<u8>, usize>> {
    Map::new(|c: Seq<u8>| m@.dom().contains(c), |c: Seq<u8>| m@[c]@)
}

/// The index-to-key readings of all collections: for each collection the
/// keys in index order.
pub open spec fn inverse_maps_view(m: ByteMap<ByteMap<usize>>) -> Map<Seq<u8>, Seq<Seq<u8>>> {
    Map::new(
        |c: Seq<u8>| m@.dom().contains(c),
        |c: Seq<u8>| Seq::new(m@[c].keys@.len(), |i: int| m@[c].keys@[i]@),
    )
}

/// The feature tables of all collections.
pub open spec fn features_view(m: ByteMap<StrMap<Vec<Vec<String>>>>) -> Map<
    Seq<u8>,
    Map<Seq<char>, Seq<Seq<Seq<char>>>>,
> {
    Map::new(|c: Seq<u8>| m@.dom().contains(c), |c: Seq<u8>| feature_table_view(m@[c]))
}

/// The graph representation handed to numeric tooling: per-collection
/// key/index maps, per-collection feature tables, and COO edge buckets.
pub struct NumpyGraph {
    pub cols_to_keys_to_inds: ByteMap<ByteMap<usize>>,
    pub coo_by_from_edge_to: Vec<CooBucket>,
    pub cols_to_features: ByteMap<StrMap<Vec<Vec<String>>>>,
}

impl CooBucket {
    /// The two endpoint arrays run in parallel.
    pub open spec fn wf(&self) -> bool {
        self.from_inds@.len() == self.to_inds@.len()
    }

    /// The bucket's key triple.
    pub open spec fn key3(&self) -> (Seq<u8>, Seq<u8>, Seq<u8>) {
        (self.edge_col@, self.from_col@, self.to_col@)
    }
}

impl NumpyGraph {
    /// The number of vertices a collection holds; zero for a collection
    /// never seen.
    pub open spec fn spec_col_len(&self, col: Seq<u8>) -> int {
        if self.cols_to_keys_to_inds@.dom().contains(col) {
            self.cols_to_keys_to_inds@[col].keys@.len() as int
        } else {
            0
        }
    }

    /// Every endpoint index of every COO bucket was assigned by a vertex
    /// insertion into the endpoint's collection.
    pub open spec fn edges_in_range(&self) -> bool {
        forall|b: int, e: int|
            0 <= b < self.coo_by_from_edge_to@.len() && 0 <= e
                < self.coo_by_from_edge_to@[b].from_inds@.len() ==> {
                &&& self.coo_by_from_edge_to@[b].from_inds@[e] < self.spec_col_len(
                    self.coo_by_from_edge_to@[b].from_col@,
                )
                &&& self.coo_by_from_edge_to@[b].to_inds@[e] < self.spec_col_len(
                    self.coo_by_from_edge_to@[b].to_col@,
                )
            }
    }

    /// No two COO buckets carry the same key triple.
    pub open spec fn buckets_unique(&self) -> bool {
        forall|i: int, j: int|
            0 <= i < j < self.coo_by_from_edge_to@.len()
                ==> self.coo_by_from_edge_to@[i].key3() != self.coo_by_from_edge_to@[j].key3()
    }

    /// The structural invariant of the graph.
    pub open spec fn wf(&self) -> bool {
        &&& self.cols_to_keys_to_inds.wf()
        &&& forall|i: int|
            0 <= i < self.cols_to_keys_to_inds.vals@.len() ==> dense_index_map(
                #[trigger] self.cols_to_keys_to_inds.vals@[i],
            )
        &&& self.cols_to_features.wf()
        &&& forall|i: int|
            0 <= i < self.cols_to_features.vals@.len() ==> (
            #[trigger] self.cols_to_features.vals@[i]).wf()
        &&& forall|i: int|
            0 <= i < self.coo_by_from_edge_to@.len() ==> (
            #[trigger] self.coo_by_from_edge_to@[i]).wf()
        &&& self.buckets_unique()
        &&& self.edges_in_range()
    }

    /// An empty graph.
    pub fn new() -> (r: NumpyGraph)
        ensures
            r.wf(),
            index_maps_view(r.cols_to_keys_to_inds) == Map::<Seq<u8>, Map<Seq<u8>, usize>>::empty(),
            features_view(r.cols_to_features) == Map::<
                Seq<u8>,
                Map<Seq<char>, Seq<Seq<Seq<char>>>>,
            >::empty(),
            r.coo_by_from_edge_to@.len() == 0,
    {
        let r = (NumpyGraph {
            cols_to_keys_to_inds: ByteMap::new(),
            coo_by_from_edge_to: Vec::new(),
            cols_to_features: ByteMap::new(),
        });
        proof {
            assert(index_maps_view(r.cols_to_keys_to_inds) =~= Map::<
                Seq<u8>,
                Map<Seq<u8>, usize>,
            >::empty());
            assert(features_view(r.cols_to_features) =~= Map::<
                Seq<u8>,
                Map<Seq<char>, Seq<Seq<Seq<char>>>>,
            >::empty());
        }
        r
    }
}


/// The field name under which every document carries its collection.
pub open spec fn col_tag() -> Seq<char> {
    "@collection_name"@
}

/// The field name of the document identifier.
pub open spec fn id_tag() -> Seq<char> {
    "_id"@
}

/// Whether some field is called `name`.
pub open spec fn has_name(fields: Seq<String>, name: Seq<char>) -> bool {
    exists|q: int| 0 <= q < fields.len() && fields[q]@ == name
}

/// Position of the first field called `name`; the length when none is.
pub open spec fn first_name_index(fields: Seq<String>, name: Seq<char>) -> int
    decreases fields.len(),
{
    if fields.len() == 0 {
        0
    } else if fields[0]@ == name {
        0
    } else {
        1 + first_name_index(fields.skip(1), name)
    }
}

pub proof fn lemma_first_name_index(fields: Seq<String>, name: Seq<char>)
    ensures
        0 <= first_name_index(fields, name) <= fields.len(),
        has_name(fields, name) <==> first_name_index(fields, name) < fields.len(),
        forall|j: int| 0 <= j < first_name_index(fields, name) ==> fields[j]@ != name,
        first_name_index(fields, name) < fields.len() ==> fields[first_name_index(
            fields,
            name,
        )]@ == name,
    decreases fields.len(),
{
    if fields.len() == 0 {
    } else if fields[0]@ == name {
    } else {
        lemma_first_name_index(fields.skip(1), name);
        let f = first_name_index(fields, name);
        assert forall|j: int| 0 <= j < f implies fields[j]@ != name by {
            if j > 0 {
                assert(fields.skip(1)[j - 1] == fields[j]);
            }
        }
        if has_name(fields, name) {
            let w = choose|w: int| 0 <= w < fields.len() && fields[w]@ == name;
            assert(fields.skip(1)[w - 1] == fields[w]);
            assert(has_name(fields.skip(1), name));
        }
        if has_name(fields.skip(1), name) {
            let w = choose|w: int|
                0 <= w < fields.skip(1).len() && fields.skip(1)[w]@ == name;
            assert(fields[w + 1] == fields.skip(1)[w]);
            assert(has_name(fields, name));
        }
    }
}

/// Position of the first field called `name`, if any is.
pub fn find_name(fields: &Vec<String>, name: &String) -> (r: Option<usize>)
    ensures
        match r {
            Some(i) => i == first_name_index(fields@, name@) && i < fields@.len()
                && fields@[i as int]@ == name@,
            None => !has_name(fields@, name@),
        },
{
    proof {
        lemma_first_name_index(fields@, name@);
    }
    let n = fields.len();
    let mut i: usize = 0;
    while i < n
        invariant
            n == fields@.len(),
            i <= n,
            forall|j: int| 0 <= j < i ==> fields@[j]@ != name@,
        decreases n - i,
    {
        if fields[i] == *name {
            proof {
                lemma_first_name_index(fields@, name@);
                let f = first_name_index(fields@, name@);
                assert(has_name(fields@, name@)) by {
                    assert(fields@[i as int]@ == name@);
                }
                assert(f == i);
            }
            return Some(i);
        }
        i += 1;
    }
    None
}

/// The byte form of the collection name a document declares.
pub open spec fn vertex_collection_bytes(columns: Seq<JsonValue>, fields: Seq<String>) -> Seq<
    u8,
> {
    vstd::utf8::encode_utf8(columns[first_name_index(fields, col_tag())]->Str_0@)
}

/// The key part of a document identifier: what follows the first slash, or
/// the whole identifier when it has none.
pub open spec fn vertex_key_part(id: Seq<u8>) -> Seq<u8> {
    if crate::util::has_slash(id) {
        crate::util::spec_id_key(id)
    } else {
        id
    }
}

/// Whether field `q` contributes a feature vector: any field other than the
/// identifier whose value reads as numeric.
pub open spec fn is_feature_field(columns: Seq<JsonValue>, fields: Seq<String>, q: int) -> bool {
    &&& 0 <= q < fields.len()
    &&& fields[q]@ != id_tag()
    &&& crate::json::spec_numeric_vector(columns[q].deep_view()) is Some
}

/// Whether the document contributes any feature vector; documents without
/// one are not inserted at all.
pub open spec fn has_feature(columns: Seq<JsonValue>, fields: Seq<String>) -> bool {
    exists|q: int| is_feature_field(columns, fields, q)
}

/// One feature append: the vector joins the end of its feature's list.
pub open spec fn apply_feat(
    t: Map<Seq<char>, Seq<Seq<Seq<char>>>>,
    name: Seq<char>,
    texts: Seq<Seq<char>>,
) -> Map<Seq<char>, Seq<Seq<Seq<char>>>> {
    let cur = if t.dom().contains(name) {
        t[name]
    } else {
        Seq::empty()
    };
    t.insert(name, cur.push(texts))
}

/// The feature appends of the first `n` fields of a document, in order.
pub open spec fn apply_fields_prefix(
    t: Map<Seq<char>, Seq<Seq<Seq<char>>>>,
    columns: Seq<JsonValue>,
    fields: Seq<String>,
    n: int,
) -> Map<Seq<char>, Seq<Seq<Seq<char>>>>
    decreases n,
{
    if n <= 0 {
        t
    } else {
        let prev = apply_fields_prefix(t, columns, fields, n - 1);
        if is_feature_field(columns, fields, n - 1) {
            apply_feat(
                prev,
                fields[n - 1]@,
                crate::json::spec_numeric_vector(columns[n - 1].deep_view())->Some_0,
            )
        } else {
            prev
        }
    }
}

/// All feature appends of a document.
pub open spec fn apply_document_features(
    t: Map<Seq<char>, Seq<Seq<Seq<char>>>>,
    columns: Seq<JsonValue>,
    fields: Seq<String>,
) -> Map<Seq<char>, Seq<Seq<Seq<char>>>> {
    apply_fields_prefix(t, columns, fields, fields.len() as int)
}


impl NumpyGraph {
    /// Insert one vertex document.
    ///
    /// The document declares its collection in the field called
    /// `@collection_name`.  A document none of whose fields reads as numeric
    /// is not inserted at all.  Otherwise its key (the identifier past the
    /// first slash) is assigned the collection's next dense index - exactly
    /// once: a key seen before leaves the graph unchanged - and every
    /// numeric field joins that collection's feature lists.
    #[verifier::loop_isolation(false)]
    pub fn insert_vertex(
        &mut self,
        id: Vec<u8>,
        columns: Vec<JsonValue>,
        field_names: &Vec<String>,
    )
        requires
            old(self).wf(),
            columns@.len() == field_names@.len(),
            has_name(field_names@, col_tag()),
            columns@[first_name_index(field_names@, col_tag())] is Str,
            forall|a: int, b: int|
                0 <= a < b < field_names@.len() ==> field_names@[a]@ != field_names@[b]@,
        ensures
            final(self).wf(),
            final(self).coo_by_from_edge_to == old(self).coo_by_from_edge_to,
            spec_insert_vertex_post(
                index_maps_view(old(self).cols_to_keys_to_inds),
                inverse_maps_view(old(self).cols_to_keys_to_inds),
                features_view(old(self).cols_to_features),
                index_maps_view(final(self).cols_to_keys_to_inds),
                inverse_maps_view(final(self).cols_to_keys_to_inds),
                features_view(final(self).cols_to_features),
                id@,
                columns@,
                field_names@,
            ),
    {
        let tag: String = "@collection_name".to_owned();
        let idtag: String = "_id".to_owned();
        let n = field_names.len();

        // Is there any feature to record?
        let mut any: bool = false;
        let mut q: usize = 0;
        while q < n
            invariant
                q <= n,
                any == exists|j: int| 0 <= j < q && is_feature_field(columns@, field_names@, j),
            decreases n - q,
        {
            if !(field_names[q] == idtag) {
                match crate::json::parse_value_to_vec(&columns[q]) {
                    Some(_) => {
                        proof {
                            assert(is_feature_field(columns@, field_names@, q as int));
                        }
                        any = true;
                    },
                    None => {},
                }
            }
            q += 1;
        }
        if !any {
            proof {
                assert(!has_feature(columns@, field_names@));
            }
            return;
        }
        assert(has_feature(columns@, field_names@));

        // The collection the document declares, in byte form.
        let p = match find_name(field_names, &tag) {
            Some(p) => p,
            None => {
                proof {
                    assert(false);
                }
                vstd::pervasive::unreached()
            },
        };
        let col_string: &String = match &columns[p] {
            JsonValue::Str(s) => s,
            _ => {
                proof {
                    assert(false);
                }
                vstd::pervasive::unreached()
            },
        };
        let colb: Vec<u8> = col_string.as_str().as_bytes_vec();
        let colb_f: Vec<u8> = col_string.as_str().as_bytes_vec();
        let ghost colbs = vertex_collection_bytes(columns@, field_names@);
        proof {
            assert(colb@ == colbs);
            assert(colb_f@ == colbs);
        }

        // The document key: what follows the first slash of the identifier.
        let key: Vec<u8> = match crate::util::split_document_id(&id) {
            Some(pair) => pair.1,
            None => id,
        };
        proof {
            assert(key@ == vertex_key_part(id@));
        }

        // A key that already has an index keeps it: the whole document is
        // then skipped.
        let mut repeated: bool = false;
        match self.cols_to_keys_to_inds.get(&colb) {
            Some(inner) => {
                proof {
                    crate::assoc::lemma_bytemap_value_position(self.cols_to_keys_to_inds, colb@);
                    let w = choose|w: int|
                        0 <= w < self.cols_to_keys_to_inds.vals@.len()
                            && self.cols_to_keys_to_inds@[colb@]
                            == self.cols_to_keys_to_inds.vals@[w]
                            && self.cols_to_keys_to_inds.keys@[w]@ == colb@;
                    assert(dense_index_map(self.cols_to_keys_to_inds.vals@[w]));
                }
                if inner.contains_key(&key) {
                    repeated = true;
                }
            },
            None => {},
        }
        if repeated {
            return;
        }

        // Assign the next dense index.
        let ghost old_outer = self.cols_to_keys_to_inds;
        let ci = match self.cols_to_keys_to_inds.get_index(&colb) {
            Some(i) => i,
            None => {
                let l = self.cols_to_keys_to_inds.len();
                self.cols_to_keys_to_inds.insert_new(colb, ByteMap::new());
                l
            },
        };
        let ghost mid_outer = self.cols_to_keys_to_inds;
        proof {
            assert(ci < mid_outer.vals@.len());
            assert(mid_outer.keys@[ci as int]@ == colbs);
            assert(mid_outer@[colbs] == mid_outer.vals@[ci as int]) by {
                crate::assoc::lemma_key_at(mid_outer.pairs(), ci as int);
            }
            assert(dense_index_map(mid_outer.vals@[ci as int]));
            assert(forall|i: int|
                0 <= i < mid_outer.vals@.len() ==> dense_index_map(
                    #[trigger] mid_outer.vals@[i],
                ));
        }
        let inner = self.cols_to_keys_to_inds.value_at_mut(ci);
        let ghost pre_inner = *inner;
        let il = inner.len();
        proof {
            assert(pre_inner.wf());
            assert(!pre_inner@.dom().contains(key@));
        }
        inner.insert_new(key, il);
        proof {
            let v1 = self.cols_to_keys_to_inds.vals@[ci as int];
            assert(v1.keys@ == pre_inner.keys@.push(key));
            assert(v1@ == pre_inner@.insert(key@, il));
            assert(dense_index_map(v1));
            crate::assoc::lemma_bytemap_set(
                mid_outer,
                self.cols_to_keys_to_inds,
                ci as int,
                v1,
            );
        }

        // Record the features.
        let ghost old_feats = self.cols_to_features;
        let fi = match self.cols_to_features.get_index(&colb_f) {
            Some(i) => i,
            None => {
                let l = self.cols_to_features.len();
                self.cols_to_features.insert_new(colb_f, StrMap::new());
                l
            },
        };
        let ghost mid_feats = self.cols_to_features;
        proof {
            assert(fi < mid_feats.vals@.len());
            assert(mid_feats.keys@[fi as int]@ == colbs);
            assert(mid_feats@[colbs] == mid_feats.vals@[fi as int]) by {
                crate::assoc::lemma_key_at(mid_feats.pairs(), fi as int);
            }
            assert(forall|i: int|
                0 <= i < mid_feats.vals@.len() ==> (#[trigger] mid_feats.vals@[i]).wf());
        }
        let tbl = self.cols_to_features.value_at_mut(fi);
        let ghost pre_tbl = *tbl;
        let ghost oldtabv = feature_table_view(pre_tbl);
        let mut q2: usize = 0;
        while q2 < n
            invariant
                q2 <= n,
                tbl.wf(),
                feature_table_view(*tbl) == apply_fields_prefix(
                    oldtabv,
                    columns@,
                    field_names@,
                    q2 as int,
                ),
            decreases n - q2,
        {
            let mut advanced: bool = false;
            if !(field_names[q2] == idtag) {
                match crate::json::parse_value_to_vec(&columns[q2]) {
                    Some(v) => {
                        proof {
                            assert(is_feature_field(columns@, field_names@, q2 as int));
                        }
                        let ghost texts = crate::json::spec_numeric_vector(
                            columns@[q2 as int].deep_view(),
                        )->Some_0;
                        proof {
                            assert(v.deep_view() == texts);
                        }
                        let name = field_names[q2].clone();
                        let ghost pre_t = *tbl;
                        match tbl.get_index(&name) {
                            Some(ti) => {
                                let lst = tbl.value_at_mut(ti);
                                let ghost pre_lst = *lst;
                                lst.push(v);
                                proof {
                                    let newlst = tbl.vals@[ti as int];
                                    assert(newlst@ == pre_lst@.push(v));
                                    crate::assoc::lemma_strmap_set(pre_t, *tbl, ti as int, newlst);
                                    assert(newlst.deep_view() =~= pre_lst.deep_view().push(texts));
                                    assert(feature_table_view(*tbl) =~= apply_feat(
                                        feature_table_view(pre_t),
                                        name@,
                                        texts,
                                    ));
                                }
                            },
                            None => {
                                let mut nv: Vec<Vec<String>> = Vec::new();
                                nv.push(v);
                                proof {
                                    assert(nv.deep_view() =~= Seq::<Seq<Seq<char>>>::empty().push(
                                        texts,
                                    ));
                                }
                                tbl.insert_new(name, nv);
                                proof {
                                    assert(feature_table_view(*tbl) =~= apply_feat(
                                        feature_table_view(pre_t),
                                        name@,
                                        texts,
                                    ));
                                }
                            },
                        }
                        advanced = true;
                    },
                    None => {
                        proof {
                            assert(!is_feature_field(columns@, field_names@, q2 as int));
                        }
                    },
                }
            } else {
                proof {
                    assert(!is_feature_field(columns@, field_names@, q2 as int));
                }
            }
            proof {
                if !advanced {
                    assert(apply_fields_prefix(oldtabv, columns@, field_names@, q2 + 1)
                        == apply_fields_prefix(oldtabv, columns@, field_names@, q2 as int));
                }
            }
            q2 += 1;
        }
        proof {
            let v2 = self.cols_to_features.vals@[fi as int];
            assert(feature_table_view(v2) == apply_document_features(
                oldtabv,
                columns@,
                field_names@,
            ));
            crate::assoc::lemma_bytemap_set(mid_feats, self.cols_to_features, fi as int, v2);

            // Assemble the postcondition.
            let v1 = self.cols_to_keys_to_inds@[colbs];
            let cur = self.cols_to_keys_to_inds;
            let curf = self.cols_to_features;
            let oldim = index_maps_view(old(self).cols_to_keys_to_inds);
            let newim = index_maps_view(cur);
            let oldinv = inverse_maps_view(old(self).cols_to_keys_to_inds);
            let newinv = inverse_maps_view(cur);
            let oldfv = features_view(old(self).cols_to_features);
            let newfv = features_view(curf);
            let oldcol = if oldim.dom().contains(colbs) {
                oldim[colbs]
            } else {
                Map::<Seq<u8>, usize>::empty()
            };
            let oldkeys = if oldinv.dom().contains(colbs) {
                oldinv[colbs]
            } else {
                Seq::<Seq<u8>>::empty()
            };
            let oldtab = if oldfv.dom().contains(colbs) {
                oldfv[colbs]
            } else {
                Map::<Seq<char>, Seq<Seq<Seq<char>>>>::empty()
            };

            assert(pre_inner@ =~= oldcol);
            assert(il == oldkeys.len());
            assert(newim =~= oldim.insert(colbs, oldcol.insert(key@, il)));

            assert forall|c: Seq<u8>| #[trigger] newinv.dom().contains(c) && c != colbs
                implies newinv[c] == oldinv[c] by {
                assert(cur@[c] == old(self).cols_to_keys_to_inds@[c]);
            }
            assert(newinv[colbs] =~= oldkeys.push(key@));
            assert(newinv =~= oldinv.insert(colbs, oldkeys.push(key@)));

            assert(feature_table_view(pre_tbl) =~= oldtab);
            assert(newfv =~= oldfv.insert(
                colbs,
                apply_document_features(oldtab, columns@, field_names@),
            ));

            // Well-formedness of the result.
            assert forall|i: int| 0 <= i < cur.vals@.len() implies dense_index_map(
                #[trigger] cur.vals@[i],
            ) by {
                if i != ci {
                    assert(cur.vals@[i] == mid_outer.vals@[i]);
                }
            }
            assert forall|i: int| 0 <= i < curf.vals@.len() implies (
                #[trigger] curf.vals@[i]).wf() by {
                if i != fi {
                    assert(curf.vals@[i] == mid_feats.vals@[i]);
                }
            }
            assert forall|c: Seq<u8>| #[trigger] self.spec_col_len(c) >= old(self).spec_col_len(
                c,
            ) by {
                if c != colbs {
                    if old(self).cols_to_keys_to_inds@.dom().contains(c) {
                        assert(cur@[c] == old(self).cols_to_keys_to_inds@[c]);
                    }
                }
            }
            assert(self.edges_in_range()) by {
                assert forall|b: int, e: int|
                    0 <= b < self.coo_by_from_edge_to@.len() && 0 <= e
                        < self.coo_by_from_edge_to@[b].from_inds@.len() implies
                    self.coo_by_from_edge_to@[b].from_inds@[e] < self.spec_col_len(
                        self.coo_by_from_edge_to@[b].from_col@,
                    ) && self.coo_by_from_edge_to@[b].to_inds@[e] < self.spec_col_len(
                        self.coo_by_from_edge_to@[b].to_col@,
                    ) by {
                    assert(old(self).coo_by_from_edge_to@[b].from_inds@[e] < old(
                        self,
                    ).spec_col_len(old(self).coo_by_from_edge_to@[b].from_col@));
                }
            }
        }
    }
}


/// Why a graph insertion was refused.
#[derive(Debug, PartialEq, Eq, Clone, Copy)]
pub enum GraphError {
    /// A second edge between the same pair in a representation that admits
    /// only one.
    DuplicateEdge,
    /// An edge property that must be numeric was not.
    NonNumericEdgeValue,
}

/// The COO buckets read as an association sequence from key triples to the
/// two endpoint-index columns.
pub open spec fn coo_view(v: Vec<CooBucket>) -> Seq<
    ((Seq<u8>, Seq<u8>, Seq<u8>), (Seq<usize>, Seq<usize>)),
> {
    Seq::new(v@.len(), |i: int| (v@[i].key3(), (v@[i].from_inds@, v@[i].to_inds@)))
}

impl NumpyGraph {
    /// Insert one edge document into its COO bucket.
    ///
    /// The identifiers split as `collection/key`.  An edge whose endpoint
    /// collection was never seen as a vertex collection is dropped silently:
    /// it points outside the requested scope.  Otherwise its bucket - keyed
    /// by (edge collection, from collection, to collection) - is created if
    /// missing, and the endpoints' dense indices are appended when both
    /// keys are known; an edge with an unknown endpoint key leaves only the
    /// empty bucket behind.
    #[verifier::loop_isolation(false)]
    pub fn insert_edge(
        &mut self,
        from_id: Vec<u8>,
        to_id: Vec<u8>,
        columns: Vec<JsonValue>,
        field_names: &Vec<String>,
    ) -> (r: Result<(), GraphError>)
        requires
            old(self).wf(),
            columns@.len() == field_names@.len(),
            has_name(field_names@, col_tag()),
            columns@[first_name_index(field_names@, col_tag())] is Str,
            crate::util::has_slash(from_id@),
            crate::util::has_slash(to_id@),
        ensures
            final(self).wf(),
            r is Ok,
            final(self).cols_to_keys_to_inds == old(self).cols_to_keys_to_inds,
            final(self).cols_to_features == old(self).cols_to_features,
            spec_insert_edge_post(
                *old(self),
                *final(self),
                from_id@,
                to_id@,
                columns@,
                field_names@,
            ),
    {
        let (from_col, from_key) = match crate::util::split_document_id(&from_id) {
            Some(pair) => pair,
            None => {
                proof {
                    assert(false);
                }
                vstd::pervasive::unreached()
            },
        };
        let (to_col, to_key) = match crate::util::split_document_id(&to_id) {
            Some(pair) => pair,
            None => {
                proof {
                    assert(false);
                }
                vstd::pervasive::unreached()
            },
        };

        // An edge into a collection outside the requested vertex scope is
        // dropped, not an error.
        if !self.cols_to_keys_to_inds.contains_key(&from_col) {
            return Ok(());
        }
        if !self.cols_to_keys_to_inds.contains_key(&to_col) {
            return Ok(());
        }

        let tag: String = "@collection_name".to_owned();
        let p = match find_name(field_names, &tag) {
            Some(p) => p,
            None => {
                proof {
                    assert(false);
                }
                vstd::pervasive::unreached()
            },
        };
        let edge_col: Vec<u8> = match &columns[p] {
            JsonValue::Str(s) => s.as_str().as_bytes_vec(),
            _ => {
                proof {
                    assert(false);
                }
                vstd::pervasive::unreached()
            },
        };
        let ghost triple = (edge_col@, from_col@, to_col@);
        let ghost oldcoo = coo_view(old(self).coo_by_from_edge_to);
        proof {
            assert(crate::assoc::unique_keys(oldcoo));
        }

        // Find the bucket for this triple, creating it if absent.
        let nb = self.coo_by_from_edge_to.len();
        let mut bi: usize = 0;
        let mut found: bool = false;
        while bi < nb && !found
            invariant
                bi <= nb,
                !found ==> forall|j: int|
                    0 <= j < bi ==> old(self).coo_by_from_edge_to@[j].key3() != triple,
                found ==> bi < nb && old(self).coo_by_from_edge_to@[bi as int].key3() == triple
                    && forall|j: int|
                    0 <= j < bi ==> old(self).coo_by_from_edge_to@[j].key3() != triple,
            decreases nb - bi + if found {
                0int
            } else {
                1int
            },
        {
            let b = &self.coo_by_from_edge_to[bi];
            if crate::util::bytes_eq(&b.edge_col, &edge_col) && crate::util::bytes_eq(
                &b.from_col,
                &from_col,
            ) && crate::util::bytes_eq(&b.to_col, &to_col) {
                found = true;
            } else {
                bi += 1;
            }
        }
        let ghost withb = if crate::assoc::has_key(oldcoo, triple) {
            oldcoo
        } else {
            oldcoo.push((triple, (Seq::<usize>::empty(), Seq::<usize>::empty())))
        };
        if !found {
            proof {
                assert(!crate::assoc::has_key(oldcoo, triple)) by {
                    if crate::assoc::has_key(oldcoo, triple) {
                        let w = choose|w: int|
                            0 <= w < oldcoo.len() && oldcoo[w].0 == triple;
                    }
                }
            }
            let fcopy = crate::util::bytes_range(&from_col, 0, from_col.len());
            let tcopy = crate::util::bytes_range(&to_col, 0, to_col.len());
            proof {
                assert(fcopy@ =~= from_col@);
                assert(tcopy@ =~= to_col@);
            }
            let nbk = (CooBucket {
                edge_col,
                from_col: fcopy,
                to_col: tcopy,
                from_inds: Vec::new(),
                to_inds: Vec::new(),
            });
            self.coo_by_from_edge_to.push(nbk);
            proof {
                assert(coo_view(self.coo_by_from_edge_to) =~= withb);
            }
        } else {
            proof {
                assert(oldcoo[bi as int].0 == triple);
                assert(crate::assoc::has_key(oldcoo, triple)) by {
                    assert(oldcoo[bi as int].0 == triple);
                }
                assert(coo_view(self.coo_by_from_edge_to) == withb);
            }
        }
        proof {
            crate::assoc::lemma_first_key_index(withb, triple);
            assert(crate::assoc::has_key(withb, triple)) by {
                if !crate::assoc::has_key(oldcoo, triple) {
                    assert(withb[oldcoo.len() as int].0 == triple);
                }
            }
            crate::assoc::lemma_key_at(withb, bi as int);
            assert(crate::assoc::first_key_index(withb, triple) == bi);
        }

        // Resolve the endpoint indices; an unknown key leaves the bucket as
        // it is.
        let mut from_ind: usize = 0;
        let mut to_ind: usize = 0;
        let mut both: bool = true;
        match self.cols_to_keys_to_inds.get(&from_col) {
            Some(inner) => {
                proof {
                    crate::assoc::lemma_bytemap_value_position(
                        self.cols_to_keys_to_inds,
                        from_col@,
                    );
                    let w = choose|w: int|
                        0 <= w < self.cols_to_keys_to_inds.vals@.len()
                            && self.cols_to_keys_to_inds@[from_col@]
                            == self.cols_to_keys_to_inds.vals@[w]
                            && self.cols_to_keys_to_inds.keys@[w]@ == from_col@;
                    assert(dense_index_map(self.cols_to_keys_to_inds.vals@[w]));
                }
                match inner.get_index(&from_key) {
                    Some(i) => {
                        from_ind = inner.vals[i];
                        proof {
                            assert(from_ind < inner.keys@.len());
                        }
                    },
                    None => {
                        both = false;
                    },
                }
            },
            None => {
                proof {
                    assert(false);
                }
            },
        }
        match self.cols_to_keys_to_inds.get(&to_col) {
            Some(inner) => {
                proof {
                    crate::assoc::lemma_bytemap_value_position(
                        self.cols_to_keys_to_inds,
                        to_col@,
                    );
                    let w = choose|w: int|
                        0 <= w < self.cols_to_keys_to_inds.vals@.len()
                            && self.cols_to_keys_to_inds@[to_col@]
                            == self.cols_to_keys_to_inds.vals@[w]
                            && self.cols_to_keys_to_inds.keys@[w]@ == to_col@;
                    assert(dense_index_map(self.cols_to_keys_to_inds.vals@[w]));
                }
                match inner.get_index(&to_key) {
                    Some(i) => {
                        to_ind = inner.vals[i];
                        proof {
                            assert(to_ind < inner.keys@.len());
                        }
                    },
                    None => {
                        both = false;
                    },
                }
            },
            None => {
                proof {
                    assert(false);
                }
            },
        }
        if !both {
            proof {
                assert(coo_view(self.coo_by_from_edge_to) == withb);
                lemma_coo_wf_after_bucket(*old(self), *self, withb);
            }
            return Ok(());
        }

        // Append the endpoint indices to the bucket.
        let ghost mid = *self;
        self.coo_by_from_edge_to[bi].from_inds.push(from_ind);
        self.coo_by_from_edge_to[bi].to_inds.push(to_ind);
        proof {
            let im = index_maps_view(old(self).cols_to_keys_to_inds);
            let fc = crate::util::spec_id_collection(from_id@);
            let fk = crate::util::spec_id_key(from_id@);
            let tc = crate::util::spec_id_collection(to_id@);
            let tk = crate::util::spec_id_key(to_id@);
            assert(from_ind == im[fc][fk]);
            assert(to_ind == im[tc][tk]);
            assert(coo_view(self.coo_by_from_edge_to) =~= withb.update(
                bi as int,
                (
                    triple,
                    (withb[bi as int].1.0.push(from_ind), withb[bi as int].1.1.push(to_ind)),
                ),
            ));
            assert(from_ind < self.spec_col_len(fc));
            assert(to_ind < self.spec_col_len(tc));
            lemma_coo_wf_after_push(*old(self), mid, *self, bi as int, from_ind, to_ind);
        }
        Ok(())
    }
}

/// After only creating (or finding) a bucket, the graph invariant still
/// holds: the bucket is empty, so every range condition is vacuous there.
proof fn lemma_coo_wf_after_bucket(
    pre: NumpyGraph,
    post: NumpyGraph,
    withb: Seq<((Seq<u8>, Seq<u8>, Seq<u8>), (Seq<usize>, Seq<usize>))>,
)
    requires
        pre.wf(),
        post.cols_to_keys_to_inds == pre.cols_to_keys_to_inds,
        post.cols_to_features == pre.cols_to_features,
        coo_view(post.coo_by_from_edge_to) == withb,
        withb.len() == pre.coo_by_from_edge_to@.len() || (withb.len() == pre.coo_by_from_edge_to@.len()
            + 1 && withb.last().1.0.len() == 0 && withb.last().1.1.len() == 0
            && !crate::assoc::has_key(coo_view(pre.coo_by_from_edge_to), withb.last().0)),
        withb.len() >= pre.coo_by_from_edge_to@.len() ==> forall|i: int|
            0 <= i < pre.coo_by_from_edge_to@.len() ==> withb[i] == coo_view(
                pre.coo_by_from_edge_to,
            )[i],
    ensures
        post.wf(),
{
    let n = pre.coo_by_from_edge_to@.len() as int;
    let postcoo = post.coo_by_from_edge_to;
    assert forall|i: int| 0 <= i < postcoo@.len() implies (#[trigger] postcoo@[i]).wf() by {
        assert(coo_view(postcoo)[i] == withb[i]);
        if i < n {
            assert(coo_view(pre.coo_by_from_edge_to)[i] == withb[i]);
            assert(pre.coo_by_from_edge_to@[i].wf());
            assert(pre.coo_by_from_edge_to@[i].from_inds@.len() == withb[i].1.0.len());
            assert(postcoo@[i].from_inds@.len() == withb[i].1.0.len());
            assert(postcoo@[i].to_inds@.len() == withb[i].1.1.len());
            assert(pre.coo_by_from_edge_to@[i].to_inds@.len() == withb[i].1.1.len());
        } else {
            assert(withb[i] == withb.last());
        }
    }
    assert(post.buckets_unique()) by {
        assert forall|i: int, j: int| 0 <= i < j < postcoo@.len() implies postcoo@[i].key3()
            != postcoo@[j].key3() by {
            assert(coo_view(postcoo)[i] == withb[i]);
            assert(coo_view(postcoo)[j] == withb[j]);
            if j < n {
                assert(pre.coo_by_from_edge_to@[i].key3() == withb[i].0);
                assert(pre.coo_by_from_edge_to@[j].key3() == withb[j].0);
            } else if i < n {
                assert(pre.coo_by_from_edge_to@[i].key3() == withb[i].0);
                if withb[j].0 == withb[i].0 {
                    assert(crate::assoc::has_key(coo_view(pre.coo_by_from_edge_to), withb[j].0))
                        by {
                        assert(coo_view(pre.coo_by_from_edge_to)[i].0 == withb[i].0);
                    }
                }
            }
        }
    }
    assert(post.edges_in_range()) by {
        assert forall|b: int, e: int|
            0 <= b < postcoo@.len() && 0 <= e < postcoo@[b].from_inds@.len() implies
            postcoo@[b].from_inds@[e] < post.spec_col_len(postcoo@[b].from_col@)
                && postcoo@[b].to_inds@[e] < post.spec_col_len(postcoo@[b].to_col@) by {
            assert(coo_view(postcoo)[b] == withb[b]);
            if b < n {
                assert(coo_view(pre.coo_by_from_edge_to)[b] == withb[b]);
                assert(pre.coo_by_from_edge_to@[b].from_inds@[e] < pre.spec_col_len(
                    pre.coo_by_from_edge_to@[b].from_col@,
                ));
                assert(postcoo@[b].from_inds@[e] == pre.coo_by_from_edge_to@[b].from_inds@[e]);
                assert(postcoo@[b].to_inds@[e] == pre.coo_by_from_edge_to@[b].to_inds@[e]);
                assert(postcoo@[b].from_col@ == pre.coo_by_from_edge_to@[b].from_col@);
                assert(postcoo@[b].to_col@ == pre.coo_by_from_edge_to@[b].to_col@);
            } else {
                assert(withb[b].1.0.len() == 0);
            }
        }
    }
}

/// After pushing one in-range endpoint pair onto bucket `bi`, the graph
/// invariant still holds.
proof fn lemma_coo_wf_after_push(
    pre: NumpyGraph,
    mid: NumpyGraph,
    post: NumpyGraph,
    bi: int,
    fi: usize,
    ti: usize,
)
    requires
        mid.wf(),
        post.cols_to_keys_to_inds == mid.cols_to_keys_to_inds,
        post.cols_to_features == mid.cols_to_features,
        0 <= bi < mid.coo_by_from_edge_to@.len(),
        post.coo_by_from_edge_to@.len() == mid.coo_by_from_edge_to@.len(),
        forall|i: int|
            0 <= i < mid.coo_by_from_edge_to@.len() && i != bi
                ==> post.coo_by_from_edge_to@[i] == mid.coo_by_from_edge_to@[i],
        post.coo_by_from_edge_to@[bi].edge_col@ == mid.coo_by_from_edge_to@[bi].edge_col@,
        post.coo_by_from_edge_to@[bi].from_col@ == mid.coo_by_from_edge_to@[bi].from_col@,
        post.coo_by_from_edge_to@[bi].to_col@ == mid.coo_by_from_edge_to@[bi].to_col@,
        post.coo_by_from_edge_to@[bi].from_inds@ == mid.coo_by_from_edge_to@[bi].from_inds@.push(
            fi,
        ),
        post.coo_by_from_edge_to@[bi].to_inds@ == mid.coo_by_from_edge_to@[bi].to_inds@.push(ti),
        fi < post.spec_col_len(post.coo_by_from_edge_to@[bi].from_col@),
        ti < post.spec_col_len(post.coo_by_from_edge_to@[bi].to_col@),
    ensures
        post.wf(),
{
    let postcoo = post.coo_by_from_edge_to;
    let midcoo = mid.coo_by_from_edge_to;
    assert forall|i: int| 0 <= i < postcoo@.len() implies (#[trigger] postcoo@[i]).wf() by {
        if i != bi {
            assert(postcoo@[i] == midcoo@[i]);
        }
    }
    assert(post.buckets_unique()) by {
        assert forall|i: int, j: int| 0 <= i < j < postcoo@.len() implies postcoo@[i].key3()
            != postcoo@[j].key3() by {
            assert(postcoo@[i].key3() == midcoo@[i].key3());
            assert(postcoo@[j].key3() == midcoo@[j].key3());
        }
    }
    assert(post.edges_in_range()) by {
        assert forall|b: int, e: int|
            0 <= b < postcoo@.len() && 0 <= e < postcoo@[b].from_inds@.len() implies
            postcoo@[b].from_inds@[e] < post.spec_col_len(postcoo@[b].from_col@)
                && postcoo@[b].to_inds@[e] < post.spec_col_len(postcoo@[b].to_col@) by {
            if b != bi {
                assert(postcoo@[b] == midcoo@[b]);
                assert(midcoo@[b].from_inds@[e] < mid.spec_col_len(midcoo@[b].from_col@));
                assert(midcoo@[b].to_inds@[e] < mid.spec_col_len(midcoo@[b].to_col@));
            } else {
                if e < midcoo@[bi].from_inds@.len() {
                    assert(midcoo@[bi].from_inds@[e] < mid.spec_col_len(midcoo@[bi].from_col@));
                    assert(midcoo@[bi].to_inds@[e] < mid.spec_col_len(midcoo@[bi].to_col@));
                }
            }
        }
    }
}


/// How one vertex insertion changes the three per-collection views: the
/// exact relation [`NumpyGraph::insert_vertex`] ensures.
pub open spec fn spec_insert_vertex_post(
    oldim: Map<Seq<u8>, Map<Seq<u8>, usize>>,
    oldinv: Map<Seq<u8>, Seq<Seq<u8>>>,
    oldfv: Map<Seq<u8>, Map<Seq<char>, Seq<Seq<Seq<char>>>>>,
    newim: Map<Seq<u8>, Map<Seq<u8>, usize>>,
    newinv: Map<Seq<u8>, Seq<Seq<u8>>>,
    newfv: Map<Seq<u8>, Map<Seq<char>, Seq<Seq<Seq<char>>>>>,
    id: Seq<u8>,
    columns: Seq<JsonValue>,
    fields: Seq<String>,
) -> bool {
    let colb = vertex_collection_bytes(columns, fields);
    let key = vertex_key_part(id);
    let oldcol = if oldim.dom().contains(colb) {
        oldim[colb]
    } else {
        Map::<Seq<u8>, usize>::empty()
    };
    let oldkeys = if oldinv.dom().contains(colb) {
        oldinv[colb]
    } else {
        Seq::<Seq<u8>>::empty()
    };
    let oldtab = if oldfv.dom().contains(colb) {
        oldfv[colb]
    } else {
        Map::<Seq<char>, Seq<Seq<Seq<char>>>>::empty()
    };
    if !has_feature(columns, fields) || oldcol.dom().contains(key) {
        newim == oldim && newinv == oldinv && newfv == oldfv
    } else {
        &&& newim == oldim.insert(colb, oldcol.insert(key, oldkeys.len() as usize))
        &&& newinv == oldinv.insert(colb, oldkeys.push(key))
        &&& newfv == oldfv.insert(colb, apply_document_features(oldtab, columns, fields))
    }
}

/// Law: for a fixed input, index assignment is deterministic.  Two loads
/// whose graphs agree before a document is inserted agree after it, so a
/// repeated single-threaded load assigns identical dense indices to
/// identical keys.
pub proof fn lemma_index_stability(
    oldim: Map<Seq<u8>, Map<Seq<u8>, usize>>,
    oldinv: Map<Seq<u8>, Seq<Seq<u8>>>,
    oldfv: Map<Seq<u8>, Map<Seq<char>, Seq<Seq<Seq<char>>>>>,
    im1: Map<Seq<u8>, Map<Seq<u8>, usize>>,
    inv1: Map<Seq<u8>, Seq<Seq<u8>>>,
    fv1: Map<Seq<u8>, Map<Seq<char>, Seq<Seq<Seq<char>>>>>,
    im2: Map<Seq<u8>, Map<Seq<u8>, usize>>,
    inv2: Map<Seq<u8>, Seq<Seq<u8>>>,
    fv2: Map<Seq<u8>, Map<Seq<char>, Seq<Seq<Seq<char>>>>>,
    id: Seq<u8>,
    columns: Seq<JsonValue>,
    fields: Seq<String>,
)
    requires
        spec_insert_vertex_post(oldim, oldinv, oldfv, im1, inv1, fv1, id, columns, fields),
        spec_insert_vertex_post(oldim, oldinv, oldfv, im2, inv2, fv2, id, columns, fields),
    ensures
        im1 == im2,
        inv1 == inv2,
        fv1 == fv2,
{
}

/// Law: in every collection of a well-formed graph, each key holds exactly
/// one dense index, the indices are exactly `0 .. len` with no gap, and the
/// key list in index order inverts the map.
pub proof fn lemma_index_bijection(g: NumpyGraph, col: Seq<u8>)
    requires
        g.wf(),
        index_maps_view(g.cols_to_keys_to_inds).dom().contains(col),
    ensures
        ({
            let m = index_maps_view(g.cols_to_keys_to_inds)[col];
            let keys = inverse_maps_view(g.cols_to_keys_to_inds)[col];
            &&& forall|k: Seq<u8>| #[trigger] m.dom().contains(k) ==> 0 <= m[k] < keys.len()
            &&& forall|k1: Seq<u8>, k2: Seq<u8>|
                m.dom().contains(k1) && m.dom().contains(k2) && m[k1] == m[k2] ==> k1 == k2
            &&& forall|i: int|
                0 <= i < keys.len() ==> m.dom().contains(#[trigger] keys[i]) && m[keys[i]] == i
        }),
{
    let inner = g.cols_to_keys_to_inds@[col];
    crate::assoc::lemma_bytemap_value_position(g.cols_to_keys_to_inds, col);
    let w = choose|w: int|
        0 <= w < g.cols_to_keys_to_inds.vals@.len() && g.cols_to_keys_to_inds@[col]
            == g.cols_to_keys_to_inds.vals@[w] && g.cols_to_keys_to_inds.keys@[w]@ == col;
    assert(dense_index_map(inner));
    let m = index_maps_view(g.cols_to_keys_to_inds)[col];
    let keys = inverse_maps_view(g.cols_to_keys_to_inds)[col];
    assert(m == inner@);
    assert forall|k: Seq<u8>| #[trigger] m.dom().contains(k) implies 0 <= m[k] < keys.len()
        && m[k] == crate::assoc::first_key_index(inner.pairs(), k) by {
        crate::assoc::lemma_first_key_index(inner.pairs(), k);
        let f = crate::assoc::first_key_index(inner.pairs(), k);
        assert(m[k] == inner.vals@[f]);
    }
    assert forall|k1: Seq<u8>, k2: Seq<u8>|
        m.dom().contains(k1) && m.dom().contains(k2) && m[k1] == m[k2] implies k1 == k2 by {
        crate::assoc::lemma_first_key_index(inner.pairs(), k1);
        crate::assoc::lemma_first_key_index(inner.pairs(), k2);
        let f1 = crate::assoc::first_key_index(inner.pairs(), k1);
        let f2 = crate::assoc::first_key_index(inner.pairs(), k2);
        assert(inner.pairs()[f1].0 == k1 && inner.pairs()[f2].0 == k2);
    }
    assert forall|i: int| 0 <= i < keys.len() implies m.dom().contains(#[trigger] keys[i])
        && m[keys[i]] == i by {
        crate::assoc::lemma_key_at(inner.pairs(), i);
        assert(inner.pairs()[i].0 == keys[i]);
    }
}

/// Law: in a well-formed graph no COO entry references an index that no
/// vertex insertion into the endpoint's collection produced.
pub proof fn lemma_edge_endpoints_in_range(g: NumpyGraph, b: int, e: int)
    requires
        g.wf(),
        0 <= b < g.coo_by_from_edge_to@.len(),
        0 <= e < g.coo_by_from_edge_to@[b].from_inds@.len(),
    ensures
        g.coo_by_from_edge_to@[b].to_inds@.len() == g.coo_by_from_edge_to@[b].from_inds@.len(),
        g.coo_by_from_edge_to@[b].from_inds@[e] < g.spec_col_len(
            g.coo_by_from_edge_to@[b].from_col@,
        ),
        g.coo_by_from_edge_to@[b].to_inds@[e] < g.spec_col_len(g.coo_by_from_edge_to@[b].to_col@),
{
}


/// How one edge insertion changes the COO buckets: the exact relation
/// [`NumpyGraph::insert_edge`] ensures.
pub open spec fn spec_insert_edge_post(
    pre: NumpyGraph,
    post: NumpyGraph,
    from_id: Seq<u8>,
    to_id: Seq<u8>,
    columns: Seq<JsonValue>,
    fields: Seq<String>,
) -> bool {
    let fc = crate::util::spec_id_collection(from_id);
    let fk = crate::util::spec_id_key(from_id);
    let tc = crate::util::spec_id_collection(to_id);
    let tk = crate::util::spec_id_key(to_id);
    let ec = vertex_collection_bytes(columns, fields);
    let im = index_maps_view(pre.cols_to_keys_to_inds);
    let oldcoo = coo_view(pre.coo_by_from_edge_to);
    let newcoo = coo_view(post.coo_by_from_edge_to);
    if !im.dom().contains(fc) || !im.dom().contains(tc) {
        newcoo == oldcoo
    } else {
        let triple = (ec, fc, tc);
        let withb = if crate::assoc::has_key(oldcoo, triple) {
            oldcoo
        } else {
            oldcoo.push((triple, (Seq::<usize>::empty(), Seq::<usize>::empty())))
        };
        let bi = crate::assoc::first_key_index(withb, triple);
        if im[fc].dom().contains(fk) && im[tc].dom().contains(tk) {
            newcoo == withb.update(
                bi,
                (triple, (withb[bi].1.0.push(im[fc][fk]), withb[bi].1.1.push(im[tc][tk]))),
            )
        } else {
            newcoo == withb
        }
    }
}

} // verus!

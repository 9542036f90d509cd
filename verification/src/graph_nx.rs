//! The node-and-adjacency graph representation.
//!
//! One structure serves four shapes - graph, digraph, multigraph and
//! multidigraph - selected once at construction from three flags and
//! dispatched by a match at each insertion.  Node and adjacency maps are
//! keyed by whole document identifiers; a global identifier-to-index map
//! and parallel COO arrays serve coordinate-format consumers.

use vstd::prelude::*;

use crate::assoc::StrMap;
use crate::graph::GraphError;
use crate::json::{JsonValue, PropMap, SpecJson};

verus! {

broadcast use crate::assoc::lemma_first_key_index;

/// Neighbour map of one node: neighbour identifier to the edge's
/// properties.
pub type AdjInner = StrMap<PropMap>;

/// Adjacency of a simple shape: node to neighbour map.
pub type Adj = StrMap<AdjInner>;

/// Neighbour map of one node in a multi shape: neighbour identifier to the
/// parallel edges' properties, position being the local edge index.
pub type MultiInner = StrMap<Vec<PropMap>>;

/// Adjacency of a multi shape.
pub type MultiAdj = StrMap<MultiInner>;

/// Successor and predecessor adjacency of a directed shape.
pub struct DiAdj {
    pub succ: Adj,
    pub pred: Adj,
}

/// Successor and predecessor adjacency of a directed multi shape.
pub struct MultiDiAdj {
    pub succ: MultiAdj,
    pub pred: MultiAdj,
}

/// The node-and-adjacency graph.  Only the adjacency matching
/// (`is_multigraph`, `is_directed`) is filled during a load.
pub struct NetworkXGraph {
    pub load_adj_dict: bool,
    pub load_coo: bool,
    pub load_all_vertex_attributes: bool,
    pub load_all_edge_attributes: bool,
    pub is_directed: bool,
    pub is_multigraph: bool,
    pub symmetrize_edges_if_directed: bool,

    pub node_map: StrMap<PropMap>,
    pub adj_map_graph: Adj,
    pub adj_map_digraph: DiAdj,
    pub adj_map_multigraph: MultiAdj,
    pub adj_map_multidigraph: MultiDiAdj,

    pub coo: (Vec<usize>, Vec<usize>),
    pub vertex_id_to_index: StrMap<usize>,
    pub edge_indices: Vec<usize>,
    pub edge_index_map: Vec<((String, String), usize)>,
    pub edge_values: StrMap<Vec<String>>,
}

/// A neighbour map whose property maps are all well formed.
pub open spec fn inner_wf(m: AdjInner) -> bool {
    &&& m.wf()
    &&& forall|i: int| 0 <= i < m.vals@.len() ==> (#[trigger] m.vals@[i]).wf()
}

/// An adjacency whose maps are all well formed.
pub open spec fn adj_wf(a: Adj) -> bool {
    &&& a.wf()
    &&& forall|i: int| 0 <= i < a.vals@.len() ==> inner_wf(#[trigger] a.vals@[i])
}

/// A multi neighbour map whose property maps are all well formed.
pub open spec fn minner_wf(m: MultiInner) -> bool {
    &&& m.wf()
    &&& forall|i: int, j: int|
        0 <= i < m.vals@.len() && 0 <= j < m.vals@[i]@.len() ==> (
        #[trigger] m.vals@[i]@[j]).wf()
}

/// A multi adjacency whose maps are all well formed.
pub open spec fn madj_wf(a: MultiAdj) -> bool {
    &&& a.wf()
    &&& forall|i: int| 0 <= i < a.vals@.len() ==> minner_wf(#[trigger] a.vals@[i])
}

/// The pair-keyed multi-edge counter read as an association sequence.
pub open spec fn eim_pairs(v: Vec<((String, String), usize)>) -> Seq<
    ((Seq<char>, Seq<char>), usize),
> {
    Seq::new(v@.len(), |i: int| ((v@[i].0.0@, v@[i].0.1@), v@[i].1))
}

impl NetworkXGraph {
    /// The structural invariant of the graph.
    pub open spec fn wf(&self) -> bool {
        &&& self.node_map.wf()
        &&& forall|i: int|
            0 <= i < self.node_map.vals@.len() ==> (#[trigger] self.node_map.vals@[i]).wf()
        &&& adj_wf(self.adj_map_graph)
        &&& adj_wf(self.adj_map_digraph.succ)
        &&& adj_wf(self.adj_map_digraph.pred)
        &&& madj_wf(self.adj_map_multigraph)
        &&& madj_wf(self.adj_map_multidigraph.succ)
        &&& madj_wf(self.adj_map_multidigraph.pred)
        &&& self.vertex_id_to_index.wf()
        &&& forall|i: int|
            0 <= i < self.vertex_id_to_index.vals@.len()
                ==> #[trigger] self.vertex_id_to_index.vals@[i] == i
        &&& self.coo.0@.len() == self.coo.1@.len()
        &&& forall|e: int|
            0 <= e < self.coo.0@.len() ==> (#[trigger] self.coo.0@[e])
                < self.vertex_id_to_index.keys@.len()
        &&& forall|e: int|
            0 <= e < self.coo.1@.len() ==> (#[trigger] self.coo.1@[e])
                < self.vertex_id_to_index.keys@.len()
        &&& crate::assoc::unique_keys(eim_pairs(self.edge_index_map))
        &&& forall|i: int|
            0 <= i < eim_pairs(self.edge_index_map).len() ==> (#[trigger] eim_pairs(
                self.edge_index_map,
            )[i]).1 < self.edge_indices@.len()
        &&& self.edge_values.wf()
    }

    /// An empty graph of the requested shape.
    pub fn new(
        load_adj_dict: bool,
        load_coo: bool,
        load_all_vertex_attributes: bool,
        load_all_edge_attributes: bool,
        is_directed: bool,
        is_multigraph: bool,
        symmetrize_edges_if_directed: bool,
    ) -> (r: NetworkXGraph)
        ensures
            r.wf(),
            r.load_adj_dict == load_adj_dict,
            r.load_coo == load_coo,
            r.load_all_vertex_attributes == load_all_vertex_attributes,
            r.load_all_edge_attributes == load_all_edge_attributes,
            r.is_directed == is_directed,
            r.is_multigraph == is_multigraph,
            r.symmetrize_edges_if_directed == symmetrize_edges_if_directed,
            r.node_map@ == Map::<Seq<char>, PropMap>::empty(),
            r.adj_map_graph@ == Map::<Seq<char>, AdjInner>::empty(),
            r.adj_map_digraph.succ@ == Map::<Seq<char>, AdjInner>::empty(),
            r.adj_map_digraph.pred@ == Map::<Seq<char>, AdjInner>::empty(),
            r.adj_map_multigraph@ == Map::<Seq<char>, MultiInner>::empty(),
            r.adj_map_multidigraph.succ@ == Map::<Seq<char>, MultiInner>::empty(),
            r.adj_map_multidigraph.pred@ == Map::<Seq<char>, MultiInner>::empty(),
            r.coo.0@.len() == 0,
            r.coo.1@.len() == 0,
            r.vertex_id_to_index@ == Map::<Seq<char>, usize>::empty(),
            r.vertex_id_to_index.keys@.len() == 0,
            r.edge_indices@.len() == 0,
            eim_pairs(r.edge_index_map).len() == 0,
            r.edge_values@ == Map::<Seq<char>, Vec<String>>::empty(),
    {
        let r = (NetworkXGraph {
            load_adj_dict,
            load_coo,
            load_all_vertex_attributes,
            load_all_edge_attributes,
            is_directed,
            is_multigraph,
            symmetrize_edges_if_directed,
            node_map: StrMap::new(),
            adj_map_graph: StrMap::new(),
            adj_map_digraph: (DiAdj { succ: StrMap::new(), pred: StrMap::new() }),
            adj_map_multigraph: StrMap::new(),
            adj_map_multidigraph: (MultiDiAdj { succ: StrMap::new(), pred: StrMap::new() }),
            coo: (Vec::new(), Vec::new()),
            vertex_id_to_index: StrMap::new(),
            edge_indices: Vec::new(),
            edge_index_map: Vec::new(),
            edge_values: StrMap::new(),
        });
        proof {
            assert(eim_pairs(r.edge_index_map) =~= Seq::<((Seq<char>, Seq<char>), usize)>::empty());
        }
        r
    }
}

/// Refuse a second edge toward `to_id` in a neighbour map that admits a
/// single edge per pair; such duplicates call for a multigraph shape.
pub fn panic_if_edge_exists(map: &AdjInner, from_id_str: &String, to_id_str: &String) -> (r:
    Result<(), GraphError>)
    requires
        map.wf(),
    ensures
        r is Err <==> map@.dom().contains(to_id_str@),
        r matches Err(e) ==> e == GraphError::DuplicateEdge,
{
    if map.contains_key(to_id_str) {
        Err(GraphError::DuplicateEdge)
    } else {
        Ok(())
    }
}

/// The members of a JSON object folded into a property map, later members
/// rewriting earlier ones of the same name.
pub open spec fn obj_as_prop_map_prefix(members: Seq<(Seq<char>, SpecJson)>, n: int) -> Map<
    Seq<char>,
    SpecJson,
>
    decreases n,
{
    if n <= 0 {
        Map::empty()
    } else {
        obj_as_prop_map_prefix(members, n - 1).insert(members[n - 1].0, members[n - 1].1)
    }
}

/// The whole object as a property map.
pub open spec fn obj_as_prop_map(members: Seq<(Seq<char>, SpecJson)>) -> Map<Seq<char>, SpecJson> {
    obj_as_prop_map_prefix(members, members.len() as int)
}

/// The selected properties of a document: every declared field except the
/// collection tag, except the identifier when `skip_id` is set, and except
/// null values.
pub open spec fn selected_props_prefix(
    columns: Seq<JsonValue>,
    fields: Seq<String>,
    skip_id: bool,
    n: int,
) -> Map<Seq<char>, SpecJson>
    decreases n,
{
    if n <= 0 {
        Map::empty()
    } else {
        let prev = selected_props_prefix(columns, fields, skip_id, n - 1);
        let name = fields[n - 1]@;
        if name == crate::graph::col_tag() || (skip_id && name == crate::graph::id_tag())
            || columns[n - 1] is Null {
            prev
        } else {
            prev.insert(name, columns[n - 1].deep_view())
        }
    }
}

/// All selected properties of a document.
pub open spec fn selected_props(
    columns: Seq<JsonValue>,
    fields: Seq<String>,
    skip_id: bool,
) -> Map<Seq<char>, SpecJson> {
    selected_props_prefix(columns, fields, skip_id, fields.len() as int)
}

impl NetworkXGraph {
    /// Properties of a vertex in all-attributes mode: the whole document,
    /// which must be a JSON object, with `_id` set to the identifier.
    pub fn get_vertex_properties_all(
        &self,
        vertex_id: String,
        columns: Vec<JsonValue>,
        field_names: &Vec<String>,
    ) -> (r: PropMap)
        requires
            columns@.len() == 1,
            columns@[0] is Obj,
            field_names@.len() == 0,
        ensures
            r.wf(),
            r@ == obj_as_prop_map(columns@[0].deep_view()->Obj_0).insert(
                "_id"@,
                SpecJson::Str(vertex_id@),
            ),
    {
        let mut r = PropMap::new();
        let obj = &columns[0];
        match obj {
            JsonValue::Obj(members) => {
                proof {
                    crate::json::lemma_obj_view(*members);
                }
                let n = members.len();
                let mut i: usize = 0;
                while i < n
                    invariant
                        n == members@.len(),
                        i <= n,
                        r.wf(),
                        r@ == obj_as_prop_map_prefix(crate::json::obj_view(*members), i as int),
                    decreases n - i,
                {
                    let k = members[i].0.clone();
                    let v = members[i].1.clone();
                    proof {
                        crate::json::lemma_obj_view(*members);
                        assert(crate::json::obj_view(*members)[i as int] == (
                            members@[i as int].0@,
                            members@[i as int].1.deep_view(),
                        ));
                    }
                    r.insert(k, v);
                    i += 1;
                }
            },
            _ => {
                proof {
                    assert(false);
                }
            },
        }
        let idname: String = "_id".to_owned();
        r.insert(idname, JsonValue::Str(vertex_id));
        r
    }

    /// Properties of a vertex in selected-fields mode.
    pub fn get_vertex_properties_selected(
        &self,
        _vertex_id: String,
        columns: Vec<JsonValue>,
        field_names: &Vec<String>,
    ) -> (r: PropMap)
        requires
            columns@.len() == field_names@.len(),
        ensures
            r.wf(),
            r@ == selected_props(columns@, field_names@, true),
    {
        selected_properties(&columns, field_names, true)
    }

    /// Properties of an edge in all-attributes mode: the whole document,
    /// which must be a JSON object, with `_from` and `_to` set.
    pub fn get_edge_properties_all(
        &self,
        from_id: String,
        to_id: String,
        columns: Vec<JsonValue>,
        field_names: &Vec<String>,
    ) -> (r: PropMap)
        requires
            columns@.len() == 1,
            columns@[0] is Obj,
            field_names@.len() == 0,
        ensures
            r.wf(),
            r@ == obj_as_prop_map(columns@[0].deep_view()->Obj_0).insert(
                "_from"@,
                SpecJson::Str(from_id@),
            ).insert("_to"@, SpecJson::Str(to_id@)),
    {
        let mut r = PropMap::new();
        let obj = &columns[0];
        match obj {
            JsonValue::Obj(members) => {
                proof {
                    crate::json::lemma_obj_view(*members);
                }
                let n = members.len();
                let mut i: usize = 0;
                while i < n
                    invariant
                        n == members@.len(),
                        i <= n,
                        r.wf(),
                        r@ == obj_as_prop_map_prefix(crate::json::obj_view(*members), i as int),
                    decreases n - i,
                {
                    let k = members[i].0.clone();
                    let v = members[i].1.clone();
                    proof {
                        crate::json::lemma_obj_view(*members);
                        assert(crate::json::obj_view(*members)[i as int] == (
                            members@[i as int].0@,
                            members@[i as int].1.deep_view(),
                        ));
                    }
                    r.insert(k, v);
                    i += 1;
                }
            },
            _ => {
                proof {
                    assert(false);
                }
            },
        }
        let fromname: String = "_from".to_owned();
        r.insert(fromname, JsonValue::Str(from_id));
        let toname: String = "_to".to_owned();
        r.insert(toname, JsonValue::Str(to_id));
        r
    }

    /// Properties of an edge in selected-fields mode.
    pub fn get_edge_properties_selected(
        &self,
        _from_id: String,
        _to_id: String,
        columns: Vec<JsonValue>,
        field_names: &Vec<String>,
    ) -> (r: PropMap)
        requires
            columns@.len() == field_names@.len(),
        ensures
            r.wf(),
            r@ == selected_props(columns@, field_names@, false),
    {
        selected_properties(&columns, field_names, false)
    }
}

/// Shared body of the selected-fields property readers.
fn selected_properties(columns: &Vec<JsonValue>, field_names: &Vec<String>, skip_id: bool) -> (r:
    PropMap)
    requires
        columns@.len() == field_names@.len(),
    ensures
        r.wf(),
        r@ == selected_props(columns@, field_names@, skip_id),
{
    let tag: String = "@collection_name".to_owned();
    let idname: String = "_id".to_owned();
    let mut r = PropMap::new();
    let n = field_names.len();
    let mut i: usize = 0;
    while i < n
        invariant
            n == field_names@.len(),
            columns@.len() == field_names@.len(),
            i <= n,
            r.wf(),
            tag@ == crate::graph::col_tag(),
            idname@ == crate::graph::id_tag(),
            r@ == selected_props_prefix(columns@, field_names@, skip_id, i as int),
        decreases n - i,
    {
        let name = &field_names[i];
        let mut skip: bool = false;
        if *name == tag {
            skip = true;
        }
        if skip_id && *name == idname {
            skip = true;
        }
        match &columns[i] {
            JsonValue::Null => {
                skip = true;
            },
            _ => {},
        }
        if !skip {
            r.insert(name.clone(), columns[i].clone());
        }
        i += 1;
    }
    r
}


/// Get-or-assign of one identifier in the global index map: a known
/// identifier keeps its index, a new one receives the next dense index.
/// Yields the new map, the new count and the index.
pub open spec fn assign_id(m: Map<Seq<char>, usize>, n: int, id: Seq<char>) -> (
    Map<Seq<char>, usize>,
    int,
    int,
) {
    if m.dom().contains(id) {
        (m, n, m[id] as int)
    } else {
        (m.insert(id, n as usize), n + 1, n)
    }
}

/// The edge-scalar table read with its value lists as text sequences.
pub open spec fn edge_values_view(m: StrMap<Vec<String>>) -> Map<Seq<char>, Seq<Seq<char>>> {
    Map::new(|k: Seq<char>| m@.dom().contains(k), |k: Seq<char>| m@[k].deep_view())
}

/// The scalar properties of one edge as (name, numeric text) pairs.
pub open spec fn props_pairs(v: Vec<(String, String)>) -> Seq<(Seq<char>, Seq<char>)> {
    Seq::new(v@.len(), |i: int| (v@[i].0@, v@[i].1@))
}

/// Appending the first `n` edge scalars to the table, each to its own
/// name's list.
pub open spec fn apply_edge_values_prefix(
    t: Map<Seq<char>, Seq<Seq<char>>>,
    props: Seq<(Seq<char>, Seq<char>)>,
    n: int,
) -> Map<Seq<char>, Seq<Seq<char>>>
    decreases n,
{
    if n <= 0 {
        t
    } else {
        let prev = apply_edge_values_prefix(t, props, n - 1);
        let cur = if prev.dom().contains(props[n - 1].0) {
            prev[props[n - 1].0]
        } else {
            Seq::empty()
        };
        prev.insert(props[n - 1].0, cur.push(props[n - 1].1))
    }
}

/// Appending all scalars of one edge.
pub open spec fn apply_edge_values(
    t: Map<Seq<char>, Seq<Seq<char>>>,
    props: Seq<(Seq<char>, Seq<char>)>,
) -> Map<Seq<char>, Seq<Seq<char>>> {
    apply_edge_values_prefix(t, props, props.len() as int)
}

impl NetworkXGraph {
    /// Indices of the two endpoints in the global identifier-to-index map,
    /// assigning the next dense index to each identifier seen for the
    /// first time.
    #[verifier::loop_isolation(false)]
    pub fn get_from_and_to_id_index(&mut self, from_id_str: String, to_id_str: String) -> (r: (
        usize,
        usize,
    ))
        requires
            old(self).wf(),
        ensures
            final(self).wf(),
            *final(self) == (NetworkXGraph {
                vertex_id_to_index: final(self).vertex_id_to_index,
                ..*old(self)
            }),
            ({
                let a1 = assign_id(
                    old(self).vertex_id_to_index@,
                    old(self).vertex_id_to_index.keys@.len() as int,
                    from_id_str@,
                );
                let a2 = assign_id(a1.0, a1.1, to_id_str@);
                &&& final(self).vertex_id_to_index@ == a2.0
                &&& final(self).vertex_id_to_index.keys@.len() == a2.1
                &&& r.0 == a1.2
                &&& r.1 == a2.2
            }),
            r.0 < final(self).vertex_id_to_index.keys@.len(),
            r.1 < final(self).vertex_id_to_index.keys@.len(),
            old(self).vertex_id_to_index.keys@.len() <= final(self).vertex_id_to_index.keys@.len(),
    {
        let ghost m0 = self.vertex_id_to_index@;
        let n0 = self.vertex_id_to_index.len();
        let ghost a1 = assign_id(m0, n0 as int, from_id_str@);
        let fi: usize = match self.vertex_id_to_index.get_index(&from_id_str) {
            Some(i) => self.vertex_id_to_index.vals[i],
            None => {
                let l = self.vertex_id_to_index.len();
                self.vertex_id_to_index.insert_new(from_id_str, l);
                l
            },
        };
        proof {
            assert(self.vertex_id_to_index@ == a1.0);
            assert(self.vertex_id_to_index.keys@.len() == a1.1);
            assert(fi == a1.2);
            assert(self.vertex_id_to_index.wf());
            assert(forall|i: int|
                0 <= i < self.vertex_id_to_index.vals@.len()
                    ==> #[trigger] self.vertex_id_to_index.vals@[i] == i);
        }
        let ghost a2 = assign_id(a1.0, a1.1, to_id_str@);
        let ti: usize = match self.vertex_id_to_index.get_index(&to_id_str) {
            Some(i) => self.vertex_id_to_index.vals[i],
            None => {
                let l = self.vertex_id_to_index.len();
                self.vertex_id_to_index.insert_new(to_id_str, l);
                l
            },
        };
        proof {
            assert(self.vertex_id_to_index@ == a2.0);
            assert(self.vertex_id_to_index.keys@.len() == a2.1);
            assert(ti == a2.2);
            // index bounds over the grown map carry the range invariant
            assert forall|e: int|
                0 <= e < self.coo.0@.len() implies (#[trigger] self.coo.0@[e])
                < self.vertex_id_to_index.keys@.len() by {
                assert(old(self).coo.0@[e] < old(self).vertex_id_to_index.keys@.len());
            }
            assert forall|e: int|
                0 <= e < self.coo.1@.len() implies (#[trigger] self.coo.1@[e])
                < self.vertex_id_to_index.keys@.len() by {
                assert(old(self).coo.1@[e] < old(self).vertex_id_to_index.keys@.len());
            }
            assert(self.wf());
        }
        (fi, ti)
    }

    /// Append each scalar property of one edge to the global per-name
    /// value lists.
    #[verifier::loop_isolation(false)]
    pub fn store_edge_properties(&mut self, properties: Vec<(String, String)>)
        requires
            old(self).wf(),
            forall|a: int, b: int|
                0 <= a < b < properties@.len() ==> properties@[a].0@ != properties@[b].0@,
        ensures
            final(self).wf(),
            *final(self) == (NetworkXGraph { edge_values: final(self).edge_values, ..*old(self) }),
            edge_values_view(final(self).edge_values) == apply_edge_values(
                edge_values_view(old(self).edge_values),
                props_pairs(properties),
            ),
    {
        let ghost t0 = edge_values_view(old(self).edge_values);
        let ghost pv = props_pairs(properties);
        let n = properties.len();
        let mut i: usize = 0;
        while i < n
            invariant
                i <= n,
                self.edge_values.wf(),
                *self == (NetworkXGraph { edge_values: self.edge_values, ..*old(self) }),
                edge_values_view(self.edge_values) == apply_edge_values_prefix(t0, pv, i as int),
            decreases n - i,
        {
            let name = properties[i].0.clone();
            let text = properties[i].1.clone();
            let ghost pre = self.edge_values;
            match self.edge_values.get_index(&name) {
                Some(vi) => {
                    let lst = self.edge_values.value_at_mut(vi);
                    let ghost pre_lst = *lst;
                    lst.push(text);
                    proof {
                        let newlst = self.edge_values.vals@[vi as int];
                        assert(newlst@ == pre_lst@.push(text));
                        crate::assoc::lemma_strmap_set(pre, self.edge_values, vi as int, newlst);
                        assert(newlst.deep_view() =~= pre_lst.deep_view().push(text@));
                        assert(edge_values_view(self.edge_values) =~= apply_edge_values_prefix(
                            t0,
                            pv,
                            i + 1,
                        ));
                    }
                },
                None => {
                    let mut nv: Vec<String> = Vec::new();
                    nv.push(text);
                    proof {
                        assert(nv.deep_view() =~= Seq::<Seq<char>>::empty().push(text@));
                    }
                    self.edge_values.insert_new(name, nv);
                    proof {
                        assert(edge_values_view(self.edge_values) =~= apply_edge_values_prefix(
                            t0,
                            pv,
                            i + 1,
                        ));
                    }
                },
            }
            i += 1;
        }
    }

    /// Undirected coordinate insertion: the edge and its mirror image both
    /// join the COO arrays.
    pub fn insert_coo_graph(
        &mut self,
        from_id_str: String,
        to_id_str: String,
        properties: Vec<(String, String)>,
    )
        requires
            old(self).wf(),
            forall|a: int, b: int|
                0 <= a < b < properties@.len() ==> properties@[a].0@ != properties@[b].0@,
        ensures
            final(self).wf(),
            *final(self) == (NetworkXGraph {
                vertex_id_to_index: final(self).vertex_id_to_index,
                coo: final(self).coo,
                edge_values: final(self).edge_values,
                ..*old(self)
            }),
            ({
                let a1 = assign_id(
                    old(self).vertex_id_to_index@,
                    old(self).vertex_id_to_index.keys@.len() as int,
                    from_id_str@,
                );
                let a2 = assign_id(a1.0, a1.1, to_id_str@);
                &&& final(self).vertex_id_to_index@ == a2.0
                &&& final(self).vertex_id_to_index.keys@.len() == a2.1
                &&& final(self).coo.0@ == old(self).coo.0@.push(a1.2 as usize).push(a2.2 as usize)
                &&& final(self).coo.1@ == old(self).coo.1@.push(a2.2 as usize).push(a1.2 as usize)
            }),
            edge_values_view(final(self).edge_values) == apply_edge_values(
                edge_values_view(old(self).edge_values),
                props_pairs(properties),
            ),
    {
        let (fi, ti) = self.get_from_and_to_id_index(from_id_str, to_id_str);
        self.coo.0.push(fi);
        self.coo.1.push(ti);
        self.coo.0.push(ti);
        self.coo.1.push(fi);
        self.store_edge_properties(properties);
    }

    /// Directed coordinate insertion: only the stated direction joins the
    /// COO arrays.
    pub fn insert_coo_digraph(
        &mut self,
        from_id_str: String,
        to_id_str: String,
        properties: Vec<(String, String)>,
    )
        requires
            old(self).wf(),
            forall|a: int, b: int|
                0 <= a < b < properties@.len() ==> properties@[a].0@ != properties@[b].0@,
        ensures
            final(self).wf(),
            *final(self) == (NetworkXGraph {
                vertex_id_to_index: final(self).vertex_id_to_index,
                coo: final(self).coo,
                edge_values: final(self).edge_values,
                ..*old(self)
            }),
            ({
                let a1 = assign_id(
                    old(self).vertex_id_to_index@,
                    old(self).vertex_id_to_index.keys@.len() as int,
                    from_id_str@,
                );
                let a2 = assign_id(a1.0, a1.1, to_id_str@);
                &&& final(self).vertex_id_to_index@ == a2.0
                &&& final(self).vertex_id_to_index.keys@.len() == a2.1
                &&& final(self).coo.0@ == old(self).coo.0@.push(a1.2 as usize)
                &&& final(self).coo.1@ == old(self).coo.1@.push(a2.2 as usize)
            }),
            edge_values_view(final(self).edge_values) == apply_edge_values(
                edge_values_view(old(self).edge_values),
                props_pairs(properties),
            ),
    {
        let (fi, ti) = self.get_from_and_to_id_index(from_id_str, to_id_str);
        self.coo.0.push(fi);
        self.coo.1.push(ti);
        self.store_edge_properties(properties);
    }
}


/// The local multi-edge index recorded for an identifier pair, if any.
fn eim_get(v: &Vec<((String, String), usize)>, f: &String, t: &String) -> (r: Option<usize>)
    requires
        crate::assoc::unique_keys(eim_pairs(*v)),
    ensures
        match r {
            Some(x) => crate::assoc::as_map(eim_pairs(*v)).dom().contains((f@, t@)) && x
                == crate::assoc::as_map(eim_pairs(*v))[(f@, t@)],
            None => !crate::assoc::as_map(eim_pairs(*v)).dom().contains((f@, t@)),
        },
{
    let n = v.len();
    let mut i: usize = 0;
    while i < n
        invariant
            crate::assoc::unique_keys(eim_pairs(*v)),
            n == v@.len(),
            i <= n,
            forall|j: int| 0 <= j < i ==> (#[trigger] eim_pairs(*v)[j]).0 != (f@, t@),
        decreases n - i,
    {
        if v[i].0.0 == *f && v[i].0.1 == *t {
            proof {
                assert(eim_pairs(*v)[i as int].0 == (f@, t@));
                crate::assoc::lemma_key_at(eim_pairs(*v), i as int);
            }
            return Some(v[i].1);
        }
        proof {
            assert(eim_pairs(*v)[i as int].0 != (f@, t@));
        }
        i += 1;
    }
    proof {
        if crate::assoc::has_key(eim_pairs(*v), (f@, t@)) {
            let w = choose|w: int|
                0 <= w < eim_pairs(*v).len() && eim_pairs(*v)[w].0 == (f@, t@);
        }
    }
    None
}

/// Bind the pair to a local multi-edge index, rewriting any earlier
/// binding.
fn eim_set(v: &mut Vec<((String, String), usize)>, f: String, t: String, val: usize)
    requires
        crate::assoc::unique_keys(eim_pairs(*old(v))),
    ensures
        crate::assoc::unique_keys(eim_pairs(*final(v))),
        crate::assoc::as_map(eim_pairs(*final(v))) == crate::assoc::as_map(
            eim_pairs(*old(v)),
        ).insert((f@, t@), val),
        eim_pairs(*final(v)).len() <= eim_pairs(*old(v)).len() + 1,
        forall|i: int|
            0 <= i < eim_pairs(*final(v)).len() ==> (#[trigger] eim_pairs(*final(v))[i]).1 == val
                || (i < eim_pairs(*old(v)).len() && eim_pairs(*final(v))[i].1 == eim_pairs(
                *old(v),
            )[i].1),
{
    let n = v.len();
    let mut i: usize = 0;
    while i < n
        invariant
            crate::assoc::unique_keys(eim_pairs(*v)),
            *v == *old(v),
            n == v@.len(),
            i <= n,
            forall|j: int| 0 <= j < i ==> (#[trigger] eim_pairs(*v)[j]).0 != (f@, t@),
        decreases n - i,
    {
        if v[i].0.0 == f && v[i].0.1 == t {
            proof {
                assert(eim_pairs(*v)[i as int].0 == (f@, t@));
                crate::assoc::lemma_key_at(eim_pairs(*v), i as int);
            }
            v[i] = ((f, t), val);
            proof {
                assert(eim_pairs(*v) =~= eim_pairs(*old(v)).update(
                    i as int,
                    ((f@, t@), val),
                ));
                crate::assoc::lemma_update_value(eim_pairs(*old(v)), i as int, val);
            }
            return;
        }
        proof {
            assert(eim_pairs(*v)[i as int].0 != (f@, t@));
        }
        i += 1;
    }
    proof {
        assert(!crate::assoc::has_key(eim_pairs(*v), (f@, t@))) by {
            if crate::assoc::has_key(eim_pairs(*v), (f@, t@)) {
                let w = choose|w: int|
                    0 <= w < eim_pairs(*v).len() && eim_pairs(*v)[w].0 == (f@, t@);
            }
        }
        crate::assoc::lemma_push_fresh_key(eim_pairs(*v), (f@, t@), val);
    }
    v.push(((f, t), val));
    proof {
        assert(eim_pairs(*v) =~= eim_pairs(*old(v)).push(((f@, t@), val)));
    }
}

impl NetworkXGraph {
    /// Undirected multigraph coordinate insertion: both directions join the
    /// COO arrays, and the pair's local parallel-edge index - starting at
    /// zero and counting up - is recorded for both orientations and pushed
    /// once per COO entry.
    pub fn insert_coo_multigraph(
        &mut self,
        from_id_str: String,
        to_id_str: String,
        properties: Vec<(String, String)>,
    )
        requires
            old(self).wf(),
            forall|a: int, b: int|
                0 <= a < b < properties@.len() ==> properties@[a].0@ != properties@[b].0@,
        ensures
            final(self).wf(),
            *final(self) == (NetworkXGraph {
                vertex_id_to_index: final(self).vertex_id_to_index,
                coo: final(self).coo,
                edge_indices: final(self).edge_indices,
                edge_index_map: final(self).edge_index_map,
                edge_values: final(self).edge_values,
                ..*old(self)
            }),
            ({
                let a1 = assign_id(
                    old(self).vertex_id_to_index@,
                    old(self).vertex_id_to_index.keys@.len() as int,
                    from_id_str@,
                );
                let a2 = assign_id(a1.0, a1.1, to_id_str@);
                &&& final(self).vertex_id_to_index@ == a2.0
                &&& final(self).vertex_id_to_index.keys@.len() == a2.1
                &&& final(self).coo.0@ == old(self).coo.0@.push(a1.2 as usize).push(a2.2 as usize)
                &&& final(self).coo.1@ == old(self).coo.1@.push(a2.2 as usize).push(a1.2 as usize)
            }),
            ({
                let prev = crate::assoc::as_map(eim_pairs(old(self).edge_index_map));
                let idx: usize = if prev.dom().contains((from_id_str@, to_id_str@)) {
                    (prev[(from_id_str@, to_id_str@)] + 1) as usize
                } else {
                    0
                };
                &&& crate::assoc::as_map(eim_pairs(final(self).edge_index_map)) == prev.insert(
                    (from_id_str@, to_id_str@),
                    idx,
                ).insert((to_id_str@, from_id_str@), idx)
                &&& final(self).edge_indices@ == old(self).edge_indices@.push(idx).push(idx)
            }),
            edge_values_view(final(self).edge_values) == apply_edge_values(
                edge_values_view(old(self).edge_values),
                props_pairs(properties),
            ),
    {
        let f2 = from_id_str.clone();
        let t2 = to_id_str.clone();
        let f3 = from_id_str.clone();
        let t3 = to_id_str.clone();
        let (fi, ti) = self.get_from_and_to_id_index(f2, t2);
        let el = self.edge_indices.len();
        let idx: usize = match eim_get(&self.edge_index_map, &from_id_str, &to_id_str) {
            Some(x) => {
                proof {
                    let w = choose|w: int|
                        0 <= w < eim_pairs(old(self).edge_index_map).len() && eim_pairs(
                            old(self).edge_index_map,
                        )[w].0 == (from_id_str@, to_id_str@);
                    crate::assoc::lemma_key_at(eim_pairs(old(self).edge_index_map), w);
                    assert(x < old(self).edge_indices@.len());
                    assert(x < el);
                }
                x + 1
            },
            None => 0,
        };
        eim_set(&mut self.edge_index_map, f3, t3, idx);
        eim_set(&mut self.edge_index_map, to_id_str, from_id_str, idx);
        self.coo.0.push(fi);
        self.coo.1.push(ti);
        self.edge_indices.push(idx);
        self.coo.0.push(ti);
        self.coo.1.push(fi);
        self.edge_indices.push(idx);
        self.store_edge_properties(properties);
    }

    /// Directed multigraph coordinate insertion: one direction joins the
    /// COO arrays, the pair's local parallel-edge index is recorded for
    /// that orientation alone and pushed once.
    pub fn insert_coo_multidigraph(
        &mut self,
        from_id_str: String,
        to_id_str: String,
        properties: Vec<(String, String)>,
    )
        requires
            old(self).wf(),
            forall|a: int, b: int|
                0 <= a < b < properties@.len() ==> properties@[a].0@ != properties@[b].0@,
        ensures
            final(self).wf(),
            *final(self) == (NetworkXGraph {
                vertex_id_to_index: final(self).vertex_id_to_index,
                coo: final(self).coo,
                edge_indices: final(self).edge_indices,
                edge_index_map: final(self).edge_index_map,
                edge_values: final(self).edge_values,
                ..*old(self)
            }),
            ({
                let a1 = assign_id(
                    old(self).vertex_id_to_index@,
                    old(self).vertex_id_to_index.keys@.len() as int,
                    from_id_str@,
                );
                let a2 = assign_id(a1.0, a1.1, to_id_str@);
                &&& final(self).vertex_id_to_index@ == a2.0
                &&& final(self).vertex_id_to_index.keys@.len() == a2.1
                &&& final(self).coo.0@ == old(self).coo.0@.push(a1.2 as usize)
                &&& final(self).coo.1@ == old(self).coo.1@.push(a2.2 as usize)
            }),
            ({
                let prev = crate::assoc::as_map(eim_pairs(old(self).edge_index_map));
                let idx: usize = if prev.dom().contains((from_id_str@, to_id_str@)) {
                    (prev[(from_id_str@, to_id_str@)] + 1) as usize
                } else {
                    0
                };
                &&& crate::assoc::as_map(eim_pairs(final(self).edge_index_map)) == prev.insert(
                    (from_id_str@, to_id_str@),
                    idx,
                )
                &&& final(self).edge_indices@ == old(self).edge_indices@.push(idx)
            }),
            edge_values_view(final(self).edge_values) == apply_edge_values(
                edge_values_view(old(self).edge_values),
                props_pairs(properties),
            ),
    {
        let f2 = from_id_str.clone();
        let t2 = to_id_str.clone();
        let (fi, ti) = self.get_from_and_to_id_index(f2, t2);
        let el = self.edge_indices.len();
        let idx: usize = match eim_get(&self.edge_index_map, &from_id_str, &to_id_str) {
            Some(x) => {
                proof {
                    let w = choose|w: int|
                        0 <= w < eim_pairs(old(self).edge_index_map).len() && eim_pairs(
                            old(self).edge_index_map,
                        )[w].0 == (from_id_str@, to_id_str@);
                    crate::assoc::lemma_key_at(eim_pairs(old(self).edge_index_map), w);
                    assert(x < old(self).edge_indices@.len());
                    assert(x < el);
                }
                x + 1
            },
            None => 0,
        };
        eim_set(&mut self.edge_index_map, from_id_str, to_id_str, idx);
        self.coo.0.push(fi);
        self.coo.1.push(ti);
        self.edge_indices.push(idx);
        self.store_edge_properties(properties);
    }
}


/// A neighbour map with its property maps read mathematically.
pub open spec fn inner_view(m: AdjInner) -> Map<Seq<char>, Map<Seq<char>, SpecJson>> {
    Map::new(|k: Seq<char>| m@.dom().contains(k), |k: Seq<char>| m@[k]@)
}

/// An adjacency with both levels read mathematically.
pub open spec fn adj_view(a: Adj) -> Map<Seq<char>, Map<Seq<char>, Map<Seq<char>, SpecJson>>> {
    Map::new(|k: Seq<char>| a@.dom().contains(k), |k: Seq<char>| inner_view(a@[k]))
}

/// Parallel-edge property lists read mathematically; the position is the
/// local edge index.
pub open spec fn vec_props_view(v: Vec<PropMap>) -> Seq<Map<Seq<char>, SpecJson>> {
    Seq::new(v@.len(), |i: int| v@[i]@)
}

/// A multi neighbour map read mathematically.
pub open spec fn minner_view(m: MultiInner) -> Map<Seq<char>, Seq<Map<Seq<char>, SpecJson>>> {
    Map::new(|k: Seq<char>| m@.dom().contains(k), |k: Seq<char>| vec_props_view(m@[k]))
}

/// A multi adjacency read mathematically.
pub open spec fn madj_view(a: MultiAdj) -> Map<
    Seq<char>,
    Map<Seq<char>, Seq<Map<Seq<char>, SpecJson>>>,
> {
    Map::new(|k: Seq<char>| a@.dom().contains(k), |k: Seq<char>| minner_view(a@[k]))
}

/// The duplicate condition of a simple adjacency: the unordered pair is
/// already connected.
pub open spec fn simple_dup(
    base: Map<Seq<char>, Map<Seq<char>, Map<Seq<char>, SpecJson>>>,
    f: Seq<char>,
    t: Seq<char>,
) -> bool {
    let fin = if base.dom().contains(f) {
        base[f]
    } else {
        Map::<Seq<char>, Map<Seq<char>, SpecJson>>::empty()
    };
    let tin = if base.dom().contains(t) {
        base[t]
    } else {
        Map::<Seq<char>, Map<Seq<char>, SpecJson>>::empty()
    };
    fin.dom().contains(t) || (f != t && tin.dom().contains(f))
}

/// One directed entry added to an adjacency: `props` becomes the edge
/// record under `base[f][t]`.
pub open spec fn adj_step(
    base: Map<Seq<char>, Map<Seq<char>, Map<Seq<char>, SpecJson>>>,
    f: Seq<char>,
    t: Seq<char>,
    props: Map<Seq<char>, SpecJson>,
) -> Map<Seq<char>, Map<Seq<char>, Map<Seq<char>, SpecJson>>> {
    let fin = if base.dom().contains(f) {
        base[f]
    } else {
        Map::<Seq<char>, Map<Seq<char>, SpecJson>>::empty()
    };
    base.insert(f, fin.insert(t, props))
}

impl NetworkXGraph {
    /// One directed entry, executably: `props` becomes the edge record
    /// under `adj[f][t]`, creating the node's neighbour map as needed.
    #[verifier::loop_isolation(false)]
    fn adj_insert_one(a: &mut Adj, f: String, t: String, props: PropMap)
        requires
            adj_wf(*old(a)),
            props.wf(),
        ensures
            adj_wf(*final(a)),
            adj_view(*final(a)) == adj_step(adj_view(*old(a)), f@, t@, props@),
            final(a)@.dom() =~= old(a)@.dom().insert(f@),
            forall|k: Seq<char>|
                #[trigger] old(a)@.dom().contains(k) && k != f@ ==> final(a)@[k] == old(a)@[k],
    {
        let fi = match a.get_index(&f) {
            Some(i) => i,
            None => {
                let l = a.len();
                a.insert_new(f.clone(), StrMap::new());
                l
            },
        };
        let ghost mid = *a;
        proof {
            assert(fi < mid.vals@.len());
            assert(mid.keys@[fi as int]@ == f@);
            assert(mid@[f@] == mid.vals@[fi as int]) by {
                crate::assoc::lemma_key_at(mid.pairs(), fi as int);
            }
            assert(adj_wf(mid));
            assert(inner_wf(mid.vals@[fi as int]));
        }
        let fin = a.value_at_mut(fi);
        let ghost pre_fin = *fin;
        fin.set(t, props);
        proof {
            let v = a.vals@[fi as int];
            assert(v@ == pre_fin@.insert(t@, props));
            assert(inner_wf(v)) by {
                if crate::assoc::has_key(pre_fin.pairs(), t@) {
                    assert forall|i: int| 0 <= i < v.vals@.len() implies (
                        #[trigger] v.vals@[i]).wf() by {
                        if i != crate::assoc::first_key_index(pre_fin.pairs(), t@) {
                            assert(v.vals@[i] == pre_fin.vals@[i]);
                        }
                    }
                } else {
                    assert forall|i: int| 0 <= i < v.vals@.len() implies (
                        #[trigger] v.vals@[i]).wf() by {
                        if i < pre_fin.vals@.len() {
                            assert(v.vals@[i] == pre_fin.vals@[i]);
                        }
                    }
                }
            }
            crate::assoc::lemma_strmap_set(mid, *a, fi as int, v);
            assert(inner_view(v) =~= inner_view(pre_fin).insert(t@, props@));
            assert(inner_view(pre_fin) =~= ({
                let base = adj_view(*old(a));
                if base.dom().contains(f@) {
                    base[f@]
                } else {
                    Map::<Seq<char>, Map<Seq<char>, SpecJson>>::empty()
                }
            }));
            assert(adj_view(*a) =~= adj_step(adj_view(*old(a)), f@, t@, props@));
            assert(a@.dom() =~= old(a)@.dom().insert(f@));
        }
    }

    /// Undirected adjacency insertion: the edge record is mirrored into
    /// both endpoints' neighbour maps; a second edge between the same pair
    /// is refused, and the graph left unchanged, since this shape admits
    /// one edge per pair.
    pub fn insert_adj_graph(
        &mut self,
        from_id_str: String,
        to_id_str: String,
        properties: PropMap,
    ) -> (r: Result<(), GraphError>)
        requires
            old(self).wf(),
            properties.wf(),
        ensures
            final(self).wf(),
            ({
                let base = adj_view(old(self).adj_map_graph);
                if simple_dup(base, from_id_str@, to_id_str@) {
                    &&& r matches Err(e) && e == GraphError::DuplicateEdge
                    &&& *final(self) == *old(self)
                } else {
                    let step1 = adj_step(base, from_id_str@, to_id_str@, properties@);
                    let step2 = adj_step(step1, to_id_str@, from_id_str@, properties@);
                    &&& r is Ok
                    &&& *final(self) == (NetworkXGraph {
                        adj_map_graph: final(self).adj_map_graph,
                        ..*old(self)
                    })
                    &&& adj_view(final(self).adj_map_graph) == step2
                }
            }),
    {
        let mut dup: bool = false;
        match self.adj_map_graph.get(&from_id_str) {
            Some(fin) => {
                proof {
                    crate::assoc::lemma_strmap_value_position(self.adj_map_graph, from_id_str@);
                    let w = choose|w: int|
                        0 <= w < self.adj_map_graph.vals@.len() && self.adj_map_graph@[from_id_str@]
                            == self.adj_map_graph.vals@[w];
                    assert(inner_wf(self.adj_map_graph.vals@[w]));
                }
                if fin.contains_key(&to_id_str) {
                    dup = true;
                }
            },
            None => {},
        }
        if !dup && !(from_id_str == to_id_str) {
            match self.adj_map_graph.get(&to_id_str) {
                Some(tin) => {
                    proof {
                        crate::assoc::lemma_strmap_value_position(
                            self.adj_map_graph,
                            to_id_str@,
                        );
                        let w = choose|w: int|
                            0 <= w < self.adj_map_graph.vals@.len()
                                && self.adj_map_graph@[to_id_str@]
                                == self.adj_map_graph.vals@[w];
                        assert(inner_wf(self.adj_map_graph.vals@[w]));
                    }
                    if tin.contains_key(&from_id_str) {
                        dup = true;
                    }
                },
                None => {},
            }
        }
        if dup {
            return Err(GraphError::DuplicateEdge);
        }
        let props2 = properties.clone();
        Self::adj_insert_one(
            &mut self.adj_map_graph,
            from_id_str.clone(),
            to_id_str.clone(),
            properties,
        );
        Self::adj_insert_one(&mut self.adj_map_graph, to_id_str, from_id_str, props2);
        Ok(())
    }
}


/// One directed entry added to a multi adjacency: `props` joins the end of
/// the parallel-edge list under `base[f][t]`.
pub open spec fn madj_step(
    base: Map<Seq<char>, Map<Seq<char>, Seq<Map<Seq<char>, SpecJson>>>>,
    f: Seq<char>,
    t: Seq<char>,
    props: Map<Seq<char>, SpecJson>,
) -> Map<Seq<char>, Map<Seq<char>, Seq<Map<Seq<char>, SpecJson>>>> {
    let fin = if base.dom().contains(f) {
        base[f]
    } else {
        Map::<Seq<char>, Seq<Map<Seq<char>, SpecJson>>>::empty()
    };
    let flist = if fin.dom().contains(t) {
        fin[t]
    } else {
        Seq::<Map<Seq<char>, SpecJson>>::empty()
    };
    base.insert(f, fin.insert(t, flist.push(props)))
}

/// The duplicate condition of the directed simple adjacency, checked in
/// the order the insertion walks its four maps.
pub open spec fn digraph_dup(
    succ: Map<Seq<char>, Map<Seq<char>, Map<Seq<char>, SpecJson>>>,
    pred: Map<Seq<char>, Map<Seq<char>, Map<Seq<char>, SpecJson>>>,
    f: Seq<char>,
    t: Seq<char>,
    symmetrize: bool,
) -> bool {
    let succ_f = if succ.dom().contains(f) {
        succ[f]
    } else {
        Map::<Seq<char>, Map<Seq<char>, SpecJson>>::empty()
    };
    let succ_t = if succ.dom().contains(t) {
        succ[t]
    } else {
        Map::<Seq<char>, Map<Seq<char>, SpecJson>>::empty()
    };
    let pred_f = if pred.dom().contains(f) {
        pred[f]
    } else {
        Map::<Seq<char>, Map<Seq<char>, SpecJson>>::empty()
    };
    let pred_t = if pred.dom().contains(t) {
        pred[t]
    } else {
        Map::<Seq<char>, Map<Seq<char>, SpecJson>>::empty()
    };
    ||| succ_f.dom().contains(t)
    ||| (symmetrize && f != t && succ_t.dom().contains(f))
    ||| pred_t.dom().contains(f)
    ||| (symmetrize && f != t && pred_f.dom().contains(t))
}

impl NetworkXGraph {
    /// One directed entry, executably, in a multi adjacency.
    #[verifier::loop_isolation(false)]
    fn madj_insert_one(a: &mut MultiAdj, f: String, t: String, props: PropMap)
        requires
            madj_wf(*old(a)),
            props.wf(),
        ensures
            madj_wf(*final(a)),
            madj_view(*final(a)) == madj_step(madj_view(*old(a)), f@, t@, props@),
    {
        let fi = match a.get_index(&f) {
            Some(i) => i,
            None => {
                let l = a.len();
                a.insert_new(f.clone(), StrMap::new());
                l
            },
        };
        let ghost mid = *a;
        proof {
            assert(fi < mid.vals@.len());
            assert(mid.keys@[fi as int]@ == f@);
            assert(mid@[f@] == mid.vals@[fi as int]) by {
                crate::assoc::lemma_key_at(mid.pairs(), fi as int);
            }
            assert(madj_wf(mid));
            assert(minner_wf(mid.vals@[fi as int]));
        }
        let fin = a.value_at_mut(fi);
        let ghost pre_fin = *fin;
        let ti = match fin.get_index(&t) {
            Some(i) => i,
            None => {
                let l = fin.len();
                let nv: Vec<PropMap> = Vec::new();
                fin.insert_new(t.clone(), nv);
                l
            },
        };
        let ghost mid_fin = *fin;
        proof {
            assert(ti < mid_fin.vals@.len());
            assert(mid_fin.keys@[ti as int]@ == t@);
            assert(mid_fin@[t@] == mid_fin.vals@[ti as int]) by {
                crate::assoc::lemma_key_at(mid_fin.pairs(), ti as int);
            }
        }
        let lst = fin.value_at_mut(ti);
        let ghost pre_lst = *lst;
        lst.push(props);
        proof {
            let newlst = fin.vals@[ti as int];
            assert(newlst@ == pre_lst@.push(props));
            crate::assoc::lemma_strmap_set(mid_fin, *fin, ti as int, newlst);
            assert(vec_props_view(newlst) =~= vec_props_view(pre_lst).push(props@));
        }
        proof {
            let v = a.vals@[fi as int];
            crate::assoc::lemma_strmap_set(mid, *a, fi as int, v);
            assert(minner_wf(v)) by {
                assert forall|i: int, j: int|
                    0 <= i < v.vals@.len() && 0 <= j < v.vals@[i]@.len() implies (
                    #[trigger] v.vals@[i]@[j]).wf() by {
                    if i != ti {
                        if i < pre_fin.vals@.len() {
                            assert(v.vals@[i] == pre_fin.vals@[i]);
                            assert(minner_wf(pre_fin));
                        }
                        if i >= pre_fin.vals@.len() {
                            assert(v.vals@[i]@.len() == 0);
                        }
                    } else {
                        if j < pre_lst@.len() {
                            assert(v.vals@[ti as int]@[j] == pre_lst@[j]);
                            if ti < pre_fin.vals@.len() {
                                assert(pre_lst == pre_fin.vals@[ti as int]);
                                assert(minner_wf(pre_fin));
                            }
                        } else {
                            assert(v.vals@[ti as int]@[j] == props);
                        }
                    }
                }
            }
            assert(madj_wf(*a)) by {
                assert forall|i: int| 0 <= i < a.vals@.len() implies minner_wf(
                    #[trigger] a.vals@[i],
                ) by {
                    if i != fi {
                        assert(a.vals@[i] == mid.vals@[i]);
                    }
                }
            }
            let basev = madj_view(*old(a));
            let finv = if basev.dom().contains(f@) {
                basev[f@]
            } else {
                Map::<Seq<char>, Seq<Map<Seq<char>, SpecJson>>>::empty()
            };
            let flist = if finv.dom().contains(t@) {
                finv[t@]
            } else {
                Seq::<Map<Seq<char>, SpecJson>>::empty()
            };
            assert(minner_view(pre_fin) =~= finv);
            assert(vec_props_view(pre_lst) =~= flist);
            assert(minner_view(v) =~= finv.insert(t@, flist.push(props@)));
            assert(madj_view(*a) =~= madj_step(madj_view(*old(a)), f@, t@, props@));
        }
    }

    /// Directed adjacency insertion: the edge record enters the successor
    /// map under the source and the predecessor map under the target -
    /// mirrored into the opposite orientations as well when symmetrization
    /// is requested - refusing a duplicate of an existing record.
    pub fn insert_adj_digraph(
        &mut self,
        from_id_str: String,
        to_id_str: String,
        properties: PropMap,
    ) -> (r: Result<(), GraphError>)
        requires
            old(self).wf(),
            properties.wf(),
        ensures
            final(self).wf(),
            ({
                let succ = adj_view(old(self).adj_map_digraph.succ);
                let pred = adj_view(old(self).adj_map_digraph.pred);
                let sym = old(self).symmetrize_edges_if_directed;
                if digraph_dup(succ, pred, from_id_str@, to_id_str@, sym) {
                    &&& r matches Err(e) && e == GraphError::DuplicateEdge
                    &&& *final(self) == *old(self)
                } else {
                    let succ1 = adj_step(succ, from_id_str@, to_id_str@, properties@);
                    let succ2 = if sym {
                        adj_step(succ1, to_id_str@, from_id_str@, properties@)
                    } else {
                        succ1
                    };
                    let pred1 = adj_step(pred, to_id_str@, from_id_str@, properties@);
                    let pred2 = if sym {
                        adj_step(pred1, from_id_str@, to_id_str@, properties@)
                    } else {
                        pred1
                    };
                    &&& r is Ok
                    &&& *final(self) == (NetworkXGraph {
                        adj_map_digraph: final(self).adj_map_digraph,
                        ..*old(self)
                    })
                    &&& adj_view(final(self).adj_map_digraph.succ) == succ2
                    &&& adj_view(final(self).adj_map_digraph.pred) == pred2
                }
            }),
    {
        let sym = self.symmetrize_edges_if_directed;
        let mut dup: bool = false;
        match self.adj_map_digraph.succ.get(&from_id_str) {
            Some(fin) => {
                proof {
                    crate::assoc::lemma_strmap_value_position(
                        self.adj_map_digraph.succ,
                        from_id_str@,
                    );
                    let w = choose|w: int|
                        0 <= w < self.adj_map_digraph.succ.vals@.len()
                            && self.adj_map_digraph.succ@[from_id_str@]
                            == self.adj_map_digraph.succ.vals@[w];
                    assert(inner_wf(self.adj_map_digraph.succ.vals@[w]));
                }
                if fin.contains_key(&to_id_str) {
                    dup = true;
                }
            },
            None => {},
        }
        if sym && !(from_id_str == to_id_str) {
            match self.adj_map_digraph.succ.get(&to_id_str) {
                Some(tin) => {
                    proof {
                        crate::assoc::lemma_strmap_value_position(
                            self.adj_map_digraph.succ,
                            to_id_str@,
                        );
                        let w = choose|w: int|
                            0 <= w < self.adj_map_digraph.succ.vals@.len()
                                && self.adj_map_digraph.succ@[to_id_str@]
                                == self.adj_map_digraph.succ.vals@[w];
                        assert(inner_wf(self.adj_map_digraph.succ.vals@[w]));
                    }
                    if tin.contains_key(&from_id_str) {
                        dup = true;
                    }
                },
                None => {},
            }
        }
        match self.adj_map_digraph.pred.get(&to_id_str) {
            Some(tin) => {
                proof {
                    crate::assoc::lemma_strmap_value_position(
                        self.adj_map_digraph.pred,
                        to_id_str@,
                    );
                    let w = choose|w: int|
                        0 <= w < self.adj_map_digraph.pred.vals@.len()
                            && self.adj_map_digraph.pred@[to_id_str@]
                            == self.adj_map_digraph.pred.vals@[w];
                    assert(inner_wf(self.adj_map_digraph.pred.vals@[w]));
                }
                if tin.contains_key(&from_id_str) {
                    dup = true;
                }
            },
            None => {},
        }
        if sym && !(from_id_str == to_id_str) {
            match self.adj_map_digraph.pred.get(&from_id_str) {
                Some(fin) => {
                    proof {
                        crate::assoc::lemma_strmap_value_position(
                            self.adj_map_digraph.pred,
                            from_id_str@,
                        );
                        let w = choose|w: int|
                            0 <= w < self.adj_map_digraph.pred.vals@.len()
                                && self.adj_map_digraph.pred@[from_id_str@]
                                == self.adj_map_digraph.pred.vals@[w];
                        assert(inner_wf(self.adj_map_digraph.pred.vals@[w]));
                    }
                    if fin.contains_key(&to_id_str) {
                        dup = true;
                    }
                },
                None => {},
            }
        }
        if dup {
            return Err(GraphError::DuplicateEdge);
        }
        let p2 = properties.clone();
        let p3 = properties.clone();
        let p4 = properties.clone();
        Self::adj_insert_one(
            &mut self.adj_map_digraph.succ,
            from_id_str.clone(),
            to_id_str.clone(),
            properties,
        );
        if sym {
            Self::adj_insert_one(
                &mut self.adj_map_digraph.succ,
                to_id_str.clone(),
                from_id_str.clone(),
                p2,
            );
        }
        Self::adj_insert_one(
            &mut self.adj_map_digraph.pred,
            to_id_str.clone(),
            from_id_str.clone(),
            p3,
        );
        if sym {
            Self::adj_insert_one(&mut self.adj_map_digraph.pred, from_id_str, to_id_str, p4);
        }
        Ok(())
    }

    /// Undirected multigraph adjacency insertion: the edge record joins
    /// both endpoints' parallel-edge lists - once only for a self loop -
    /// and duplicates are welcome.
    pub fn insert_adj_multigraph(
        &mut self,
        from_id_str: String,
        to_id_str: String,
        properties: PropMap,
    )
        requires
            old(self).wf(),
            properties.wf(),
        ensures
            final(self).wf(),
            *final(self) == (NetworkXGraph {
                adj_map_multigraph: final(self).adj_map_multigraph,
                ..*old(self)
            }),
            ({
                let base = madj_view(old(self).adj_map_multigraph);
                let step1 = madj_step(base, from_id_str@, to_id_str@, properties@);
                let step2 = if from_id_str@ != to_id_str@ {
                    madj_step(step1, to_id_str@, from_id_str@, properties@)
                } else {
                    step1
                };
                madj_view(final(self).adj_map_multigraph) == step2
            }),
    {
        let mirror = !(from_id_str == to_id_str);
        let p2 = properties.clone();
        Self::madj_insert_one(
            &mut self.adj_map_multigraph,
            from_id_str.clone(),
            to_id_str.clone(),
            properties,
        );
        if mirror {
            Self::madj_insert_one(&mut self.adj_map_multigraph, to_id_str, from_id_str, p2);
        }
    }

    /// Directed multigraph adjacency insertion: the edge record joins the
    /// successor list of the source and the predecessor list of the
    /// target, mirrored when symmetrization is requested.
    pub fn insert_adj_multidigraph(
        &mut self,
        from_id_str: String,
        to_id_str: String,
        properties: PropMap,
    )
        requires
            old(self).wf(),
            properties.wf(),
        ensures
            final(self).wf(),
            *final(self) == (NetworkXGraph {
                adj_map_multidigraph: final(self).adj_map_multidigraph,
                ..*old(self)
            }),
            ({
                let succ = madj_view(old(self).adj_map_multidigraph.succ);
                let pred = madj_view(old(self).adj_map_multidigraph.pred);
                let sym = old(self).symmetrize_edges_if_directed;
                let succ1 = madj_step(succ, from_id_str@, to_id_str@, properties@);
                let succ2 = if sym {
                    madj_step(succ1, to_id_str@, from_id_str@, properties@)
                } else {
                    succ1
                };
                let pred1 = madj_step(pred, to_id_str@, from_id_str@, properties@);
                let pred2 = if sym {
                    madj_step(pred1, from_id_str@, to_id_str@, properties@)
                } else {
                    pred1
                };
                &&& madj_view(final(self).adj_map_multidigraph.succ) == succ2
                &&& madj_view(final(self).adj_map_multidigraph.pred) == pred2
            }),
    {
        let sym = self.symmetrize_edges_if_directed;
        let p2 = properties.clone();
        let p3 = properties.clone();
        let p4 = properties.clone();
        Self::madj_insert_one(
            &mut self.adj_map_multidigraph.succ,
            from_id_str.clone(),
            to_id_str.clone(),
            properties,
        );
        if sym {
            Self::madj_insert_one(
                &mut self.adj_map_multidigraph.succ,
                to_id_str.clone(),
                from_id_str.clone(),
                p2,
            );
        }
        Self::madj_insert_one(
            &mut self.adj_map_multidigraph.pred,
            to_id_str.clone(),
            from_id_str.clone(),
            p3,
        );
        if sym {
            Self::madj_insert_one(
                &mut self.adj_map_multidigraph.pred,
                from_id_str,
                to_id_str,
                p4,
            );
        }
    }
}


/// What the undirected coordinate insertion did.
pub open spec fn coo_graph_post(
    pre: NetworkXGraph,
    post: NetworkXGraph,
    f: Seq<char>,
    t: Seq<char>,
    props: Seq<(Seq<char>, Seq<char>)>,
) -> bool {
    let a1 = assign_id(pre.vertex_id_to_index@, pre.vertex_id_to_index.keys@.len() as int, f);
    let a2 = assign_id(a1.0, a1.1, t);
    &&& post == (NetworkXGraph {
        vertex_id_to_index: post.vertex_id_to_index,
        coo: post.coo,
        edge_values: post.edge_values,
        ..pre
    })
    &&& post.vertex_id_to_index@ == a2.0
    &&& post.vertex_id_to_index.keys@.len() == a2.1
    &&& post.coo.0@ == pre.coo.0@.push(a1.2 as usize).push(a2.2 as usize)
    &&& post.coo.1@ == pre.coo.1@.push(a2.2 as usize).push(a1.2 as usize)
    &&& edge_values_view(post.edge_values) == apply_edge_values(
        edge_values_view(pre.edge_values),
        props,
    )
}

/// What the directed coordinate insertion did.
pub open spec fn coo_digraph_post(
    pre: NetworkXGraph,
    post: NetworkXGraph,
    f: Seq<char>,
    t: Seq<char>,
    props: Seq<(Seq<char>, Seq<char>)>,
) -> bool {
    let a1 = assign_id(pre.vertex_id_to_index@, pre.vertex_id_to_index.keys@.len() as int, f);
    let a2 = assign_id(a1.0, a1.1, t);
    &&& post == (NetworkXGraph {
        vertex_id_to_index: post.vertex_id_to_index,
        coo: post.coo,
        edge_values: post.edge_values,
        ..pre
    })
    &&& post.vertex_id_to_index@ == a2.0
    &&& post.vertex_id_to_index.keys@.len() == a2.1
    &&& post.coo.0@ == pre.coo.0@.push(a1.2 as usize)
    &&& post.coo.1@ == pre.coo.1@.push(a2.2 as usize)
    &&& edge_values_view(post.edge_values) == apply_edge_values(
        edge_values_view(pre.edge_values),
        props,
    )
}

/// The local parallel-edge index an insertion for this pair receives.
pub open spec fn next_local_index(pre: NetworkXGraph, f: Seq<char>, t: Seq<char>) -> usize {
    let prev = crate::assoc::as_map(eim_pairs(pre.edge_index_map));
    if prev.dom().contains((f, t)) {
        (prev[(f, t)] + 1) as usize
    } else {
        0
    }
}

/// What the undirected multigraph coordinate insertion did.
pub open spec fn coo_multigraph_post(
    pre: NetworkXGraph,
    post: NetworkXGraph,
    f: Seq<char>,
    t: Seq<char>,
    props: Seq<(Seq<char>, Seq<char>)>,
) -> bool {
    let a1 = assign_id(pre.vertex_id_to_index@, pre.vertex_id_to_index.keys@.len() as int, f);
    let a2 = assign_id(a1.0, a1.1, t);
    let prev = crate::assoc::as_map(eim_pairs(pre.edge_index_map));
    let idx = next_local_index(pre, f, t);
    &&& post == (NetworkXGraph {
        vertex_id_to_index: post.vertex_id_to_index,
        coo: post.coo,
        edge_indices: post.edge_indices,
        edge_index_map: post.edge_index_map,
        edge_values: post.edge_values,
        ..pre
    })
    &&& post.vertex_id_to_index@ == a2.0
    &&& post.vertex_id_to_index.keys@.len() == a2.1
    &&& post.coo.0@ == pre.coo.0@.push(a1.2 as usize).push(a2.2 as usize)
    &&& post.coo.1@ == pre.coo.1@.push(a2.2 as usize).push(a1.2 as usize)
    &&& crate::assoc::as_map(eim_pairs(post.edge_index_map)) == prev.insert((f, t), idx).insert(
        (t, f),
        idx,
    )
    &&& post.edge_indices@ == pre.edge_indices@.push(idx).push(idx)
    &&& edge_values_view(post.edge_values) == apply_edge_values(
        edge_values_view(pre.edge_values),
        props,
    )
}

/// What the directed multigraph coordinate insertion did.
pub open spec fn coo_multidigraph_post(
    pre: NetworkXGraph,
    post: NetworkXGraph,
    f: Seq<char>,
    t: Seq<char>,
    props: Seq<(Seq<char>, Seq<char>)>,
) -> bool {
    let a1 = assign_id(pre.vertex_id_to_index@, pre.vertex_id_to_index.keys@.len() as int, f);
    let a2 = assign_id(a1.0, a1.1, t);
    let prev = crate::assoc::as_map(eim_pairs(pre.edge_index_map));
    let idx = next_local_index(pre, f, t);
    &&& post == (NetworkXGraph {
        vertex_id_to_index: post.vertex_id_to_index,
        coo: post.coo,
        edge_indices: post.edge_indices,
        edge_index_map: post.edge_index_map,
        edge_values: post.edge_values,
        ..pre
    })
    &&& post.vertex_id_to_index@ == a2.0
    &&& post.vertex_id_to_index.keys@.len() == a2.1
    &&& post.coo.0@ == pre.coo.0@.push(a1.2 as usize)
    &&& post.coo.1@ == pre.coo.1@.push(a2.2 as usize)
    &&& crate::assoc::as_map(eim_pairs(post.edge_index_map)) == prev.insert((f, t), idx)
    &&& post.edge_indices@ == pre.edge_indices@.push(idx)
    &&& edge_values_view(post.edge_values) == apply_edge_values(
        edge_values_view(pre.edge_values),
        props,
    )
}

/// Which coordinate insertion the shape flags select: a multigraph - and
/// a symmetrized digraph - take the mirrored variants, a plain digraph the
/// one-directional ones.
pub open spec fn coo_dispatch_post(
    pre: NetworkXGraph,
    post: NetworkXGraph,
    f: Seq<char>,
    t: Seq<char>,
    props: Seq<(Seq<char>, Seq<char>)>,
) -> bool {
    if pre.is_multigraph {
        if pre.is_directed && !pre.symmetrize_edges_if_directed {
            coo_multidigraph_post(pre, post, f, t, props)
        } else {
            coo_multigraph_post(pre, post, f, t, props)
        }
    } else {
        if pre.is_directed && !pre.symmetrize_edges_if_directed {
            coo_digraph_post(pre, post, f, t, props)
        } else {
            coo_graph_post(pre, post, f, t, props)
        }
    }
}

/// What the undirected adjacency insertion did, duplicate refusal
/// included.
pub open spec fn adj_graph_post(
    pre: NetworkXGraph,
    post: NetworkXGraph,
    f: Seq<char>,
    t: Seq<char>,
    props: Map<Seq<char>, SpecJson>,
    r: Result<(), GraphError>,
) -> bool {
    let base = adj_view(pre.adj_map_graph);
    if simple_dup(base, f, t) {
        &&& r matches Err(e) && e == GraphError::DuplicateEdge
        &&& post == pre
    } else {
        let step1 = adj_step(base, f, t, props);
        let step2 = adj_step(step1, t, f, props);
        &&& r is Ok
        &&& post == (NetworkXGraph { adj_map_graph: post.adj_map_graph, ..pre })
        &&& adj_view(post.adj_map_graph) == step2
    }
}

/// What the directed adjacency insertion did, duplicate refusal included.
pub open spec fn adj_digraph_post(
    pre: NetworkXGraph,
    post: NetworkXGraph,
    f: Seq<char>,
    t: Seq<char>,
    props: Map<Seq<char>, SpecJson>,
    r: Result<(), GraphError>,
) -> bool {
    let succ = adj_view(pre.adj_map_digraph.succ);
    let pred = adj_view(pre.adj_map_digraph.pred);
    let sym = pre.symmetrize_edges_if_directed;
    if digraph_dup(succ, pred, f, t, sym) {
        &&& r matches Err(e) && e == GraphError::DuplicateEdge
        &&& post == pre
    } else {
        let succ1 = adj_step(succ, f, t, props);
        let succ2 = if sym {
            adj_step(succ1, t, f, props)
        } else {
            succ1
        };
        let pred1 = adj_step(pred, t, f, props);
        let pred2 = if sym {
            adj_step(pred1, f, t, props)
        } else {
            pred1
        };
        &&& r is Ok
        &&& post == (NetworkXGraph { adj_map_digraph: post.adj_map_digraph, ..pre })
        &&& adj_view(post.adj_map_digraph.succ) == succ2
        &&& adj_view(post.adj_map_digraph.pred) == pred2
    }
}

/// What the undirected multigraph adjacency insertion did.
pub open spec fn adj_multigraph_post(
    pre: NetworkXGraph,
    post: NetworkXGraph,
    f: Seq<char>,
    t: Seq<char>,
    props: Map<Seq<char>, SpecJson>,
) -> bool {
    let base = madj_view(pre.adj_map_multigraph);
    let step1 = madj_step(base, f, t, props);
    let step2 = if f != t {
        madj_step(step1, t, f, props)
    } else {
        step1
    };
    &&& post == (NetworkXGraph { adj_map_multigraph: post.adj_map_multigraph, ..pre })
    &&& madj_view(post.adj_map_multigraph) == step2
}

/// What the directed multigraph adjacency insertion did.
pub open spec fn adj_multidigraph_post(
    pre: NetworkXGraph,
    post: NetworkXGraph,
    f: Seq<char>,
    t: Seq<char>,
    props: Map<Seq<char>, SpecJson>,
) -> bool {
    let succ = madj_view(pre.adj_map_multidigraph.succ);
    let pred = madj_view(pre.adj_map_multidigraph.pred);
    let sym = pre.symmetrize_edges_if_directed;
    let succ1 = madj_step(succ, f, t, props);
    let succ2 = if sym {
        madj_step(succ1, t, f, props)
    } else {
        succ1
    };
    let pred1 = madj_step(pred, t, f, props);
    let pred2 = if sym {
        madj_step(pred1, f, t, props)
    } else {
        pred1
    };
    &&& post == (NetworkXGraph { adj_map_multidigraph: post.adj_map_multidigraph, ..pre })
    &&& madj_view(post.adj_map_multidigraph.succ) == succ2
    &&& madj_view(post.adj_map_multidigraph.pred) == pred2
}

/// Which adjacency insertion the shape flags select.
pub open spec fn adj_dispatch_post(
    pre: NetworkXGraph,
    post: NetworkXGraph,
    f: Seq<char>,
    t: Seq<char>,
    props: Map<Seq<char>, SpecJson>,
    r: Result<(), GraphError>,
) -> bool {
    if pre.is_multigraph {
        if pre.is_directed {
            adj_multidigraph_post(pre, post, f, t, props) && r is Ok
        } else {
            adj_multigraph_post(pre, post, f, t, props) && r is Ok
        }
    } else {
        if pre.is_directed {
            adj_digraph_post(pre, post, f, t, props, r)
        } else {
            adj_graph_post(pre, post, f, t, props, r)
        }
    }
}

/// The property map an edge receives under the attribute-loading flag.
pub open spec fn edge_props_spec(
    all: bool,
    f: Seq<char>,
    t: Seq<char>,
    columns: Seq<JsonValue>,
    fields: Seq<String>,
) -> Map<Seq<char>, SpecJson> {
    if all {
        obj_as_prop_map(columns[0].deep_view()->Obj_0).insert("_from"@, SpecJson::Str(f)).insert(
            "_to"@,
            SpecJson::Str(t),
        )
    } else {
        selected_props(columns, fields, false)
    }
}

/// Whether every declared edge field apart from the collection tag holds a
/// number, as the coordinate path demands.
pub open spec fn edge_scalars_ok(columns: Seq<JsonValue>, fields: Seq<String>) -> bool {
    forall|i: int|
        0 <= i < fields.len() && (#[trigger] fields[i])@ != crate::graph::col_tag() ==> columns[i]
            is Num
}

/// The scalar (name, numeric text) pairs of the first `n` edge fields.
pub open spec fn edge_scalars_prefix(
    columns: Seq<JsonValue>,
    fields: Seq<String>,
    n: int,
) -> Seq<(Seq<char>, Seq<char>)>
    decreases n,
{
    if n <= 0 {
        Seq::empty()
    } else {
        let prev = edge_scalars_prefix(columns, fields, n - 1);
        if fields[n - 1]@ == crate::graph::col_tag() {
            prev
        } else {
            prev.push((fields[n - 1]@, columns[n - 1]->Num_0@))
        }
    }
}

/// All scalar pairs of an edge document.
pub open spec fn edge_scalars(columns: Seq<JsonValue>, fields: Seq<String>) -> Seq<
    (Seq<char>, Seq<char>),
> {
    edge_scalars_prefix(columns, fields, fields.len() as int)
}

/// With distinct field names the scalar pairs carry distinct names.
proof fn lemma_edge_scalars_unique(columns: Seq<JsonValue>, fields: Seq<String>, n: int)
    requires
        0 <= n <= fields.len(),
        forall|a: int, b: int| 0 <= a < b < fields.len() ==> fields[a]@ != fields[b]@,
    ensures
        forall|a: int, b: int|
            0 <= a < b < edge_scalars_prefix(columns, fields, n).len()
                ==> edge_scalars_prefix(columns, fields, n)[a].0 != edge_scalars_prefix(
                columns,
                fields,
                n,
            )[b].0,
        forall|a: int|
            0 <= a < edge_scalars_prefix(columns, fields, n).len() ==> exists|i: int|
                0 <= i < n && (#[trigger] edge_scalars_prefix(columns, fields, n)[a]).0
                    == fields[i]@,
    decreases n,
{
    if n > 0 {
        lemma_edge_scalars_unique(columns, fields, n - 1);
        let prev = edge_scalars_prefix(columns, fields, n - 1);
        let cur = edge_scalars_prefix(columns, fields, n);
        if fields[n - 1]@ != crate::graph::col_tag() {
            assert forall|a: int, b: int| 0 <= a < b < cur.len() implies cur[a].0
                != cur[b].0 by {
                if b < prev.len() {
                } else {
                    assert(cur[b].0 == fields[n - 1]@);
                    let i = choose|i: int| 0 <= i < n - 1 && prev[a].0 == fields[i]@;
                    assert(fields[i]@ != fields[n - 1]@);
                }
            }
            assert forall|a: int| 0 <= a < cur.len() implies exists|i: int|
                0 <= i < n && (#[trigger] cur[a]).0 == fields[i]@ by {
                if a < prev.len() {
                    let i = choose|i: int| 0 <= i < n - 1 && prev[a].0 == fields[i]@;
                    assert(cur[a].0 == fields[i]@);
                } else {
                    assert(cur[a].0 == fields[n - 1]@);
                }
            }
        }
    }
}


/// The property map a vertex receives under the attribute-loading flag.
pub open spec fn vertex_props_spec(
    all: bool,
    id: Seq<char>,
    columns: Seq<JsonValue>,
    fields: Seq<String>,
) -> Map<Seq<char>, SpecJson> {
    if all {
        obj_as_prop_map(columns[0].deep_view()->Obj_0).insert("_id"@, SpecJson::Str(id))
    } else {
        selected_props(columns, fields, true)
    }
}

/// What one edge document does to the graph, by the output flags: the
/// coordinate path, the adjacency path, or both in that order.
pub open spec fn insert_edge_post(
    pre: NetworkXGraph,
    post: NetworkXGraph,
    f: Seq<char>,
    t: Seq<char>,
    columns: Seq<JsonValue>,
    fields: Seq<String>,
    r: Result<(), GraphError>,
) -> bool {
    if pre.load_coo && pre.load_adj_dict {
        if !edge_scalars_ok(columns, fields) {
            (r matches Err(e) && e == GraphError::NonNumericEdgeValue) && post == pre
        } else {
            exists|mid: NetworkXGraph|
                #[trigger] coo_dispatch_post(pre, mid, f, t, edge_scalars(columns, fields))
                    && adj_dispatch_post(
                    mid,
                    post,
                    f,
                    t,
                    edge_props_spec(pre.load_all_edge_attributes, f, t, columns, fields),
                    r,
                )
        }
    } else if pre.load_coo {
        if !edge_scalars_ok(columns, fields) {
            (r matches Err(e) && e == GraphError::NonNumericEdgeValue) && post == pre
        } else {
            r is Ok && coo_dispatch_post(pre, post, f, t, edge_scalars(columns, fields))
        }
    } else {
        adj_dispatch_post(
            pre,
            post,
            f,
            t,
            edge_props_spec(pre.load_all_edge_attributes, f, t, columns, fields),
            r,
        )
    }
}

impl NetworkXGraph {
    /// Coordinate-path insertion of one edge document: every declared
    /// field but the collection tag must be numeric, else the edge is
    /// refused untouched; the scalars then ride along into the per-name
    /// value lists.
    #[verifier::loop_isolation(false)]
    pub fn insert_edge_as_coo(
        &mut self,
        from_id_str: String,
        to_id_str: String,
        columns: &Vec<JsonValue>,
        field_names: &Vec<String>,
    ) -> (r: Result<(), GraphError>)
        requires
            old(self).wf(),
            field_names@.len() <= columns@.len(),
            forall|a: int, b: int|
                0 <= a < b < field_names@.len() ==> field_names@[a]@ != field_names@[b]@,
        ensures
            final(self).wf(),
            if edge_scalars_ok(columns@, field_names@) {
                r is Ok && coo_dispatch_post(
                    *old(self),
                    *final(self),
                    from_id_str@,
                    to_id_str@,
                    edge_scalars(columns@, field_names@),
                )
            } else {
                (r matches Err(e) && e == GraphError::NonNumericEdgeValue) && *final(self) == *old(
                    self,
                )
            },
    {
        let tag: String = "@collection_name".to_owned();
        let n = field_names.len();
        let mut props: Vec<(String, String)> = Vec::new();
        proof {
            assert(props_pairs(props) =~= edge_scalars_prefix(columns@, field_names@, 0));
        }
        let mut i: usize = 0;
        while i < n
            invariant
                i <= n,
                forall|j: int|
                    0 <= j < i && (#[trigger] field_names@[j])@ != crate::graph::col_tag()
                        ==> columns@[j] is Num,
                props_pairs(props) == edge_scalars_prefix(columns@, field_names@, i as int),
            decreases n - i,
        {
            if !(field_names[i] == tag) {
                match &columns[i] {
                    JsonValue::Num(t) => {
                        props.push((field_names[i].clone(), t.clone()));
                        proof {
                            assert(props_pairs(props) =~= edge_scalars_prefix(
                                columns@,
                                field_names@,
                                i + 1,
                            ));
                        }
                    },
                    _ => {
                        proof {
                            assert(!edge_scalars_ok(columns@, field_names@));
                        }
                        return Err(GraphError::NonNumericEdgeValue);
                    },
                }
            } else {
                proof {
                    assert(props_pairs(props) =~= edge_scalars_prefix(
                        columns@,
                        field_names@,
                        i + 1,
                    ));
                }
            }
            i += 1;
        }
        proof {
            assert(edge_scalars_ok(columns@, field_names@));
            lemma_edge_scalars_unique(columns@, field_names@, n as int);
            assert forall|a: int, b: int| 0 <= a < b < props@.len() implies props@[a].0@
                != props@[b].0@ by {
                assert(props_pairs(props)[a].0 == props@[a].0@);
                assert(props_pairs(props)[b].0 == props@[b].0@);
            }
        }
        let multi = self.is_multigraph;
        let directed = self.is_directed;
        let sym = self.symmetrize_edges_if_directed;
        if multi {
            if directed && !sym {
                self.insert_coo_multidigraph(from_id_str, to_id_str, props);
            } else {
                self.insert_coo_multigraph(from_id_str, to_id_str, props);
            }
        } else {
            if directed && !sym {
                self.insert_coo_digraph(from_id_str, to_id_str, props);
            } else {
                self.insert_coo_graph(from_id_str, to_id_str, props);
            }
        }
        Ok(())
    }

    /// Adjacency-path insertion of one edge document: its properties -
    /// whole document or selected fields, by the attribute flag - enter
    /// the adjacency of the configured shape.
    pub fn insert_edge_as_adj(
        &mut self,
        from_id_str: String,
        to_id_str: String,
        columns: Vec<JsonValue>,
        field_names: &Vec<String>,
    ) -> (r: Result<(), GraphError>)
        requires
            old(self).wf(),
            old(self).load_all_edge_attributes ==> columns@.len() == 1 && columns@[0] is Obj
                && field_names@.len() == 0,
            !old(self).load_all_edge_attributes ==> columns@.len() == field_names@.len(),
        ensures
            final(self).wf(),
            adj_dispatch_post(
                *old(self),
                *final(self),
                from_id_str@,
                to_id_str@,
                edge_props_spec(
                    old(self).load_all_edge_attributes,
                    from_id_str@,
                    to_id_str@,
                    columns@,
                    field_names@,
                ),
                r,
            ),
    {
        let props = if self.load_all_edge_attributes {
            self.get_edge_properties_all(
                from_id_str.clone(),
                to_id_str.clone(),
                columns,
                field_names,
            )
        } else {
            self.get_edge_properties_selected(
                from_id_str.clone(),
                to_id_str.clone(),
                columns,
                field_names,
            )
        };
        let multi = self.is_multigraph;
        let directed = self.is_directed;
        if multi {
            if directed {
                self.insert_adj_multidigraph(from_id_str, to_id_str, props);
                Ok(())
            } else {
                self.insert_adj_multigraph(from_id_str, to_id_str, props);
                Ok(())
            }
        } else {
            if directed {
                self.insert_adj_digraph(from_id_str, to_id_str, props)
            } else {
                self.insert_adj_graph(from_id_str, to_id_str, props)
            }
        }
    }

    /// Both paths in order: the coordinate insertion first - refusing the
    /// whole edge when a scalar is not numeric - then the adjacency
    /// insertion.
    pub fn insert_edge_as_coo_and_adj(
        &mut self,
        from_id_str: String,
        to_id_str: String,
        columns: Vec<JsonValue>,
        field_names: &Vec<String>,
    ) -> (r: Result<(), GraphError>)
        requires
            old(self).wf(),
            old(self).load_all_edge_attributes ==> columns@.len() == 1 && columns@[0] is Obj
                && field_names@.len() == 0,
            !old(self).load_all_edge_attributes ==> columns@.len() == field_names@.len()
                && forall|a: int, b: int|
                0 <= a < b < field_names@.len() ==> field_names@[a]@ != field_names@[b]@,
        ensures
            final(self).wf(),
            if !edge_scalars_ok(columns@, field_names@) {
                (r matches Err(e) && e == GraphError::NonNumericEdgeValue) && *final(self) == *old(
                    self,
                )
            } else {
                exists|mid: NetworkXGraph|
                    #[trigger] coo_dispatch_post(
                        *old(self),
                        mid,
                        from_id_str@,
                        to_id_str@,
                        edge_scalars(columns@, field_names@),
                    ) && adj_dispatch_post(
                        mid,
                        *final(self),
                        from_id_str@,
                        to_id_str@,
                        edge_props_spec(
                            old(self).load_all_edge_attributes,
                            from_id_str@,
                            to_id_str@,
                            columns@,
                            field_names@,
                        ),
                        r,
                    )
            },
    {
        let res = self.insert_edge_as_coo(
            from_id_str.clone(),
            to_id_str.clone(),
            &columns,
            field_names,
        );
        match res {
            Err(e) => {
                return Err(e);
            },
            Ok(u) => {},
        }
        let ghost mid = *self;
        let r2 = self.insert_edge_as_adj(from_id_str, to_id_str, columns, field_names);
        proof {
            assert(coo_dispatch_post(
                *old(self),
                mid,
                from_id_str@,
                to_id_str@,
                edge_scalars(columns@, field_names@),
            ));
        }
        r2
    }
}


impl NetworkXGraph {
    /// The coordinate path alone.
    pub fn insert_edge_as_coo_only(
        &mut self,
        from_id_str: String,
        to_id_str: String,
        columns: Vec<JsonValue>,
        field_names: &Vec<String>,
    ) -> (r: Result<(), GraphError>)
        requires
            old(self).wf(),
            field_names@.len() <= columns@.len(),
            forall|a: int, b: int|
                0 <= a < b < field_names@.len() ==> field_names@[a]@ != field_names@[b]@,
        ensures
            final(self).wf(),
            if edge_scalars_ok(columns@, field_names@) {
                r is Ok && coo_dispatch_post(
                    *old(self),
                    *final(self),
                    from_id_str@,
                    to_id_str@,
                    edge_scalars(columns@, field_names@),
                )
            } else {
                (r matches Err(e) && e == GraphError::NonNumericEdgeValue) && *final(self) == *old(
                    self,
                )
            },
    {
        self.insert_edge_as_coo(from_id_str, to_id_str, &columns, field_names)
    }

    /// The adjacency path alone.
    pub fn insert_edge_as_adj_only(
        &mut self,
        from_id_str: String,
        to_id_str: String,
        columns: Vec<JsonValue>,
        field_names: &Vec<String>,
    ) -> (r: Result<(), GraphError>)
        requires
            old(self).wf(),
            old(self).load_all_edge_attributes ==> columns@.len() == 1 && columns@[0] is Obj
                && field_names@.len() == 0,
            !old(self).load_all_edge_attributes ==> columns@.len() == field_names@.len(),
        ensures
            final(self).wf(),
            adj_dispatch_post(
                *old(self),
                *final(self),
                from_id_str@,
                to_id_str@,
                edge_props_spec(
                    old(self).load_all_edge_attributes,
                    from_id_str@,
                    to_id_str@,
                    columns@,
                    field_names@,
                ),
                r,
            ),
    {
        self.insert_edge_as_adj(from_id_str, to_id_str, columns, field_names)
    }

    /// Insert one vertex document: its properties - whole document or
    /// selected fields - become the node record under its identifier.
    pub fn insert_vertex(&mut self, id: Vec<u8>, columns: Vec<JsonValue>, field_names: &Vec<
        String,
    >)
        requires
            old(self).wf(),
            vstd::utf8::valid_utf8(id@),
            old(self).load_all_vertex_attributes ==> columns@.len() == 1 && columns@[0] is Obj
                && field_names@.len() == 0,
            !old(self).load_all_vertex_attributes ==> columns@.len() == field_names@.len(),
        ensures
            final(self).wf(),
            *final(self) == (NetworkXGraph { node_map: final(self).node_map, ..*old(self) }),
            inner_view(final(self).node_map) == inner_view(old(self).node_map).insert(
                vstd::utf8::decode_utf8(id@),
                vertex_props_spec(
                    old(self).load_all_vertex_attributes,
                    vstd::utf8::decode_utf8(id@),
                    columns@,
                    field_names@,
                ),
            ),
    {
        let vertex_id = match crate::decode::utf8_to_string(&id) {
            Some(s) => s,
            None => {
                proof {
                    assert(false);
                }
                vstd::pervasive::unreached()
            },
        };
        let props = if self.load_all_vertex_attributes {
            self.get_vertex_properties_all(vertex_id.clone(), columns, field_names)
        } else {
            self.get_vertex_properties_selected(vertex_id.clone(), columns, field_names)
        };
        let ghost pre = self.node_map;
        self.node_map.set(vertex_id, props);
        proof {
            let v = self.node_map;
            assert forall|i: int| 0 <= i < v.vals@.len() implies (
                #[trigger] v.vals@[i]).wf() by {
                if crate::assoc::has_key(pre.pairs(), vstd::utf8::decode_utf8(id@)) {
                    if i != crate::assoc::first_key_index(
                        pre.pairs(),
                        vstd::utf8::decode_utf8(id@),
                    ) {
                        assert(v.vals@[i] == pre.vals@[i]);
                    }
                } else {
                    if i < pre.vals@.len() {
                        assert(v.vals@[i] == pre.vals@[i]);
                    }
                }
            }
            assert(inner_view(self.node_map) =~= inner_view(pre).insert(
                vstd::utf8::decode_utf8(id@),
                vertex_props_spec(
                    old(self).load_all_vertex_attributes,
                    vstd::utf8::decode_utf8(id@),
                    columns@,
                    field_names@,
                ),
            ));
        }
    }

    /// Insert one edge document, identifiers given in their byte form,
    /// along the paths the output flags request.
    pub fn insert_edge(
        &mut self,
        from_id: Vec<u8>,
        to_id: Vec<u8>,
        columns: Vec<JsonValue>,
        field_names: &Vec<String>,
    ) -> (r: Result<(), GraphError>)
        requires
            old(self).wf(),
            vstd::utf8::valid_utf8(from_id@),
            vstd::utf8::valid_utf8(to_id@),
            old(self).load_all_edge_attributes ==> columns@.len() == 1 && columns@[0] is Obj
                && field_names@.len() == 0,
            !old(self).load_all_edge_attributes ==> columns@.len() == field_names@.len()
                && forall|a: int, b: int|
                0 <= a < b < field_names@.len() ==> field_names@[a]@ != field_names@[b]@,
        ensures
            final(self).wf(),
            insert_edge_post(
                *old(self),
                *final(self),
                vstd::utf8::decode_utf8(from_id@),
                vstd::utf8::decode_utf8(to_id@),
                columns@,
                field_names@,
                r,
            ),
    {
        let from_id_str = match crate::decode::utf8_to_string(&from_id) {
            Some(s) => s,
            None => {
                proof {
                    assert(false);
                }
                vstd::pervasive::unreached()
            },
        };
        let to_id_str = match crate::decode::utf8_to_string(&to_id) {
            Some(s) => s,
            None => {
                proof {
                    assert(false);
                }
                vstd::pervasive::unreached()
            },
        };
        let load_coo = self.load_coo;
        let load_adj = self.load_adj_dict;
        if load_coo && load_adj {
            self.insert_edge_as_coo_and_adj(from_id_str, to_id_str, columns, field_names)
        } else if load_coo {
            self.insert_edge_as_coo_only(from_id_str, to_id_str, columns, field_names)
        } else {
            self.insert_edge_as_adj_only(from_id_str, to_id_str, columns, field_names)
        }
    }
}

} // verus!

//! The streaming graph builder's consumer side: batch bodies to documents,
//! documents into the graph.
//!
//! A dump batch is newline-delimited JSON, a cursor batch a JSON envelope
//! with a `result` array.  Parsing a body yields the library's own JSON
//! values; folding them into the graph is then verified document by
//! document.

use vstd::prelude::*;

use crate::graph::NumpyGraph;
use crate::info::LoadStrategy;
use crate::json::{JsonValue, SpecJson};

verus! {

broadcast use crate::json::lemma_obj_view;

/// The byte value of the newline that separates dump documents.
pub const NEWLINE: u8 = 10;

/// The byte value of a carriage return, stripped from line ends.
pub const CARRIAGE_RETURN: u8 = 13;

/// Why a batch was refused.
#[derive(Debug, PartialEq, Eq)]
pub enum ReceiveError {
    /// A line or body that does not parse as the expected JSON shape.
    BodyParse,
    /// A document without a string `_id`.
    MissingId,
    /// An identifier without the `collection/key` form.
    MalformedId,
    /// An endpoint reference without the `collection/key` form.
    MalformedEndpoint,
}

/// A line with a trailing carriage return loses it.
pub open spec fn strip_cr(s: Seq<u8>) -> Seq<u8> {
    if s.len() > 0 && s.last() == CARRIAGE_RETURN {
        s.drop_last()
    } else {
        s
    }
}

/// The lines of a batch body: split at newlines, carriage returns stripped,
/// no phantom line after a final newline.
pub open spec fn spec_lines(s: Seq<u8>) -> Seq<Seq<u8>>
    decreases s.len(),
{
    if s.len() == 0 {
        Seq::empty()
    } else {
        let k = crate::util::first_byte_index(s, NEWLINE);
        if 0 <= k < s.len() {
            seq![strip_cr(s.take(k))] + spec_lines(s.skip(k + 1))
        } else {
            seq![strip_cr(s)]
        }
    }
}

/// Split a batch body into its lines.
#[verifier::loop_isolation(false)]
pub fn split_lines(body: &Vec<u8>) -> (r: Vec<Vec<u8>>)
    ensures
        r.deep_view() == spec_lines(body@),
{
    let mut out: Vec<Vec<u8>> = Vec::new();
    let n = body.len();
    let mut pos: usize = 0;
    proof {
        assert(body@.skip(0) =~= body@);
        assert(out.deep_view() + spec_lines(body@) =~= spec_lines(body@));
    }
    while pos < n
        invariant
            pos <= n,
            out.deep_view() + spec_lines(body@.skip(pos as int)) == spec_lines(body@),
        decreases n - pos,
    {
        let mut k: usize = pos;
        while k < n && body[k] != NEWLINE
            invariant
                pos <= k <= n,
                forall|j: int| pos <= j < k ==> body@[j] != NEWLINE,
            decreases n - k,
        {
            k += 1;
        }
        let ghost rest = body@.skip(pos as int);
        proof {
            crate::util::lemma_first_byte_index(rest, NEWLINE);
            assert(crate::util::first_byte_index(rest, NEWLINE) == k - pos) by {
                let f = crate::util::first_byte_index(rest, NEWLINE);
                assert(forall|j: int| 0 <= j < k - pos ==> rest[j] == body@[j + pos]);
                if f < k - pos {
                    assert(rest[f] == NEWLINE);
                }
                if k < n {
                    assert(rest[k - pos] == NEWLINE);
                    if f > k - pos {
                        assert(rest[f] == NEWLINE);
                        assert(false);
                    }
                } else {
                    if f < rest.len() {
                        assert(rest[f] == NEWLINE);
                    }
                }
            }
        }
        let mut line = crate::util::bytes_range(body, pos, k);
        if line.len() > 0 && line[line.len() - 1] == CARRIAGE_RETURN {
            let popped = line.pop();
        }
        let ghost pre_out = out.deep_view();
        proof {
            if k < n {
                assert(line@ =~= strip_cr(rest.take(k - pos)));
                assert(spec_lines(rest) == seq![strip_cr(rest.take(k - pos))] + spec_lines(
                    rest.skip(k - pos + 1),
                ));
                assert(rest.skip(k - pos + 1) =~= body@.skip(k + 1));
                assert(pre_out.push(line@) + spec_lines(body@.skip(k + 1 as int)) =~= pre_out
                    + spec_lines(rest));
            } else {
                assert(rest.take(k - pos) =~= rest);
                assert(line@ =~= strip_cr(rest));
                assert(spec_lines(rest) == seq![strip_cr(rest)]);
            }
        }
        let ghost linev = line@;
        out.push(line);
        proof {
            assert(out.deep_view()[pre_out.len() as int] =~= linev);
            assert(out.deep_view() =~= pre_out.push(linev));
        }
        pos = if k < n {
            k + 1
        } else {
            n
        };
        proof {
            if k >= n {
                assert(body@.skip(pos as int) =~= rest.skip(rest.len() as int));
                assert(spec_lines(body@.skip(pos as int)) =~= Seq::<Seq<u8>>::empty());
                assert(pre_out.push(line@) + spec_lines(body@.skip(pos as int)) =~= pre_out
                    + spec_lines(rest));
            }
        }
    }
    proof {
        assert(body@.skip(pos as int).len() == 0);
        assert(spec_lines(body@.skip(pos as int)) =~= Seq::<Seq<u8>>::empty());
        assert(out.deep_view() =~= spec_lines(body@));
    }
    out
}


/// The value of a document's member, when the document is an object and
/// carries the name; the first binding wins.
pub open spec fn spec_obj_lookup(v: SpecJson, name: Seq<char>) -> Option<SpecJson> {
    match v {
        SpecJson::Obj(members) => if crate::assoc::has_key(members, name) {
            Some(crate::assoc::assoc_value(members, name))
        } else {
            None
        },
        _ => None,
    }
}

/// Look a member up in a document.
#[verifier::loop_isolation(false)]
pub fn obj_get<'a>(doc: &'a JsonValue, name: &String) -> (r: Option<&'a JsonValue>)
    ensures
        match r {
            Some(v) => spec_obj_lookup(doc.deep_view(), name@) == Some(v.deep_view()),
            None => spec_obj_lookup(doc.deep_view(), name@) is None,
        },
{
    match doc {
        JsonValue::Obj(members) => {
            let ghost mv = crate::json::obj_view(*members);
            let n = members.len();
            let mut i: usize = 0;
            while i < n
                invariant
                    n == members@.len(),
                    i <= n,
                    forall|j: int| 0 <= j < i ==> mv[j].0 != name@,
                decreases n - i,
            {
                if members[i].0 == *name {
                    proof {
                        assert(mv[i as int].0 == name@);
                        crate::assoc::lemma_first_key_index(mv, name@);
                        let f = crate::assoc::first_key_index(mv, name@);
                        assert(f == i);
                        assert(crate::assoc::has_key(mv, name@)) by {
                            assert(mv[i as int].0 == name@);
                        }
                    }
                    return Some(&members[i].1);
                }
                proof {
                    assert(mv[i as int].0 != name@);
                }
                i += 1;
            }
            proof {
                if crate::assoc::has_key(mv, name@) {
                    let w = choose|w: int| 0 <= w < mv.len() && mv[w].0 == name@;
                }
            }
            None
        },
        _ => None,
    }
}

/// The documents of a cursor envelope's reading: the envelope must be an
/// object whose `result` member holds an array.
pub open spec fn cursor_docs(m: SpecJson) -> Option<Seq<SpecJson>> {
    match spec_obj_lookup(m, "result"@) {
        Some(v) => match v {
            SpecJson::Arr(s) => Some(s),
            _ => None,
        },
        None => None,
    }
}

/// Whether a byte string parses as one JSON document within the nesting
/// budget.
pub open spec fn line_parses(b: Seq<u8>) -> bool {
    crate::decode::parse_of(b) matches Some(m) && crate::decode::spec_json_depth(m)
        <= crate::decode::MAX_JSON_DEPTH
}

/// Parse a raw batch body into documents: each line of a dump batch is one
/// document, each reading exactly as the parser reads its line; a cursor
/// batch is an envelope object whose `result` member holds the documents.
/// Success is owed whenever every line - or the envelope - parses within
/// the nesting budget.
#[verifier::loop_isolation(false)]
pub fn parse_batch(body: &Vec<u8>, strategy: LoadStrategy) -> (r: Result<
    Vec<JsonValue>,
    ReceiveError,
>)
    ensures
        r matches Err(e) ==> e == ReceiveError::BodyParse,
        strategy == LoadStrategy::Dump ==> match r {
            Ok(docs) => docs@.len() == spec_lines(body@).len() && forall|i: int|
                0 <= i < docs@.len() ==> crate::decode::parse_of(
                    #[trigger] spec_lines(body@)[i],
                ) is Some && docs@[i].deep_view() == crate::decode::parse_of(
                    spec_lines(body@)[i],
                )->Some_0,
            Err(e) => exists|i: int|
                0 <= i < spec_lines(body@).len() && !line_parses(#[trigger] spec_lines(body@)[i]),
        },
        strategy == LoadStrategy::Aql ==> match r {
            Ok(docs) => crate::decode::parse_of(body@) matches Some(m) && cursor_docs(m) matches
                Some(ds) && docs@.len() == ds.len() && (forall|i: int|
                0 <= i < docs@.len() ==> (#[trigger] docs@[i]).deep_view() == ds[i]),
            Err(e) => !(line_parses(body@) && cursor_docs(
                crate::decode::parse_of(body@)->Some_0,
            ) is Some),
        },
{
    match strategy {
        LoadStrategy::Dump => {
            let lines = split_lines(body);
            let mut docs: Vec<JsonValue> = Vec::new();
            let n = lines.len();
            proof {
                assert(lines@.len() == lines.deep_view().len());
            }
            let mut i: usize = 0;
            while i < n
                invariant
                    n == lines@.len(),
                    i <= n,
                    docs@.len() == i,
                    forall|j: int|
                        0 <= j < i ==> crate::decode::parse_of(
                            #[trigger] spec_lines(body@)[j],
                        ) is Some && docs@[j].deep_view() == crate::decode::parse_of(
                            spec_lines(body@)[j],
                        )->Some_0,
                decreases n - i,
            {
                proof {
                    assert(lines@[i as int]@ == lines.deep_view()[i as int]);
                    assert(lines.deep_view()[i as int] == spec_lines(body@)[i as int]);
                }
                match crate::decode::parse_document(lines[i].as_slice()) {
                    Some(d) => {
                        let ghost dv = d.deep_view();
                        proof {
                            assert(crate::decode::parse_of(spec_lines(body@)[i as int]) is Some);
                            assert(dv == crate::decode::parse_of(
                                spec_lines(body@)[i as int],
                            )->Some_0);
                        }
                        docs.push(d);
                        proof {
                            assert(docs@[i as int].deep_view() == dv);
                        }
                    },
                    None => {
                        proof {
                            assert(!line_parses(spec_lines(body@)[i as int]));
                        }
                        return Err(ReceiveError::BodyParse);
                    },
                }
                i += 1;
            }
            Ok(docs)
        },
        LoadStrategy::Aql => {
            let doc = match crate::decode::parse_document(body.as_slice()) {
                Some(d) => d,
                None => {
                    return Err(ReceiveError::BodyParse);
                },
            };
            let ghost model = crate::decode::parse_of(body@)->Some_0;
            let tag: String = "result".to_owned();
            match doc {
                JsonValue::Obj(members) => {
                    let ghost mv = crate::json::obj_view(members);
                    proof {
                        crate::json::lemma_obj_view(members);
                        assert(model == SpecJson::Obj(mv));
                    }
                    let mut members = members;
                    let n = members.len();
                    let mut i: usize = 0;
                    while i < n
                        invariant
                            i <= n,
                            n == members@.len(),
                            mv == crate::json::obj_view(members),
                            forall|j: int| 0 <= j < i ==> mv[j].0 != "result"@,
                        decreases n - i,
                    {
                        if members[i].0 == tag {
                            proof {
                                crate::json::lemma_obj_view(members);
                                assert(mv[i as int].0 == "result"@);
                                crate::assoc::lemma_first_key_index(mv, "result"@);
                                assert(crate::assoc::has_key(mv, "result"@)) by {
                                    assert(mv[i as int].0 == "result"@);
                                }
                                assert(crate::assoc::first_key_index(mv, "result"@) == i);
                                assert(spec_obj_lookup(model, "result"@) == Some(mv[i as int].1));
                            }
                            let entry = members.remove(i);
                            proof {
                                crate::json::lemma_obj_view(members);
                                assert(entry.1.deep_view() == mv[i as int].1);
                            }
                            match entry.1 {
                                JsonValue::Arr(elts) => {
                                    proof {
                                        crate::json::lemma_arr_view(elts);
                                        assert(cursor_docs(model) == Some(
                                            crate::json::arr_view(elts),
                                        ));
                                        assert(forall|q: int|
                                            0 <= q < elts@.len() ==> (
                                            #[trigger] elts@[q]).deep_view()
                                                == crate::json::arr_view(elts)[q]);
                                    }
                                    return Ok(elts);
                                },
                                _ => {
                                    proof {
                                        assert(cursor_docs(model) is None) by {
                                            assert(!(mv[i as int].1 is Arr)) by {
                                                match entry.1 {
                                                    JsonValue::Arr(a) => {},
                                                    _ => {
                                                        assert(!(entry.1.deep_view() is Arr));
                                                    },
                                                }
                                            }
                                        }
                                    }
                                    return Err(ReceiveError::BodyParse);
                                },
                            }
                        }
                        proof {
                            assert(mv[i as int].0 != "result"@);
                        }
                        i += 1;
                    }
                    proof {
                        assert(!crate::assoc::has_key(mv, "result"@)) by {
                            if crate::assoc::has_key(mv, "result"@) {
                                let w = choose|w: int|
                                    0 <= w < mv.len() && mv[w].0 == "result"@;
                            }
                        }
                        assert(cursor_docs(model) is None);
                    }
                    Err(ReceiveError::BodyParse)
                },
                _ => {
                    proof {
                        assert(cursor_docs(model) is None) by {
                            match doc {
                                JsonValue::Obj(m) => {},
                                _ => {
                                    assert(!(doc.deep_view() is Obj));
                                },
                            }
                        }
                    }
                    Err(ReceiveError::BodyParse)
                },
            }
        },
    }
}

/// The column values a vertex or edge document yields for the declared
/// fields: the collection tag carries the collection's name, every other
/// field its value in the document, or null when absent.
pub open spec fn spec_doc_columns(d: SpecJson, fields: Seq<Seq<char>>, col: Seq<char>) -> Seq<
    SpecJson,
> {
    Seq::new(
        fields.len(),
        |i: int|
            if fields[i] == crate::graph::col_tag() {
                SpecJson::Str(col)
            } else {
                match spec_obj_lookup(d, fields[i]) {
                    Some(v) => v,
                    None => SpecJson::Null,
                }
            },
    )
}

/// The readings of a column vector.
pub open spec fn cols_views(columns: Seq<JsonValue>) -> Seq<SpecJson> {
    Seq::new(columns.len(), |i: int| columns[i].deep_view())
}

/// Build the column vector of one document.
#[verifier::loop_isolation(false)]
pub fn build_columns(doc: &JsonValue, field_names: &Vec<String>, col_name: &String) -> (r: Vec<
    JsonValue,
>)
    ensures
        r@.len() == field_names@.len(),
        cols_views(r@) == spec_doc_columns(
            doc.deep_view(),
            field_names.deep_view(),
            col_name@,
        ),
{
    let tag: String = "@collection_name".to_owned();
    let mut out: Vec<JsonValue> = Vec::new();
    let n = field_names.len();
    let mut i: usize = 0;
    while i < n
        invariant
            i <= n,
            out@.len() == i,
            forall|j: int|
                0 <= j < i ==> (#[trigger] out@[j]).deep_view() == spec_doc_columns(
                    doc.deep_view(),
                    field_names.deep_view(),
                    col_name@,
                )[j],
        decreases n - i,
    {
        if field_names[i] == tag {
            out.push(JsonValue::Str(col_name.clone()));
        } else {
            match obj_get(doc, &field_names[i]) {
                Some(v) => {
                    out.push(v.clone());
                },
                None => {
                    out.push(JsonValue::Null);
                },
            }
        }
        proof {
            assert(field_names.deep_view()[i as int] == field_names@[i as int]@);
        }
        i += 1;
    }
    proof {
        assert(cols_views(out@) =~= spec_doc_columns(
            doc.deep_view(),
            field_names.deep_view(),
            col_name@,
        ));
    }
    out
}

/// The readings of a list of field names.
pub open spec fn names_views(fields: Seq<String>) -> Seq<Seq<char>> {
    Seq::new(fields.len(), |i: int| fields[i]@)
}

/// The string identifier of a document, when it carries one.
pub open spec fn spec_doc_id(d: SpecJson) -> Option<Seq<char>> {
    match spec_obj_lookup(d, "_id"@) {
        Some(v) => match v {
            SpecJson::Str(s) => Some(s),
            _ => None,
        },
        None => None,
    }
}

/// The byte form of a document's identifier.
pub open spec fn doc_id_bytes(d: SpecJson) -> Seq<u8> {
    vstd::utf8::encode_utf8(spec_doc_id(d)->Some_0)
}

/// The collection a document belongs to: the decoded prefix of its own
/// identifier before the first slash.
pub open spec fn doc_col_chars(d: SpecJson) -> Seq<char> {
    vstd::utf8::decode_utf8(crate::util::spec_id_collection(doc_id_bytes(d)))
}

/// A well-formed document identifier: a string of the `collection/key`
/// form whose collection prefix decodes as text.
pub open spec fn doc_id_ok(d: SpecJson) -> bool {
    &&& spec_doc_id(d) is Some
    &&& crate::util::has_slash(doc_id_bytes(d))
    &&& vstd::utf8::valid_utf8(crate::util::spec_id_collection(doc_id_bytes(d)))
}

/// A vertex document the builder accepts: a well-formed identifier, which
/// names the document's own collection.
pub open spec fn vertex_doc_ok(d: SpecJson) -> bool {
    doc_id_ok(d)
}

/// The deduplicated field list a document's own collection selects, if the
/// collection was requested at all.
pub open spec fn doc_fields(
    cols: Seq<crate::config::CollectionDescription>,
    d: SpecJson,
) -> Option<Seq<String>> {
    match crate::config::spec_fields_for(cols, doc_col_chars(d)) {
        Some(raw) => Some(crate::config::dedup_names(raw@)),
        None => None,
    }
}

/// One vertex document folded into the graph: under the collection its own
/// identifier names, exactly the change [`NumpyGraph::insert_vertex`]
/// makes for its column values; a document of a collection nobody
/// requested changes nothing.
pub open spec fn vertex_step(
    pre: NumpyGraph,
    post: NumpyGraph,
    doc: JsonValue,
    cols: Seq<crate::config::CollectionDescription>,
) -> bool {
    match doc_fields(cols, doc.deep_view()) {
        None => post == pre,
        Some(fields) => exists|columns: Seq<JsonValue>|
            {
                &&& #[trigger] cols_views(columns) == spec_doc_columns(
                    doc.deep_view(),
                    names_views(fields),
                    doc_col_chars(doc.deep_view()),
                )
                &&& crate::graph::spec_insert_vertex_post(
                    crate::graph::index_maps_view(pre.cols_to_keys_to_inds),
                    crate::graph::inverse_maps_view(pre.cols_to_keys_to_inds),
                    crate::graph::features_view(pre.cols_to_features),
                    crate::graph::index_maps_view(post.cols_to_keys_to_inds),
                    crate::graph::inverse_maps_view(post.cols_to_keys_to_inds),
                    crate::graph::features_view(post.cols_to_features),
                    doc_id_bytes(doc.deep_view()),
                    columns,
                    fields,
                )
                &&& post.coo_by_from_edge_to == pre.coo_by_from_edge_to
                &&& post.wf()
            },
    }
}

/// A run of the builder over a batch: each document steps the graph once.
pub open spec fn vertex_chain(
    gs: Seq<NumpyGraph>,
    pre: NumpyGraph,
    post: NumpyGraph,
    docs: Seq<JsonValue>,
    cols: Seq<crate::config::CollectionDescription>,
) -> bool {
    &&& gs.len() == docs.len() + 1
    &&& gs[0] == pre
    &&& gs[docs.len() as int] == post
    &&& forall|i: int| 0 <= i < docs.len() ==> vertex_step(gs[i], gs[i + 1], #[trigger] docs[i], cols)
}

/// One prepared vertex document: its identifier bytes, its column values
/// and the deduplicated field list of its collection; nothing for a
/// document of an unrequested collection.
type VertexWork = Option<(Vec<u8>, Vec<JsonValue>, Vec<String>)>;

/// Whether a prepared item matches what the document calls for.
pub open spec fn vertex_work_ok(
    w: VertexWork,
    doc: JsonValue,
    cols: Seq<crate::config::CollectionDescription>,
) -> bool {
    match doc_fields(cols, doc.deep_view()) {
        None => w is None,
        Some(fields) => w matches Some(t) && t.0@ == doc_id_bytes(doc.deep_view()) && t.2@
            == fields && cols_views(t.1@) == spec_doc_columns(
            doc.deep_view(),
            names_views(fields),
            doc_col_chars(doc.deep_view()),
        ),
    }
}

/// Prepare one document: validate its identifier, find its collection's
/// field list and build its columns.  No graph is touched here.
#[verifier::loop_isolation(false)]
fn prepare_vertex_doc(
    doc: &JsonValue,
    collections: &Vec<crate::config::CollectionDescription>,
) -> (r: Result<VertexWork, ReceiveError>)
    ensures
        match r {
            Ok(w) => doc_id_ok(doc.deep_view()) && vertex_work_ok(w, *doc, collections@),
            Err(e) => !doc_id_ok(doc.deep_view()) && (e == ReceiveError::MissingId || e
                == ReceiveError::MalformedId),
        },
{
    let idtag: String = "_id".to_owned();
    let id_string: String = match obj_get(doc, &idtag) {
        Some(v) => match v {
            JsonValue::Str(s) => s.clone(),
            _ => {
                return Err(ReceiveError::MissingId);
            },
        },
        None => {
            return Err(ReceiveError::MissingId);
        },
    };
    let idb: Vec<u8> = id_string.as_str().as_bytes_vec();
    proof {
        assert(idb@ == doc_id_bytes(doc.deep_view()));
    }
    let split = match crate::util::split_document_id(&idb) {
        Some(pair) => pair,
        None => {
            return Err(ReceiveError::MalformedId);
        },
    };
    let col_string = match crate::decode::utf8_to_string(&split.0) {
        Some(s) => s,
        None => {
            return Err(ReceiveError::MalformedId);
        },
    };
    proof {
        assert(col_string@ == doc_col_chars(doc.deep_view()));
    }
    match crate::config::fields_for(collections, &col_string) {
        None => Ok(None),
        Some(raw) => {
            let fields = crate::config::dedup_fields(raw);
            let columns = build_columns(doc, &fields, &col_string);
            proof {
                assert(fields.deep_view() =~= names_views(fields@));
            }
            Ok(Some((idb, columns, fields)))
        },
    }
}

/// Fold a batch of vertex documents into the graph, in order, each under
/// the collection its own identifier names.  The whole batch is validated
/// first: a document without a well-formed identifier rejects the batch
/// and the graph is left unchanged.  Each description's field list carries
/// the collection tag, the way [`crate::config::prepare_collection_fields`]
/// lays it out; repeated field names are deduplicated here.
#[verifier::loop_isolation(false)]
pub fn receive_vertices(
    graph: &mut NumpyGraph,
    docs: Vec<JsonValue>,
    collections: &Vec<crate::config::CollectionDescription>,
) -> (r: Result<(), ReceiveError>)
    requires
        old(graph).wf(),
        forall|c: int|
            0 <= c < collections@.len() ==> crate::graph::has_name(
                (#[trigger] collections@[c]).fields@,
                crate::graph::col_tag(),
            ),
    ensures
        final(graph).wf(),
        r is Ok <==> (forall|i: int|
            0 <= i < docs@.len() ==> vertex_doc_ok((#[trigger] docs@[i]).deep_view())),
        r is Ok ==> exists|gs: Seq<NumpyGraph>|
            #[trigger] vertex_chain(gs, *old(graph), *final(graph), docs@, collections@),
        r is Err ==> *final(graph) == *old(graph),
        r matches Err(e) ==> (e == ReceiveError::MissingId || e == ReceiveError::MalformedId)
            && exists|i: int|
            0 <= i < docs@.len() && !vertex_doc_ok((#[trigger] docs@[i]).deep_view()),
{
    let n = docs.len();
    // validate and prepare the whole batch before touching the graph
    let mut work: Vec<VertexWork> = Vec::new();
    let mut i: usize = 0;
    while i < n
        invariant
            i <= n,
            n == docs@.len(),
            work@.len() == i,
            forall|j: int| 0 <= j < i ==> vertex_doc_ok((#[trigger] docs@[j]).deep_view()),
            forall|j: int|
                0 <= j < i ==> vertex_work_ok(#[trigger] work@[j], docs@[j], collections@),
        decreases n - i,
    {
        match prepare_vertex_doc(&docs[i], collections) {
            Ok(w) => {
                work.push(w);
            },
            Err(e) => {
                proof {
                    assert(!vertex_doc_ok(docs@[i as int].deep_view()));
                }
                return Err(e);
            },
        }
        i += 1;
    }
    // fold, one document at a time
    let ghost mut gs: Seq<NumpyGraph> = seq![*old(graph)];
    let mut k: usize = 0;
    let mut work = work;
    while k < n
        invariant
            k <= n,
            n == docs@.len(),
            graph.wf(),
            gs.len() == k + 1,
            gs[0] == *old(graph),
            gs[k as int] == *graph,
            work@.len() == n - k,
            forall|j: int|
                0 <= j < n - k ==> vertex_work_ok(#[trigger] work@[j], docs@[k + j], collections@),
            forall|j: int| 0 <= j < n ==> vertex_doc_ok((#[trigger] docs@[j]).deep_view()),
            forall|c: int|
                0 <= c < collections@.len() ==> crate::graph::has_name(
                    (#[trigger] collections@[c]).fields@,
                    crate::graph::col_tag(),
                ),
            forall|j: int|
                0 <= j < k ==> vertex_step(gs[j], gs[j + 1], #[trigger] docs@[j], collections@),
        decreases n - k,
    {
        let ghost prew = work@;
        let item = work.remove(0);
        proof {
            assert(vertex_work_ok(item, docs@[k as int], collections@));
            assert forall|j: int| 0 <= j < n - k - 1 implies vertex_work_ok(
                #[trigger] work@[j],
                docs@[k + 1 + j],
                collections@,
            ) by {
                assert(work@[j] == prew[j + 1]);
            }
        }
        match item {
            None => {
                proof {
                    let prev = gs[k as int];
                    gs = gs.push(*graph);
                    assert(gs[k as int] == prev);
                    assert(vertex_step(prev, *graph, docs@[k as int], collections@));
                }
            },
            Some(t) => {
                let ghost d = docs@[k as int].deep_view();
                let ghost raw = crate::config::spec_fields_for(collections@, doc_col_chars(d))->Some_0;
                proof {
                    assert(doc_fields(collections@, d) is Some);
                    assert(t.0@ == doc_id_bytes(d));
                    assert(t.2@ == crate::config::dedup_names(raw@));
                    assert(cols_views(t.1@) == spec_doc_columns(
                        d,
                        names_views(t.2@),
                        doc_col_chars(d),
                    ));
                    assert(t.1@.len() == cols_views(t.1@).len());
                    assert(t.1@.len() == t.2@.len());
                }
                let (idb, columns, fields) = t;
                proof {
                    // the selected description's fields carry the tag, and
                    // deduplication keeps names and uniqueness
                    crate::config::lemma_first_col_index(collections@, doc_col_chars(d));
                    let ci = crate::config::first_col_index(collections@, doc_col_chars(d));
                    assert(crate::graph::has_name(collections@[ci].fields@, crate::graph::col_tag()));
                    assert(raw == collections@[ci].fields);
                    crate::config::lemma_dedup_names(raw@);
                    assert(crate::graph::has_name(fields@, crate::graph::col_tag()));
                    assert(forall|a: int, b: int|
                        0 <= a < b < fields@.len() ==> fields@[a]@ != fields@[b]@);
                    // the tag column is the collection's name, a string
                    crate::graph::lemma_first_name_index(fields@, crate::graph::col_tag());
                    let p = crate::graph::first_name_index(fields@, crate::graph::col_tag());
                    assert(names_views(fields@)[p] == crate::graph::col_tag());
                    assert(cols_views(columns@)[p] == SpecJson::Str(doc_col_chars(d)));
                    assert(columns@[p].deep_view() == SpecJson::Str(doc_col_chars(d)));
                    assert(columns@[p] is Str) by {
                        match columns@[p] {
                            JsonValue::Str(q) => {},
                            _ => {
                                assert(!(columns@[p].deep_view() is Str));
                            },
                        }
                    }
                    assert(columns@.len() == fields@.len());
                }
                let ghost colsg = columns@;
                graph.insert_vertex(idb, columns, &fields);
                proof {
                    let prev = gs[k as int];
                    gs = gs.push(*graph);
                    assert(gs[k as int] == prev);
                    assert(vertex_step(prev, *graph, docs@[k as int], collections@)) by {
                        assert(cols_views(colsg) == spec_doc_columns(
                            d,
                            names_views(crate::config::dedup_names(raw@)),
                            doc_col_chars(d),
                        ));
                    }
                }
            },
        }
        k += 1;
    }
    proof {
        assert(vertex_chain(gs, *old(graph), *graph, docs@, collections@));
    }
    Ok(())
}


/// The byte form of a document's `_from` endpoint.
pub open spec fn doc_from_bytes(d: SpecJson) -> Seq<u8> {
    vstd::utf8::encode_utf8(spec_obj_lookup(d, "_from"@)->Some_0->Str_0)
}

/// The byte form of a document's `_to` endpoint.
pub open spec fn doc_to_bytes(d: SpecJson) -> Seq<u8> {
    vstd::utf8::encode_utf8(spec_obj_lookup(d, "_to"@)->Some_0->Str_0)
}

/// An edge document the builder accepts: a well-formed identifier naming
/// its edge collection, and string `collection/key` endpoints.
pub open spec fn edge_doc_ok(d: SpecJson) -> bool {
    &&& doc_id_ok(d)
    &&& spec_obj_lookup(d, "_from"@) matches Some(v) && v is Str && crate::util::has_slash(
        vstd::utf8::encode_utf8(v->Str_0),
    )
    &&& spec_obj_lookup(d, "_to"@) matches Some(v) && v is Str && crate::util::has_slash(
        vstd::utf8::encode_utf8(v->Str_0),
    )
}

/// One edge document folded into the graph: under the edge collection its
/// own identifier names, exactly the change [`NumpyGraph::insert_edge`]
/// makes for its endpoints and column values; a document of an unrequested
/// edge collection changes nothing.
pub open spec fn edge_step(
    pre: NumpyGraph,
    post: NumpyGraph,
    doc: JsonValue,
    cols: Seq<crate::config::CollectionDescription>,
) -> bool {
    match doc_fields(cols, doc.deep_view()) {
        None => post == pre,
        Some(fields) => exists|columns: Seq<JsonValue>|
            {
                &&& #[trigger] cols_views(columns) == spec_doc_columns(
                    doc.deep_view(),
                    names_views(fields),
                    doc_col_chars(doc.deep_view()),
                )
                &&& crate::graph::spec_insert_edge_post(
                    pre,
                    post,
                    doc_from_bytes(doc.deep_view()),
                    doc_to_bytes(doc.deep_view()),
                    columns,
                    fields,
                )
                &&& post.cols_to_keys_to_inds == pre.cols_to_keys_to_inds
                &&& post.cols_to_features == pre.cols_to_features
                &&& post.wf()
            },
    }
}

/// A run of the builder over an edge batch.
pub open spec fn edge_chain(
    gs: Seq<NumpyGraph>,
    pre: NumpyGraph,
    post: NumpyGraph,
    docs: Seq<JsonValue>,
    cols: Seq<crate::config::CollectionDescription>,
) -> bool {
    &&& gs.len() == docs.len() + 1
    &&& gs[0] == pre
    &&& gs[docs.len() as int] == post
    &&& forall|i: int| 0 <= i < docs.len() ==> edge_step(gs[i], gs[i + 1], #[trigger] docs[i], cols)
}

/// One prepared edge document: its endpoint bytes, its column values and
/// the deduplicated field list of its edge collection; nothing for a
/// document of an unrequested edge collection.
type EdgeWork = Option<(Vec<u8>, Vec<u8>, Vec<JsonValue>, Vec<String>)>;

/// Whether a prepared edge item matches what the document calls for.
pub open spec fn edge_work_ok(
    w: EdgeWork,
    doc: JsonValue,
    cols: Seq<crate::config::CollectionDescription>,
) -> bool {
    match doc_fields(cols, doc.deep_view()) {
        None => w is None,
        Some(fields) => w matches Some(t) && t.0@ == doc_from_bytes(doc.deep_view()) && t.1@
            == doc_to_bytes(doc.deep_view()) && t.3@ == fields && cols_views(t.2@)
            == spec_doc_columns(
            doc.deep_view(),
            names_views(fields),
            doc_col_chars(doc.deep_view()),
        ),
    }
}

/// Prepare one edge document: validate its identifier and endpoints, find
/// its edge collection's field list and build its columns.  No graph is
/// touched here.
#[verifier::loop_isolation(false)]
fn prepare_edge_doc(
    doc: &JsonValue,
    collections: &Vec<crate::config::CollectionDescription>,
) -> (r: Result<EdgeWork, ReceiveError>)
    ensures
        match r {
            Ok(w) => edge_doc_ok(doc.deep_view()) && edge_work_ok(w, *doc, collections@),
            Err(e) => !edge_doc_ok(doc.deep_view()) && (e == ReceiveError::MissingId || e
                == ReceiveError::MalformedId || e == ReceiveError::MalformedEndpoint),
        },
{
    let fromtag: String = "_from".to_owned();
    let totag: String = "_to".to_owned();
    let from_string: String = match obj_get(doc, &fromtag) {
        Some(v) => match v {
            JsonValue::Str(s) => s.clone(),
            _ => {
                return Err(ReceiveError::MalformedEndpoint);
            },
        },
        None => {
            return Err(ReceiveError::MalformedEndpoint);
        },
    };
    let to_string: String = match obj_get(doc, &totag) {
        Some(v) => match v {
            JsonValue::Str(s) => s.clone(),
            _ => {
                return Err(ReceiveError::MalformedEndpoint);
            },
        },
        None => {
            return Err(ReceiveError::MalformedEndpoint);
        },
    };
    let fromb: Vec<u8> = from_string.as_str().as_bytes_vec();
    let tob: Vec<u8> = to_string.as_str().as_bytes_vec();
    proof {
        assert(fromb@ == doc_from_bytes(doc.deep_view()));
        assert(tob@ == doc_to_bytes(doc.deep_view()));
    }
    match crate::util::find_byte(&fromb, crate::util::SLASH) {
        Some(w) => {},
        None => {
            proof {
                if crate::util::has_slash(fromb@) {
                    let w = choose|w: int|
                        0 <= w < fromb@.len() && fromb@[w] == crate::util::SLASH;
                }
            }
            return Err(ReceiveError::MalformedEndpoint);
        },
    }
    match crate::util::find_byte(&tob, crate::util::SLASH) {
        Some(w) => {},
        None => {
            proof {
                if crate::util::has_slash(tob@) {
                    let w = choose|w: int|
                        0 <= w < tob@.len() && tob@[w] == crate::util::SLASH;
                }
            }
            return Err(ReceiveError::MalformedEndpoint);
        },
    }
    proof {
        assert(crate::util::has_slash(fromb@)) by {
            assert(crate::util::has_slash(doc_from_bytes(doc.deep_view())) == crate::util::has_slash(
                fromb@,
            ));
        }
    }
    let idtag: String = "_id".to_owned();
    let id_string: String = match obj_get(doc, &idtag) {
        Some(v) => match v {
            JsonValue::Str(s) => s.clone(),
            _ => {
                return Err(ReceiveError::MissingId);
            },
        },
        None => {
            return Err(ReceiveError::MissingId);
        },
    };
    let idb: Vec<u8> = id_string.as_str().as_bytes_vec();
    proof {
        assert(idb@ == doc_id_bytes(doc.deep_view()));
    }
    let split = match crate::util::split_document_id(&idb) {
        Some(pair) => pair,
        None => {
            return Err(ReceiveError::MalformedId);
        },
    };
    let col_string = match crate::decode::utf8_to_string(&split.0) {
        Some(s) => s,
        None => {
            return Err(ReceiveError::MalformedId);
        },
    };
    proof {
        assert(col_string@ == doc_col_chars(doc.deep_view()));
    }
    match crate::config::fields_for(collections, &col_string) {
        None => Ok(None),
        Some(raw) => {
            let fields = crate::config::dedup_fields(raw);
            let columns = build_columns(doc, &fields, &col_string);
            proof {
                assert(fields.deep_view() =~= names_views(fields@));
            }
            Ok(Some((fromb, tob, columns, fields)))
        },
    }
}

/// Fold a batch of edge documents into the graph, in order, each under the
/// edge collection its own identifier names.  The whole batch is validated
/// first: a document with a malformed identifier or endpoint rejects the
/// batch and the graph is left unchanged.  Each description's field list
/// carries the collection tag, the way
/// [`crate::config::prepare_collection_fields`] lays it out; repeated field
/// names are deduplicated here.
#[verifier::loop_isolation(false)]
pub fn receive_edges(
    graph: &mut NumpyGraph,
    docs: Vec<JsonValue>,
    collections: &Vec<crate::config::CollectionDescription>,
) -> (r: Result<(), ReceiveError>)
    requires
        old(graph).wf(),
        forall|c: int|
            0 <= c < collections@.len() ==> crate::graph::has_name(
                (#[trigger] collections@[c]).fields@,
                crate::graph::col_tag(),
            ),
    ensures
        final(graph).wf(),
        r is Ok <==> (forall|i: int|
            0 <= i < docs@.len() ==> edge_doc_ok((#[trigger] docs@[i]).deep_view())),
        r is Ok ==> exists|gs: Seq<NumpyGraph>|
            #[trigger] edge_chain(gs, *old(graph), *final(graph), docs@, collections@),
        r is Err ==> *final(graph) == *old(graph),
        r matches Err(e) ==> (e == ReceiveError::MissingId || e == ReceiveError::MalformedId || e
            == ReceiveError::MalformedEndpoint) && exists|i: int|
            0 <= i < docs@.len() && !edge_doc_ok((#[trigger] docs@[i]).deep_view()),
{
    let n = docs.len();
    // validate and prepare the whole batch before touching the graph
    let mut work: Vec<EdgeWork> = Vec::new();
    let mut i: usize = 0;
    while i < n
        invariant
            i <= n,
            n == docs@.len(),
            work@.len() == i,
            forall|j: int| 0 <= j < i ==> edge_doc_ok((#[trigger] docs@[j]).deep_view()),
            forall|j: int|
                0 <= j < i ==> edge_work_ok(#[trigger] work@[j], docs@[j], collections@),
        decreases n - i,
    {
        match prepare_edge_doc(&docs[i], collections) {
            Ok(w) => {
                work.push(w);
            },
            Err(e) => {
                proof {
                    assert(!edge_doc_ok(docs@[i as int].deep_view()));
                }
                return Err(e);
            },
        }
        i += 1;
    }
    // fold, one document at a time
    let ghost mut gs: Seq<NumpyGraph> = seq![*old(graph)];
    let mut k: usize = 0;
    let mut work = work;
    while k < n
        invariant
            k <= n,
            n == docs@.len(),
            graph.wf(),
            gs.len() == k + 1,
            gs[0] == *old(graph),
            gs[k as int] == *graph,
            work@.len() == n - k,
            forall|j: int|
                0 <= j < n - k ==> edge_work_ok(#[trigger] work@[j], docs@[k + j], collections@),
            forall|j: int| 0 <= j < n ==> edge_doc_ok((#[trigger] docs@[j]).deep_view()),
            forall|c: int|
                0 <= c < collections@.len() ==> crate::graph::has_name(
                    (#[trigger] collections@[c]).fields@,
                    crate::graph::col_tag(),
                ),
            forall|j: int|
                0 <= j < k ==> edge_step(gs[j], gs[j + 1], #[trigger] docs@[j], collections@),
        decreases n - k,
    {
        let ghost prew = work@;
        let item = work.remove(0);
        proof {
            assert(edge_work_ok(item, docs@[k as int], collections@));
            assert forall|j: int| 0 <= j < n - k - 1 implies edge_work_ok(
                #[trigger] work@[j],
                docs@[k + 1 + j],
                collections@,
            ) by {
                assert(work@[j] == prew[j + 1]);
            }
        }
        match item {
            None => {
                proof {
                    let prev = gs[k as int];
                    gs = gs.push(*graph);
                    assert(gs[k as int] == prev);
                    assert(edge_step(prev, *graph, docs@[k as int], collections@));
                }
            },
            Some(t) => {
                let ghost d = docs@[k as int].deep_view();
                let ghost raw = crate::config::spec_fields_for(
                    collections@,
                    doc_col_chars(d),
                )->Some_0;
                proof {
                    assert(doc_fields(collections@, d) is Some);
                    assert(t.0@ == doc_from_bytes(d));
                    assert(t.1@ == doc_to_bytes(d));
                    assert(t.3@ == crate::config::dedup_names(raw@));
                    assert(cols_views(t.2@) == spec_doc_columns(
                        d,
                        names_views(t.3@),
                        doc_col_chars(d),
                    ));
                    assert(t.2@.len() == cols_views(t.2@).len());
                    assert(t.2@.len() == t.3@.len());
                }
                let (fromb, tob, columns, fields) = t;
                proof {
                    crate::config::lemma_first_col_index(collections@, doc_col_chars(d));
                    let ci = crate::config::first_col_index(collections@, doc_col_chars(d));
                    assert(crate::graph::has_name(
                        collections@[ci].fields@,
                        crate::graph::col_tag(),
                    ));
                    assert(raw == collections@[ci].fields);
                    crate::config::lemma_dedup_names(raw@);
                    assert(crate::graph::has_name(fields@, crate::graph::col_tag()));
                    assert(forall|a: int, b: int|
                        0 <= a < b < fields@.len() ==> fields@[a]@ != fields@[b]@);
                    crate::graph::lemma_first_name_index(fields@, crate::graph::col_tag());
                    let p = crate::graph::first_name_index(fields@, crate::graph::col_tag());
                    assert(names_views(fields@)[p] == crate::graph::col_tag());
                    assert(cols_views(columns@)[p] == SpecJson::Str(doc_col_chars(d)));
                    assert(columns@[p].deep_view() == SpecJson::Str(doc_col_chars(d)));
                    assert(columns@[p] is Str) by {
                        match columns@[p] {
                            JsonValue::Str(q) => {},
                            _ => {
                                assert(!(columns@[p].deep_view() is Str));
                            },
                        }
                    }
                    assert(columns@.len() == fields@.len());
                    assert(crate::util::has_slash(fromb@));
                    assert(crate::util::has_slash(tob@));
                }
                let ghost colsg = columns@;
                let res = graph.insert_edge(fromb, tob, columns, &fields);
                proof {
                    let prev = gs[k as int];
                    gs = gs.push(*graph);
                    assert(gs[k as int] == prev);
                    assert(edge_step(prev, *graph, docs@[k as int], collections@)) by {
                        assert(cols_views(colsg) == spec_doc_columns(
                            d,
                            names_views(crate::config::dedup_names(raw@)),
                            doc_col_chars(d),
                        ));
                    }
                }
            },
        }
        k += 1;
    }
    proof {
        assert(edge_chain(gs, *old(graph), *graph, docs@, collections@));
    }
    Ok(())
}


/// Column values with equal readings drive the feature appends equally.
proof fn lemma_apply_prefix_by_views(
    t: Map<Seq<char>, Seq<Seq<Seq<char>>>>,
    c1: Seq<JsonValue>,
    c2: Seq<JsonValue>,
    fields: Seq<String>,
    n: int,
)
    requires
        cols_views(c1) == cols_views(c2),
        c1.len() == fields.len(),
        c2.len() == fields.len(),
        n <= fields.len(),
    ensures
        crate::graph::apply_fields_prefix(t, c1, fields, n) == crate::graph::apply_fields_prefix(
            t,
            c2,
            fields,
            n,
        ),
        forall|q: int|
            0 <= q < fields.len() ==> #[trigger] crate::graph::is_feature_field(c1, fields, q)
                == crate::graph::is_feature_field(c2, fields, q),
    decreases n,
{
    assert forall|q: int| 0 <= q < fields.len() implies #[trigger] crate::graph::is_feature_field(
        c1,
        fields,
        q,
    ) == crate::graph::is_feature_field(c2, fields, q) by {
        assert(cols_views(c1)[q] == c1[q].deep_view());
        assert(cols_views(c2)[q] == c2[q].deep_view());
    }
    if n > 0 {
        lemma_apply_prefix_by_views(t, c1, c2, fields, n - 1);
        if 0 <= n - 1 < fields.len() {
            assert(cols_views(c1)[n - 1] == c1[n - 1].deep_view());
            assert(cols_views(c2)[n - 1] == c2[n - 1].deep_view());
            assert(c1[n - 1].deep_view() == c2[n - 1].deep_view());
        }
    }
}

/// One step of the builder is a function of the graph's views and the
/// document alone: two runs that agree before a document agree after it.
proof fn lemma_vertex_step_stability(
    pre1: NumpyGraph,
    post1: NumpyGraph,
    pre2: NumpyGraph,
    post2: NumpyGraph,
    doc: JsonValue,
    cols: Seq<crate::config::CollectionDescription>,
)
    requires
        vertex_step(pre1, post1, doc, cols),
        vertex_step(pre2, post2, doc, cols),
        forall|c: int|
            0 <= c < cols.len() ==> crate::graph::has_name(
                (#[trigger] cols[c]).fields@,
                crate::graph::col_tag(),
            ),
        crate::graph::index_maps_view(pre1.cols_to_keys_to_inds) == crate::graph::index_maps_view(
            pre2.cols_to_keys_to_inds,
        ),
        crate::graph::inverse_maps_view(pre1.cols_to_keys_to_inds)
            == crate::graph::inverse_maps_view(pre2.cols_to_keys_to_inds),
        crate::graph::features_view(pre1.cols_to_features) == crate::graph::features_view(
            pre2.cols_to_features,
        ),
    ensures
        crate::graph::index_maps_view(post1.cols_to_keys_to_inds) == crate::graph::index_maps_view(
            post2.cols_to_keys_to_inds,
        ),
        crate::graph::inverse_maps_view(post1.cols_to_keys_to_inds)
            == crate::graph::inverse_maps_view(post2.cols_to_keys_to_inds),
        crate::graph::features_view(post1.cols_to_features) == crate::graph::features_view(
            post2.cols_to_features,
        ),
{
    let d = doc.deep_view();
    match doc_fields(cols, d) {
        None => {
        },
        Some(fields) => {
            let col = doc_col_chars(d);
            assert(vertex_step(pre1, post1, doc, cols));
            assert(vertex_step(pre2, post2, doc, cols));
            let c1 = choose|columns: Seq<JsonValue>|
                {
                    &&& #[trigger] cols_views(columns) == spec_doc_columns(
                        doc.deep_view(),
                        names_views(fields),
                        doc_col_chars(doc.deep_view()),
                    )
                    &&& crate::graph::spec_insert_vertex_post(
                        crate::graph::index_maps_view(pre1.cols_to_keys_to_inds),
                        crate::graph::inverse_maps_view(pre1.cols_to_keys_to_inds),
                        crate::graph::features_view(pre1.cols_to_features),
                        crate::graph::index_maps_view(post1.cols_to_keys_to_inds),
                        crate::graph::inverse_maps_view(post1.cols_to_keys_to_inds),
                        crate::graph::features_view(post1.cols_to_features),
                        doc_id_bytes(doc.deep_view()),
                        columns,
                        fields,
                    )
                    &&& post1.coo_by_from_edge_to == pre1.coo_by_from_edge_to
                    &&& post1.wf()
                };
            let c2 = choose|columns: Seq<JsonValue>|
                {
                    &&& #[trigger] cols_views(columns) == spec_doc_columns(
                        doc.deep_view(),
                        names_views(fields),
                        doc_col_chars(doc.deep_view()),
                    )
                    &&& crate::graph::spec_insert_vertex_post(
                        crate::graph::index_maps_view(pre2.cols_to_keys_to_inds),
                        crate::graph::inverse_maps_view(pre2.cols_to_keys_to_inds),
                        crate::graph::features_view(pre2.cols_to_features),
                        crate::graph::index_maps_view(post2.cols_to_keys_to_inds),
                        crate::graph::inverse_maps_view(post2.cols_to_keys_to_inds),
                        crate::graph::features_view(post2.cols_to_features),
                        doc_id_bytes(doc.deep_view()),
                        columns,
                        fields,
                    )
                    &&& post2.coo_by_from_edge_to == pre2.coo_by_from_edge_to
                    &&& post2.wf()
                };
            let want = spec_doc_columns(d, names_views(fields), col);
            assert(cols_views(c1) == want);
            assert(cols_views(c2) == want);
            assert(c1.len() == names_views(fields).len());
            assert(c2.len() == names_views(fields).len());
            // the selected description carries the tag, preserved by
            // deduplication, so the tag column is a string in both runs
            crate::config::lemma_first_col_index(cols, col);
            let ci = crate::config::first_col_index(cols, col);
            let raw = crate::config::spec_fields_for(cols, col)->Some_0;
            assert(crate::graph::has_name(cols[ci].fields@, crate::graph::col_tag()));
            assert(raw == cols[ci].fields);
            crate::config::lemma_dedup_names(raw@);
            assert(crate::graph::has_name(fields, crate::graph::col_tag()));
            crate::graph::lemma_first_name_index(fields, crate::graph::col_tag());
            let p = crate::graph::first_name_index(fields, crate::graph::col_tag());
            assert(names_views(fields)[p] == crate::graph::col_tag());
            assert(want[p] == SpecJson::Str(col));
            assert(c1[p].deep_view() == SpecJson::Str(col));
            assert(c2[p].deep_view() == SpecJson::Str(col));
            assert(crate::graph::vertex_collection_bytes(c1, fields)
                == crate::graph::vertex_collection_bytes(c2, fields)) by {
                match c1[p] {
                    JsonValue::Str(q) => {},
                    _ => {
                        assert(!(c1[p].deep_view() is Str));
                    },
                }
                match c2[p] {
                    JsonValue::Str(q) => {},
                    _ => {
                        assert(!(c2[p].deep_view() is Str));
                    },
                }
            }
            let oldfv = crate::graph::features_view(pre1.cols_to_features);
            let colb = crate::graph::vertex_collection_bytes(c1, fields);
            let oldtab = if oldfv.dom().contains(colb) {
                oldfv[colb]
            } else {
                Map::<Seq<char>, Seq<Seq<Seq<char>>>>::empty()
            };
            lemma_apply_prefix_by_views(oldtab, c1, c2, fields, fields.len() as int);
            assert(crate::graph::has_feature(c1, fields) == crate::graph::has_feature(
                c2,
                fields,
            )) by {
                if crate::graph::has_feature(c1, fields) {
                    let q = choose|q: int| crate::graph::is_feature_field(c1, fields, q);
                    assert(crate::graph::is_feature_field(c2, fields, q));
                }
                if crate::graph::has_feature(c2, fields) {
                    let q = choose|q: int| crate::graph::is_feature_field(c2, fields, q);
                    assert(crate::graph::is_feature_field(c1, fields, q));
                }
            }
        },
    }
}

/// Law: for a fixed document stream the builder is deterministic - two
/// runs whose graphs read equally before a batch read equally after it,
/// so repeated single-threaded loads assign identical dense indices to
/// identical keys.
pub proof fn lemma_vertex_chain_stability(
    gs1: Seq<NumpyGraph>,
    pre1: NumpyGraph,
    post1: NumpyGraph,
    gs2: Seq<NumpyGraph>,
    pre2: NumpyGraph,
    post2: NumpyGraph,
    docs: Seq<JsonValue>,
    cols: Seq<crate::config::CollectionDescription>,
)
    requires
        vertex_chain(gs1, pre1, post1, docs, cols),
        vertex_chain(gs2, pre2, post2, docs, cols),
        forall|c: int|
            0 <= c < cols.len() ==> crate::graph::has_name(
                (#[trigger] cols[c]).fields@,
                crate::graph::col_tag(),
            ),
        crate::graph::index_maps_view(pre1.cols_to_keys_to_inds) == crate::graph::index_maps_view(
            pre2.cols_to_keys_to_inds,
        ),
        crate::graph::inverse_maps_view(pre1.cols_to_keys_to_inds)
            == crate::graph::inverse_maps_view(pre2.cols_to_keys_to_inds),
        crate::graph::features_view(pre1.cols_to_features) == crate::graph::features_view(
            pre2.cols_to_features,
        ),
    ensures
        crate::graph::index_maps_view(post1.cols_to_keys_to_inds) == crate::graph::index_maps_view(
            post2.cols_to_keys_to_inds,
        ),
        crate::graph::inverse_maps_view(post1.cols_to_keys_to_inds)
            == crate::graph::inverse_maps_view(post2.cols_to_keys_to_inds),
        crate::graph::features_view(post1.cols_to_features) == crate::graph::features_view(
            post2.cols_to_features,
        ),
    decreases docs.len(),
{
    if docs.len() == 0 {
        assert(post1 == gs1[0]);
        assert(post2 == gs2[0]);
    } else {
        assert(vertex_step(gs1[0], gs1[1], docs[0], cols));
        assert(vertex_step(gs2[0], gs2[1], docs[0], cols));
        lemma_vertex_step_stability(gs1[0], gs1[1], gs2[0], gs2[1], docs[0], cols);
        let t1 = gs1.skip(1);
        let t2 = gs2.skip(1);
        let d = docs.skip(1);
        assert(vertex_chain(t1, gs1[1], post1, d, cols)) by {
            assert(t1[0] == gs1[1]);
            assert(t1[d.len() as int] == gs1[docs.len() as int]);
            assert forall|i: int| 0 <= i < d.len() implies vertex_step(
                t1[i],
                t1[i + 1],
                #[trigger] d[i],
                cols,
            ) by {
                assert(d[i] == docs[i + 1]);
                assert(t1[i] == gs1[i + 1] && t1[i + 1] == gs1[i + 2]);
            }
        }
        assert(vertex_chain(t2, gs2[1], post2, d, cols)) by {
            assert(t2[0] == gs2[1]);
            assert(t2[d.len() as int] == gs2[docs.len() as int]);
            assert forall|i: int| 0 <= i < d.len() implies vertex_step(
                t2[i],
                t2[i + 1],
                #[trigger] d[i],
                cols,
            ) by {
                assert(d[i] == docs[i + 1]);
                assert(t2[i] == gs2[i + 1] && t2[i + 1] == gs2[i + 2]);
            }
        }
        lemma_vertex_chain_stability(t1, gs1[1], post1, t2, gs2[1], post2, d, cols);
    }
}


/// A vertex document the node-and-adjacency builder accepts: a well-formed
/// identifier and, in whole-document mode, an object body when its
/// collection was requested at all.
pub open spec fn nx_vertex_doc_ok(
    d: SpecJson,
    cols: Seq<crate::config::CollectionDescription>,
    load_all: bool,
) -> bool {
    &&& doc_id_ok(d)
    &&& (load_all && crate::config::spec_fields_for(cols, doc_col_chars(d)) is Some ==> d is Obj)
}

/// Whether a prepared node-and-adjacency vertex item matches what the
/// document calls for.
pub open spec fn nx_vertex_work_ok(
    w: Option<(Vec<u8>, Vec<JsonValue>, Vec<String>)>,
    doc: JsonValue,
    cols: Seq<crate::config::CollectionDescription>,
    load_all: bool,
) -> bool {
    let d = doc.deep_view();
    match crate::config::spec_fields_for(cols, doc_col_chars(d)) {
        None => w is None,
        Some(raw) => w matches Some(t) && t.0@ == doc_id_bytes(d) && vstd::utf8::valid_utf8(t.0@)
            && if load_all {
            t.1@.len() == 1 && t.1@[0].deep_view() == d && t.2@.len() == 0
        } else {
            t.2@ == crate::config::dedup_names(raw@) && cols_views(t.1@) == spec_doc_columns(
                d,
                names_views(crate::config::dedup_names(raw@)),
                doc_col_chars(d),
            )
        },
    }
}

/// Prepare one vertex document for the node-and-adjacency builder:
/// validate its identifier, find its collection and build its column
/// vector - the whole document in whole-document mode, the selected fields
/// otherwise.
pub fn prepare_nx_vertex(
    doc: &JsonValue,
    collections: &Vec<crate::config::CollectionDescription>,
    load_all: bool,
) -> (r: Result<Option<(Vec<u8>, Vec<JsonValue>, Vec<String>)>, ReceiveError>)
    ensures
        match r {
            Ok(w) => nx_vertex_doc_ok(doc.deep_view(), collections@, load_all) && nx_vertex_work_ok(
                w,
                *doc,
                collections@,
                load_all,
            ),
            Err(e) => !nx_vertex_doc_ok(doc.deep_view(), collections@, load_all),
        },
{
    let prepared = match prepare_vertex_doc(doc, collections) {
        Ok(w) => w,
        Err(e) => {
            return Err(e);
        },
    };
    proof {
        vstd::utf8::encode_utf8_valid_utf8(spec_doc_id(doc.deep_view())->Some_0);
    }
    match prepared {
        None => Ok(None),
        Some(t) => {
            if load_all {
                match doc {
                    JsonValue::Obj(members) => {
                        let body = doc.clone();
                        let none_fields: Vec<String> = Vec::new();
                        Ok(Some((t.0, vec![body], none_fields)))
                    },
                    _ => {
                        proof {
                            assert(!(doc.deep_view() is Obj)) by {
                                match doc {
                                    JsonValue::Obj(q) => {},
                                    _ => {},
                                }
                            }
                        }
                        Err(ReceiveError::BodyParse)
                    },
                }
            } else {
                Ok(Some(t))
            }
        },
    }
}

/// An edge document the node-and-adjacency builder accepts.
pub open spec fn nx_edge_doc_ok(
    d: SpecJson,
    cols: Seq<crate::config::CollectionDescription>,
    load_all: bool,
) -> bool {
    &&& edge_doc_ok(d)
    &&& (load_all && crate::config::spec_fields_for(cols, doc_col_chars(d)) is Some ==> d is Obj)
}

/// Whether a prepared node-and-adjacency edge item matches what the
/// document calls for.
pub open spec fn nx_edge_work_ok(
    w: Option<(Vec<u8>, Vec<u8>, Vec<JsonValue>, Vec<String>)>,
    doc: JsonValue,
    cols: Seq<crate::config::CollectionDescription>,
    load_all: bool,
) -> bool {
    let d = doc.deep_view();
    match crate::config::spec_fields_for(cols, doc_col_chars(d)) {
        None => w is None,
        Some(raw) => w matches Some(t) && t.0@ == doc_from_bytes(d) && t.1@ == doc_to_bytes(d)
            && vstd::utf8::valid_utf8(t.0@) && vstd::utf8::valid_utf8(t.1@)
            && crate::util::has_slash(t.0@) && crate::util::has_slash(t.1@) && if load_all {
            t.2@.len() == 1 && t.2@[0].deep_view() == d && t.3@.len() == 0
        } else {
            t.3@ == crate::config::dedup_names(raw@) && cols_views(t.2@) == spec_doc_columns(
                d,
                names_views(crate::config::dedup_names(raw@)),
                doc_col_chars(d),
            )
        },
    }
}

/// Prepare one edge document for the node-and-adjacency builder: validate
/// its identifier and endpoints, find its edge collection and build its
/// column vector.
pub fn prepare_nx_edge(
    doc: &JsonValue,
    collections: &Vec<crate::config::CollectionDescription>,
    load_all: bool,
) -> (r: Result<Option<(Vec<u8>, Vec<u8>, Vec<JsonValue>, Vec<String>)>, ReceiveError>)
    ensures
        match r {
            Ok(w) => nx_edge_doc_ok(doc.deep_view(), collections@, load_all) && nx_edge_work_ok(
                w,
                *doc,
                collections@,
                load_all,
            ),
            Err(e) => !nx_edge_doc_ok(doc.deep_view(), collections@, load_all),
        },
{
    let prepared = match prepare_edge_doc(doc, collections) {
        Ok(w) => w,
        Err(e) => {
            return Err(e);
        },
    };
    proof {
        vstd::utf8::encode_utf8_valid_utf8(
            spec_obj_lookup(doc.deep_view(), "_from"@)->Some_0->Str_0,
        );
        vstd::utf8::encode_utf8_valid_utf8(
            spec_obj_lookup(doc.deep_view(), "_to"@)->Some_0->Str_0,
        );
    }
    match prepared {
        None => Ok(None),
        Some(t) => {
            if load_all {
                match doc {
                    JsonValue::Obj(members) => {
                        let body = doc.clone();
                        let none_fields: Vec<String> = Vec::new();
                        Ok(Some((t.0, t.1, vec![body], none_fields)))
                    },
                    _ => {
                        proof {
                            assert(!(doc.deep_view() is Obj)) by {
                                match doc {
                                    JsonValue::Obj(q) => {},
                                    _ => {},
                                }
                            }
                        }
                        Err(ReceiveError::BodyParse)
                    },
                }
            } else {
                Ok(Some(t))
            }
        },
    }
}


/// The dense key a vertex document brings: the identifier's key part.
pub open spec fn doc_key(d: SpecJson) -> Seq<u8> {
    crate::graph::vertex_key_part(doc_id_bytes(d))
}

/// The key list of one collection, in index order; empty for a collection
/// never seen.
pub open spec fn col_keys(g: NumpyGraph, colb: Seq<u8>) -> Seq<Seq<u8>> {
    let inv = crate::graph::inverse_maps_view(g.cols_to_keys_to_inds);
    if inv.dom().contains(colb) {
        inv[colb]
    } else {
        Seq::empty()
    }
}

/// Whether a document carries a feature: some declared field besides the
/// identifier reads as numeric, so the builder indexes the document.
pub open spec fn doc_contributes(d: SpecJson, fields: Seq<String>) -> bool {
    exists|q: int|
        0 <= q < fields.len() && (#[trigger] fields[q])@ != crate::graph::id_tag()
            && crate::json::spec_numeric_vector(
            spec_doc_columns(d, names_views(fields), doc_col_chars(d))[q],
        ) is Some
}

/// The keys a document sequence brings, in order.
pub open spec fn chain_doc_keys(docs: Seq<JsonValue>) -> Seq<Seq<u8>> {
    Seq::new(docs.len(), |i: int| doc_key(docs[i].deep_view()))
}

/// One contributing document with a fresh key extends its collection's key
/// list by exactly that key.
#[verifier::rlimit(100)]
proof fn lemma_vertex_step_count(
    pre: NumpyGraph,
    post: NumpyGraph,
    doc: JsonValue,
    cols: Seq<crate::config::CollectionDescription>,
    colb: Seq<u8>,
)
    requires
        vertex_step(pre, post, doc, cols),
        pre.wf(),
        forall|c: int|
            0 <= c < cols.len() ==> crate::graph::has_name(
                (#[trigger] cols[c]).fields@,
                crate::graph::col_tag(),
            ),
        doc_fields(cols, doc.deep_view()) is Some,
        vstd::utf8::encode_utf8(doc_col_chars(doc.deep_view())) == colb,
        doc_contributes(doc.deep_view(), doc_fields(cols, doc.deep_view())->Some_0),
        !col_keys(pre, colb).contains(doc_key(doc.deep_view())),
    ensures
        col_keys(post, colb) == col_keys(pre, colb).push(doc_key(doc.deep_view())),
        forall|c2: Seq<u8>| c2 != colb ==> #[trigger] col_keys(post, c2) == col_keys(pre, c2),
{
    let d = doc.deep_view();
    let fields = doc_fields(cols, d)->Some_0;
    let col = doc_col_chars(d);
    assert(vertex_step(pre, post, doc, cols));
    let columns = choose|columns: Seq<JsonValue>|
        {
            &&& #[trigger] cols_views(columns) == spec_doc_columns(
                doc.deep_view(),
                names_views(fields),
                doc_col_chars(doc.deep_view()),
            )
            &&& crate::graph::spec_insert_vertex_post(
                crate::graph::index_maps_view(pre.cols_to_keys_to_inds),
                crate::graph::inverse_maps_view(pre.cols_to_keys_to_inds),
                crate::graph::features_view(pre.cols_to_features),
                crate::graph::index_maps_view(post.cols_to_keys_to_inds),
                crate::graph::inverse_maps_view(post.cols_to_keys_to_inds),
                crate::graph::features_view(post.cols_to_features),
                doc_id_bytes(doc.deep_view()),
                columns,
                fields,
            )
            &&& post.coo_by_from_edge_to == pre.coo_by_from_edge_to
            &&& post.wf()
        };
    let want = spec_doc_columns(d, names_views(fields), col);
    assert(cols_views(columns) == want);
    assert(columns.len() == fields.len());

    // the tag column is the collection's name, so the insertion files the
    // document under `colb`
    let raw = crate::config::spec_fields_for(cols, col)->Some_0;
    crate::config::lemma_first_col_index(cols, col);
    let ci = crate::config::first_col_index(cols, col);
    assert(crate::graph::has_name(cols[ci].fields@, crate::graph::col_tag()));
    assert(raw == cols[ci].fields);
    crate::config::lemma_dedup_names(raw@);
    assert(crate::graph::has_name(fields, crate::graph::col_tag()));
    crate::graph::lemma_first_name_index(fields, crate::graph::col_tag());
    let p = crate::graph::first_name_index(fields, crate::graph::col_tag());
    assert(names_views(fields)[p] == crate::graph::col_tag());
    assert(want[p] == SpecJson::Str(col));
    assert(columns[p].deep_view() == SpecJson::Str(col));
    assert(crate::graph::vertex_collection_bytes(columns, fields) == colb) by {
        match columns[p] {
            JsonValue::Str(q) => {},
            _ => {
                assert(!(columns[p].deep_view() is Str));
            },
        }
    }

    // the document carries a feature, so the insertion really happens
    assert(crate::graph::has_feature(columns, fields)) by {
        let q = choose|q: int|
            0 <= q < fields.len() && (#[trigger] fields[q])@ != crate::graph::id_tag()
                && crate::json::spec_numeric_vector(
                spec_doc_columns(d, names_views(fields), col)[q],
            ) is Some;
        assert(cols_views(columns)[q] == columns[q].deep_view());
        assert(crate::graph::is_feature_field(columns, fields, q));
    }

    // a fresh key: the collection's map does not bind it yet
    let key = doc_key(d);
    let oldim = crate::graph::index_maps_view(pre.cols_to_keys_to_inds);
    let oldcol = if oldim.dom().contains(colb) {
        oldim[colb]
    } else {
        Map::<Seq<u8>, usize>::empty()
    };
    assert(!oldcol.dom().contains(key)) by {
        if oldcol.dom().contains(key) {
            crate::assoc::lemma_bytemap_value_position(pre.cols_to_keys_to_inds, colb);
            let w = choose|w: int|
                0 <= w < pre.cols_to_keys_to_inds.vals@.len() && pre.cols_to_keys_to_inds@[colb]
                    == pre.cols_to_keys_to_inds.vals@[w];
            crate::graph::lemma_index_bijection(pre, colb);
            let ix = oldcol[key];
            assert(0 <= ix < col_keys(pre, colb).len());
            assert(oldcol.dom().contains(col_keys(pre, colb)[ix as int]) && oldcol[col_keys(
                pre,
                colb,
            )[ix as int]] == ix);
            assert(col_keys(pre, colb)[ix as int] == key);
            assert(col_keys(pre, colb).contains(key)) by {
                assert(col_keys(pre, colb)[ix as int] == key);
            }
        }
    }
    let oldinv = crate::graph::inverse_maps_view(pre.cols_to_keys_to_inds);
    let newinv = crate::graph::inverse_maps_view(post.cols_to_keys_to_inds);
    assert(newinv == oldinv.insert(colb, col_keys(pre, colb).push(key)));
    assert(col_keys(post, colb) == col_keys(pre, colb).push(key));
    assert forall|c2: Seq<u8>| c2 != colb implies #[trigger] col_keys(post, c2) == col_keys(
        pre,
        c2,
    ) by {
        if oldinv.dom().contains(c2) {
            assert(newinv[c2] == oldinv[c2]);
        }
    }
}


/// Law: a batch of documents of one requested collection, each carrying a
/// numeric field and a fresh key, pairwise distinct, extends that
/// collection's key list by exactly those keys in order - so N such
/// documents make N vertices, however the stream is cut into batches, and
/// no other collection moves.
#[verifier::rlimit(100)]
pub proof fn lemma_chain_vertex_count(
    gs: Seq<NumpyGraph>,
    pre: NumpyGraph,
    post: NumpyGraph,
    docs: Seq<JsonValue>,
    cols: Seq<crate::config::CollectionDescription>,
    colb: Seq<u8>,
)
    requires
        vertex_chain(gs, pre, post, docs, cols),
        pre.wf(),
        forall|c: int|
            0 <= c < cols.len() ==> crate::graph::has_name(
                (#[trigger] cols[c]).fields@,
                crate::graph::col_tag(),
            ),
        forall|i: int|
            0 <= i < docs.len() ==> doc_fields(cols, (#[trigger] docs[i]).deep_view()) is Some,
        forall|i: int|
            0 <= i < docs.len() ==> vstd::utf8::encode_utf8(
                doc_col_chars((#[trigger] docs[i]).deep_view()),
            ) == colb,
        forall|i: int|
            0 <= i < docs.len() ==> doc_contributes(
                (#[trigger] docs[i]).deep_view(),
                doc_fields(cols, docs[i].deep_view())->Some_0,
            ),
        forall|i: int|
            0 <= i < docs.len() ==> !col_keys(pre, colb).contains(
                doc_key((#[trigger] docs[i]).deep_view()),
            ),
        forall|i: int, j: int|
            0 <= i < j < docs.len() ==> doc_key((#[trigger] docs[i]).deep_view()) != doc_key(
                (#[trigger] docs[j]).deep_view(),
            ),
    ensures
        col_keys(post, colb) == col_keys(pre, colb) + chain_doc_keys(docs),
        col_keys(post, colb).len() == col_keys(pre, colb).len() + docs.len(),
        forall|c2: Seq<u8>| c2 != colb ==> #[trigger] col_keys(post, c2) == col_keys(pre, c2),
    decreases docs.len(),
{
    if docs.len() == 0 {
        assert(post == gs[0]);
        assert(col_keys(post, colb) =~= col_keys(pre, colb) + chain_doc_keys(docs));
    } else {
        assert(vertex_step(gs[0], gs[1], docs[0], cols));
        lemma_vertex_step_count(gs[0], gs[1], docs[0], cols, colb);
        let key0 = doc_key(docs[0].deep_view());
        assert(col_keys(gs[1], colb) == col_keys(pre, colb).push(key0));
        // gs[1] is well formed and the remaining keys stay fresh in it
        assert(gs[1].wf());
        let t = gs.skip(1);
        let d = docs.skip(1);
        assert(vertex_chain(t, gs[1], post, d, cols)) by {
            assert(t[0] == gs[1]);
            assert(t[d.len() as int] == gs[docs.len() as int]);
            assert forall|i: int| 0 <= i < d.len() implies vertex_step(
                t[i],
                t[i + 1],
                #[trigger] d[i],
                cols,
            ) by {
                assert(d[i] == docs[i + 1]);
                assert(t[i] == gs[i + 1] && t[i + 1] == gs[i + 2]);
            }
        }
        assert forall|i: int| 0 <= i < d.len() implies !col_keys(gs[1], colb).contains(
            doc_key((#[trigger] d[i]).deep_view()),
        ) by {
            assert(d[i] == docs[i + 1]);
            let ki = doc_key(docs[i + 1].deep_view());
            if col_keys(gs[1], colb).contains(ki) {
                let w = choose|w: int|
                    0 <= w < col_keys(gs[1], colb).len() && col_keys(gs[1], colb)[w] == ki;
                if w < col_keys(pre, colb).len() {
                    assert(col_keys(pre, colb)[w] == ki);
                    assert(col_keys(pre, colb).contains(ki));
                } else {
                    assert(ki == key0);
                }
            }
        }
        assert forall|i: int| 0 <= i < d.len() implies doc_fields(
            cols,
            (#[trigger] d[i]).deep_view(),
        ) is Some && vstd::utf8::encode_utf8(doc_col_chars(d[i].deep_view())) == colb
            && doc_contributes(d[i].deep_view(), doc_fields(cols, d[i].deep_view())->Some_0) by {
            assert(d[i] == docs[i + 1]);
        }
        assert forall|i: int, j: int| 0 <= i < j < d.len() implies doc_key(
            (#[trigger] d[i]).deep_view(),
        ) != doc_key((#[trigger] d[j]).deep_view()) by {
            assert(d[i] == docs[i + 1] && d[j] == docs[j + 1]);
        }
        lemma_chain_vertex_count(t, gs[1], post, d, cols, colb);
        assert(col_keys(post, colb) == col_keys(gs[1], colb) + chain_doc_keys(d));
        assert(col_keys(post, colb) =~= col_keys(pre, colb) + chain_doc_keys(docs)) by {
            assert(chain_doc_keys(docs)[0] == key0);
            assert(forall|i: int|
                0 <= i < d.len() ==> #[trigger] chain_doc_keys(d)[i] == chain_doc_keys(docs)[i
                    + 1]);
        }
    }
}


/// The number of COO pairs among the first `n` buckets.
pub open spec fn coo_total(
    s: Seq<((Seq<u8>, Seq<u8>, Seq<u8>), (Seq<usize>, Seq<usize>))>,
    n: int,
) -> int
    decreases n,
{
    if n <= 0 || n > s.len() {
        0
    } else {
        coo_total(s, n - 1) + s[n - 1].1.0.len()
    }
}

/// The number of COO pairs a graph holds.
pub open spec fn graph_coo_total(g: NumpyGraph) -> int {
    coo_total(
        crate::graph::coo_view(g.coo_by_from_edge_to),
        crate::graph::coo_view(g.coo_by_from_edge_to).len() as int,
    )
}

/// Equal prefixes count equally.
proof fn lemma_coo_total_congruent(
    s1: Seq<((Seq<u8>, Seq<u8>, Seq<u8>), (Seq<usize>, Seq<usize>))>,
    s2: Seq<((Seq<u8>, Seq<u8>, Seq<u8>), (Seq<usize>, Seq<usize>))>,
    n: int,
)
    requires
        n <= s1.len(),
        n <= s2.len(),
        forall|i: int| 0 <= i < n ==> s1[i] == s2[i],
    ensures
        coo_total(s1, n) == coo_total(s2, n),
    decreases n,
{
    if n > 0 {
        lemma_coo_total_congruent(s1, s2, n - 1);
    }
}

/// Appending a bucket adds its own pair count.
proof fn lemma_coo_total_push(
    s: Seq<((Seq<u8>, Seq<u8>, Seq<u8>), (Seq<usize>, Seq<usize>))>,
    b: ((Seq<u8>, Seq<u8>, Seq<u8>), (Seq<usize>, Seq<usize>)),
)
    ensures
        coo_total(s.push(b), s.len() as int + 1) == coo_total(s, s.len() as int) + b.1.0.len(),
{
    lemma_coo_total_congruent(s.push(b), s, s.len() as int);
    assert(s.push(b)[s.len() as int] == b);
}

/// Growing one bucket by one pair grows the count by one.
proof fn lemma_coo_total_update(
    s1: Seq<((Seq<u8>, Seq<u8>, Seq<u8>), (Seq<usize>, Seq<usize>))>,
    s2: Seq<((Seq<u8>, Seq<u8>, Seq<u8>), (Seq<usize>, Seq<usize>))>,
    bi: int,
    n: int,
)
    requires
        0 <= bi < n,
        n <= s1.len(),
        s2.len() == s1.len(),
        forall|i: int| 0 <= i < s1.len() && i != bi ==> s1[i] == s2[i],
        s2[bi].1.0.len() == s1[bi].1.0.len() + 1,
    ensures
        coo_total(s2, n) == coo_total(s1, n) + 1,
    decreases n,
{
    if bi == n - 1 {
        lemma_coo_total_congruent(s1, s2, n - 1);
    } else {
        lemma_coo_total_update(s1, s2, bi, n - 1);
    }
}

/// Whether a graph can place both of an edge document's endpoints: their
/// collections are indexed and their keys assigned.
pub open spec fn edge_resolvable(g: NumpyGraph, d: SpecJson) -> bool {
    let im = crate::graph::index_maps_view(g.cols_to_keys_to_inds);
    let fc = crate::util::spec_id_collection(doc_from_bytes(d));
    let fk = crate::util::spec_id_key(doc_from_bytes(d));
    let tc = crate::util::spec_id_collection(doc_to_bytes(d));
    let tk = crate::util::spec_id_key(doc_to_bytes(d));
    &&& im.dom().contains(fc)
    &&& im.dom().contains(tc)
    &&& im[fc].dom().contains(fk)
    &&& im[tc].dom().contains(tk)
}

/// One attributed, resolvable edge document adds exactly one COO pair.
#[verifier::rlimit(100)]
proof fn lemma_edge_step_count(
    pre: NumpyGraph,
    post: NumpyGraph,
    doc: JsonValue,
    cols: Seq<crate::config::CollectionDescription>,
)
    requires
        edge_step(pre, post, doc, cols),
        doc_fields(cols, doc.deep_view()) is Some,
        edge_resolvable(pre, doc.deep_view()),
    ensures
        graph_coo_total(post) == graph_coo_total(pre) + 1,
{
    let d = doc.deep_view();
    let fields = doc_fields(cols, d)->Some_0;
    assert(edge_step(pre, post, doc, cols));
    let columns = choose|columns: Seq<JsonValue>|
        {
            &&& #[trigger] cols_views(columns) == spec_doc_columns(
                doc.deep_view(),
                names_views(fields),
                doc_col_chars(doc.deep_view()),
            )
            &&& crate::graph::spec_insert_edge_post(
                pre,
                post,
                doc_from_bytes(doc.deep_view()),
                doc_to_bytes(doc.deep_view()),
                columns,
                fields,
            )
            &&& post.cols_to_keys_to_inds == pre.cols_to_keys_to_inds
            &&& post.cols_to_features == pre.cols_to_features
            &&& post.wf()
        };
    let oldcoo = crate::graph::coo_view(pre.coo_by_from_edge_to);
    let newcoo = crate::graph::coo_view(post.coo_by_from_edge_to);
    let fc = crate::util::spec_id_collection(doc_from_bytes(d));
    let tc = crate::util::spec_id_collection(doc_to_bytes(d));
    let ec = crate::graph::vertex_collection_bytes(columns, fields);
    let triple = (ec, fc, tc);
    let withb = if crate::assoc::has_key(oldcoo, triple) {
        oldcoo
    } else {
        oldcoo.push((triple, (Seq::<usize>::empty(), Seq::<usize>::empty())))
    };
    crate::assoc::lemma_first_key_index(withb, triple);
    let bi = crate::assoc::first_key_index(withb, triple);
    assert(crate::assoc::has_key(withb, triple)) by {
        if !crate::assoc::has_key(oldcoo, triple) {
            assert(withb[oldcoo.len() as int].0 == triple);
        }
    }
    assert(coo_total(withb, withb.len() as int) == coo_total(oldcoo, oldcoo.len() as int)) by {
        if !crate::assoc::has_key(oldcoo, triple) {
            lemma_coo_total_push(oldcoo, (triple, (Seq::<usize>::empty(), Seq::<usize>::empty())));
        }
    }
    let updated = withb.update(
        bi,
        (
            triple,
            (
                withb[bi].1.0.push(
                    crate::graph::index_maps_view(pre.cols_to_keys_to_inds)[fc][crate::util::spec_id_key(
                        doc_from_bytes(d),
                    )],
                ),
                withb[bi].1.1.push(
                    crate::graph::index_maps_view(pre.cols_to_keys_to_inds)[tc][crate::util::spec_id_key(
                        doc_to_bytes(d),
                    )],
                ),
            ),
        ),
    );
    assert(newcoo == updated);
    lemma_coo_total_update(withb, updated, bi, withb.len() as int);
}

/// Law: a batch of edge documents of one requested edge collection, every
/// endpoint resolvable, adds exactly one COO pair per document - so E such
/// documents make E edges, however the stream is cut into batches.
#[verifier::rlimit(100)]
pub proof fn lemma_chain_edge_count(
    gs: Seq<NumpyGraph>,
    pre: NumpyGraph,
    post: NumpyGraph,
    docs: Seq<JsonValue>,
    cols: Seq<crate::config::CollectionDescription>,
)
    requires
        edge_chain(gs, pre, post, docs, cols),
        forall|i: int|
            0 <= i < docs.len() ==> doc_fields(cols, (#[trigger] docs[i]).deep_view()) is Some,
        forall|i: int|
            0 <= i < docs.len() ==> edge_resolvable(pre, (#[trigger] docs[i]).deep_view()),
    ensures
        graph_coo_total(post) == graph_coo_total(pre) + docs.len(),
        post.cols_to_keys_to_inds == pre.cols_to_keys_to_inds,
    decreases docs.len(),
{
    if docs.len() == 0 {
        assert(post == gs[0]);
    } else {
        assert(edge_step(gs[0], gs[1], docs[0], cols));
        lemma_edge_step_count(gs[0], gs[1], docs[0], cols);
        let t = gs.skip(1);
        let d = docs.skip(1);
        assert(edge_chain(t, gs[1], post, d, cols)) by {
            assert(t[0] == gs[1]);
            assert(t[d.len() as int] == gs[docs.len() as int]);
            assert forall|i: int| 0 <= i < d.len() implies edge_step(
                t[i],
                t[i + 1],
                #[trigger] d[i],
                cols,
            ) by {
                assert(d[i] == docs[i + 1]);
                assert(t[i] == gs[i + 1] && t[i + 1] == gs[i + 2]);
            }
        }
        assert forall|i: int| 0 <= i < d.len() implies doc_fields(
            cols,
            (#[trigger] d[i]).deep_view(),
        ) is Some && edge_resolvable(gs[1], d[i].deep_view()) by {
            assert(d[i] == docs[i + 1]);
            // the first step left the index maps alone, whichever branch
            // it took
            assert(gs[1].cols_to_keys_to_inds == gs[0].cols_to_keys_to_inds) by {
                match doc_fields(cols, docs[0].deep_view()) {
                    Some(f) => {},
                    None => {},
                }
            }
        }
        lemma_chain_edge_count(t, gs[1], post, d, cols);
    }
}

} // verus!

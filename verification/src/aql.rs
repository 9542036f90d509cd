//! The query-cursor session: the single-server fallback protocol.
//!
//! One streaming cursor is created per collection with an equivalent
//! field-selection query.  A creation failure aborts the operation after
//! best-effort deletion of the cursors opened so far; cursors whose first
//! response says more data follows are advanced until exhausted and always
//! deleted at the end.  The transport stays outside: callers issue the
//! requests this state machine asks for and feed the outcomes back.

use vstd::prelude::*;

use vstd::string::StringExecFns;

verus! {

/// Options of a cursor-creation request; loads always stream.
pub struct CursorOptions {
    pub stream: bool,
}

impl CursorOptions {
    pub fn new(stream: bool) -> (r: Self)
        ensures
            r.stream == stream,
    {
        (Self { stream })
    }
}

/// The body of a cursor-creation request: the query, its options, an
/// optional batch size, and the query's bind variables.
pub struct CreateCursorBody {
    pub query: String,
    pub options: CursorOptions,
    pub batch_size: Option<u32>,
    pub bind_vars: Vec<(String, String)>,
}

impl CreateCursorBody {
    /// A streaming query with the given batch size and bind variables.
    pub fn from_streaming_query_with_size(
        query: String,
        batch_size: Option<u32>,
        bind_vars: Vec<(String, String)>,
    ) -> (r: Self)
        ensures
            r.query == query,
            r.batch_size == batch_size,
            r.bind_vars == bind_vars,
            r.options.stream,
    {
        (Self { query, batch_size, options: CursorOptions::new(true), bind_vars })
    }
}

/// One selected field rendered into the query's RETURN object.
pub open spec fn field_line(f: Seq<char>) -> Seq<char> {
    f + ": doc."@ + f + ","@
}

/// The first `n` field lines joined by newlines.
pub open spec fn spec_field_lines(fields: Seq<String>, n: int) -> Seq<char>
    decreases n,
{
    if n <= 0 {
        Seq::empty()
    } else if n == 1 {
        field_line(fields[0]@)
    } else {
        spec_field_lines(fields, n - 1) + "\n"@ + field_line(fields[n - 1]@)
    }
}

/// The identifier part of the RETURN object: endpoints for an edge query,
/// the key for a vertex query.
pub open spec fn spec_identifiers(is_edge: bool) -> Seq<char> {
    if is_edge {
        "_to: doc._to,\n_from: doc._from,\n"@
    } else {
        "_key: doc._key,\n"@
    }
}

/// The whole query text over the `@col` bind variable.
pub open spec fn spec_aql_query(fields: Seq<String>, is_edge: bool) -> Seq<char> {
    "\n        FOR doc in @@col\n            RETURN {\n                _id: doc._id,\n                "@
        + spec_identifiers(is_edge) + "\n                "@ + spec_field_lines(
        fields,
        fields.len() as int,
    ) + "\n            }\n    "@
}

/// Render the streaming query that pulls a collection's documents with the
/// selected fields, addressed by the `@col` bind variable.
#[verifier::loop_isolation(false)]
pub fn build_aql_query(collection_description: &crate::config::CollectionDescription, is_edge: bool) -> (r: String)
    ensures
        r@ == spec_aql_query(collection_description.fields@, is_edge),
{
    let fields = &collection_description.fields;
    let mut lines: String = String::new();
    let n = fields.len();
    let mut i: usize = 0;
    while i < n
        invariant
            i <= n,
            lines@ == spec_field_lines(fields@, i as int),
        decreases n - i,
    {
        if i > 0 {
            lines.append("\n");
        }
        lines.append(fields[i].as_str());
        lines.append(": doc.");
        lines.append(fields[i].as_str());
        lines.append(",");
        i += 1;
    }
    let mut q: String =
        "\n        FOR doc in @@col\n            RETURN {\n                _id: doc._id,\n                ".to_owned();
    if is_edge {
        q.append("_to: doc._to,\n_from: doc._from,\n");
    } else {
        q.append("_key: doc._key,\n");
    }
    q.append("\n                ");
    q.append(lines.as_str());
    q.append("\n            }\n    ");
    q
}

/// The query-cursor session.  `collections` fixes the plan; cursors that
/// answered with more data pending join `cursor_ids`, the set to advance
/// and finally delete; a creation failure freezes the session with the
/// original error, the cleanup set being exactly the cursors opened so
/// far.
pub struct CursorSession {
    pub collections: Vec<String>,
    pub next_to_create: usize,
    pub cursor_ids: Vec<String>,
    pub error: Option<String>,
}

impl CursorSession {
    /// The session invariant: creations advance one collection at a time.
    pub open spec fn wf(&self) -> bool {
        self.next_to_create <= self.collections@.len()
    }

    /// A fresh session over the requested collections.
    pub fn new(collections: Vec<String>) -> (r: CursorSession)
        ensures
            r.wf(),
            r.collections == collections,
            r.next_to_create == 0,
            r.cursor_ids@.len() == 0,
            r.error is None,
    {
        (CursorSession { collections, next_to_create: 0, cursor_ids: Vec::new(), error: None })
    }

    /// The next collection to open a cursor for, if any remain and nothing
    /// failed.
    pub fn pending_create(&self) -> (r: Option<usize>)
        requires
            self.wf(),
        ensures
            r is Some <==> self.error is None && self.next_to_create < self.collections@.len(),
            r matches Some(i) ==> i == self.next_to_create,
    {
        match &self.error {
            Some(_) => {
                return None;
            },
            None => {},
        }
        if self.next_to_create >= self.collections.len() {
            return None;
        }
        Some(self.next_to_create)
    }

    /// Record the outcome of a successful creation: a cursor with more
    /// data pending joins the set to advance and clean up; one already
    /// exhausted is disposed of by the server and tracked no further.
    pub fn record_created(&mut self, id: Option<String>, has_more: bool)
        requires
            old(self).wf(),
            old(self).error is None,
            old(self).next_to_create < old(self).collections@.len(),
        ensures
            final(self).wf(),
            *final(self) == (CursorSession {
                next_to_create: final(self).next_to_create,
                cursor_ids: final(self).cursor_ids,
                ..*old(self)
            }),
            final(self).next_to_create == old(self).next_to_create + 1,
            match id {
                Some(cid) => if has_more {
                    final(self).cursor_ids@ == old(self).cursor_ids@.push(cid)
                } else {
                    final(self).cursor_ids == old(self).cursor_ids
                },
                None => final(self).cursor_ids == old(self).cursor_ids,
            },
    {
        let l = self.collections.len();
        match id {
            Some(cid) => {
                if has_more {
                    self.cursor_ids.push(cid);
                }
            },
            None => {},
        }
        self.next_to_create = self.next_to_create + 1;
    }

    /// Record that a creation failed: the session freezes with the
    /// original error, the cursors opened so far staying the cleanup set.
    pub fn record_create_failure(&mut self, error: String)
        requires
            old(self).wf(),
            old(self).error is None,
        ensures
            final(self).wf(),
            *final(self) == (CursorSession { error: Some(error), ..*old(self) }),
    {
        self.error = Some(error);
    }

    /// The cursors to delete: exactly those opened with data pending, in
    /// creation order, whatever else happened.
    pub fn cleanup_targets(&self) -> (r: &Vec<String>)
        ensures
            r == self.cursor_ids,
    {
        &self.cursor_ids
    }

    /// Whether cursor creation got through every collection.
    pub fn all_created(&self) -> (r: bool)
        requires
            self.wf(),
        ensures
            r == (self.error is None && self.next_to_create == self.collections@.len()),
    {
        let ok = match &self.error {
            Some(_) => false,
            None => true,
        };
        ok && self.next_to_create == self.collections.len()
    }
}

} // verus!

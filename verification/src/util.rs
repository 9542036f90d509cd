//! Byte-level helpers shared by the parsing and graph-building modules.
//!
//! Document identifiers arrive from the wire as raw bytes of the form
//! `collection/key`; these helpers compare byte strings and split identifiers
//! at the first slash.

use vstd::prelude::*;

verus! {

/// The byte value of `/`, which separates a collection name from a document
/// key inside a document identifier.
pub const SLASH: u8 = 47;

/// True exactly when the two byte vectors hold the same bytes.
pub fn bytes_eq(a: &Vec<u8>, b: &Vec<u8>) -> (r: bool)
    ensures
        r <==> a@ == b@,
{
    if a.len() != b.len() {
        return false;
    }
    let mut i: usize = 0;
    while i < a.len()
        invariant
            0 <= i <= a@.len(),
            a@.len() == b@.len(),
            forall|j: int| 0 <= j < i ==> a@[j] == b@[j],
        decreases a@.len() - i,
    {
        if a[i] != b[i] {
            return false;
        }
        i += 1;
    }
    proof {
        assert(a@ =~= b@);
    }
    true
}

/// Position of the first occurrence of `b` in `a`, if any.
pub fn find_byte(a: &Vec<u8>, b: u8) -> (r: Option<usize>)
    ensures
        match r {
            Some(i) => i < a@.len() && a@[i as int] == b && forall|j: int|
                0 <= j < i ==> a@[j] != b,
            None => forall|j: int| 0 <= j < a@.len() ==> a@[j] != b,
        },
{
    let mut i: usize = 0;
    while i < a.len()
        invariant
            0 <= i <= a@.len(),
            forall|j: int| 0 <= j < i ==> a@[j] != b,
        decreases a@.len() - i,
    {
        if a[i] == b {
            return Some(i);
        }
        i += 1;
    }
    None
}

/// Copy of the bytes of `a` in positions `from..to`.
pub fn bytes_range(a: &Vec<u8>, from: usize, to: usize) -> (r: Vec<u8>)
    requires
        from <= to <= a@.len(),
    ensures
        r@ == a@.subrange(from as int, to as int),
{
    let mut out: Vec<u8> = Vec::new();
    let mut i: usize = from;
    while i < to
        invariant
            from <= i <= to <= a@.len(),
            out@ == a@.subrange(from as int, i as int),
        decreases to - i,
    {
        out.push(a[i]);
        proof {
            assert(out@ =~= a@.subrange(from as int, (i + 1) as int));
        }
        i += 1;
    }
    out
}

/// The collection-name part of a document identifier: the bytes before the
/// first slash, in spec form.
pub open spec fn spec_id_collection(id: Seq<u8>) -> Seq<u8> {
    id.take(first_slash(id))
}

/// The key part of a document identifier: the bytes after the first slash,
/// in spec form.
pub open spec fn spec_id_key(id: Seq<u8>) -> Seq<u8> {
    id.skip(first_slash(id) + 1)
}

/// Index of the first slash in `id`, or the length of `id` when it has none.
pub open spec fn first_slash(id: Seq<u8>) -> int
    decreases id.len(),
{
    if id.len() == 0 {
        0
    } else if id[0] == SLASH {
        0
    } else {
        1 + first_slash(id.skip(1))
    }
}

/// Whether `id` holds a slash at all, so that it splits into a collection
/// name and a key.
pub open spec fn has_slash(id: Seq<u8>) -> bool {
    exists|j: int| 0 <= j < id.len() && id[j] == SLASH
}

proof fn lemma_first_slash(id: Seq<u8>)
    ensures
        0 <= first_slash(id) <= id.len(),
        forall|j: int| 0 <= j < first_slash(id) ==> id[j] != SLASH,
        first_slash(id) < id.len() ==> id[first_slash(id)] == SLASH,
        has_slash(id) ==> first_slash(id) < id.len(),
    decreases id.len(),
{
    if id.len() == 0 {
    } else if id[0] == SLASH {
    } else {
        lemma_first_slash(id.skip(1));
        assert forall|j: int| 0 <= j < first_slash(id) implies id[j] != SLASH by {
            if j > 0 {
                assert(id.skip(1)[j - 1] == id[j]);
            }
        }
        if has_slash(id) {
            let w = choose|w: int| 0 <= w < id.len() && id[w] == SLASH;
            assert(id.skip(1)[w - 1] == SLASH);
            assert(has_slash(id.skip(1)));
        }
    }
}

/// Split a document identifier of the form `collection/key` at its first
/// slash.  Identifiers without a slash are rejected.
pub fn split_document_id(id: &Vec<u8>) -> (r: Option<(Vec<u8>, Vec<u8>)>)
    ensures
        r is Some <==> has_slash(id@),
        r matches Some(pair) ==> pair.0@ == spec_id_collection(id@) && pair.1@ == spec_id_key(id@),
{
    proof {
        lemma_first_slash(id@);
    }
    match find_byte(id, SLASH) {
        None => {
            proof {
                if has_slash(id@) {
                    let w = choose|w: int| 0 <= w < id@.len() && id@[w] == SLASH;
                }
            }
            None
        },
        Some(pos) => {
            proof {
                assert(has_slash(id@));
                // find_byte returned the first slash, which pins it to first_slash
                assert(first_slash(id@) == pos) by {
                    if first_slash(id@) < pos {
                        assert(id@[first_slash(id@)] == SLASH);
                    }
                }
            }
            let n = id.len();
            let col = bytes_range(id, 0, pos);
            let key = bytes_range(id, pos + 1, n);
            proof {
                assert(col@ =~= spec_id_collection(id@));
                assert(key@ =~= spec_id_key(id@));
            }
            Some((col, key))
        },
    }
}


/// Index of the first occurrence of `b` in `s`, or the length of `s` when
/// it has none.
pub open spec fn first_byte_index(s: Seq<u8>, b: u8) -> int
    decreases s.len(),
{
    if s.len() == 0 {
        0
    } else if s[0] == b {
        0
    } else {
        1 + first_byte_index(s.skip(1), b)
    }
}

pub proof fn lemma_first_byte_index(s: Seq<u8>, b: u8)
    ensures
        0 <= first_byte_index(s, b) <= s.len(),
        forall|j: int| 0 <= j < first_byte_index(s, b) ==> s[j] != b,
        first_byte_index(s, b) < s.len() ==> s[first_byte_index(s, b)] == b,
        (exists|j: int| 0 <= j < s.len() && s[j] == b) ==> first_byte_index(s, b) < s.len(),
    decreases s.len(),
{
    if s.len() == 0 {
    } else if s[0] == b {
    } else {
        lemma_first_byte_index(s.skip(1), b);
        assert forall|j: int| 0 <= j < first_byte_index(s, b) implies s[j] != b by {
            if j > 0 {
                assert(s.skip(1)[j - 1] == s[j]);
            }
        }
        if exists|j: int| 0 <= j < s.len() && s[j] == b {
            let w = choose|w: int| 0 <= w < s.len() && s[w] == b;
            assert(s.skip(1)[w - 1] == s[w]);
        }
    }
}

} // verus!

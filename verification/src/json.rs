//! The library's own model of a JSON document value.
//!
//! Numbers are carried as their JSON text, so the graph builder can sort
//! numeric from non-numeric fields and hand the text on without the library
//! ever computing with floating point.  The spec-level mirror `SpecJson`
//! reads every string as its character sequence, which is what contracts
//! speak of.

use vstd::prelude::*;

verus! {

broadcast use vstd::std_specs::vec::axiom_vec_index_decreases;

/// A JSON value as the loader holds it: object members and array elements in
/// document order, numbers by their source text.
#[derive(Debug, PartialEq, Eq)]
pub enum JsonValue {
    Null,
    Bool(bool),
    Num(String),
    Str(String),
    Arr(Vec<JsonValue>),
    Obj(Vec<(String, JsonValue)>),
}

/// The mathematical reading of a [`JsonValue`].
#[verifier::ext_equal]
pub enum SpecJson {
    Null,
    Bool(bool),
    Num(Seq<char>),
    Str(Seq<char>),
    Arr(Seq<SpecJson>),
    Obj(Seq<(Seq<char>, SpecJson)>),
}

/// Reading of the first `n` elements of an array value.
pub open spec fn arr_view_prefix(elts: Vec<JsonValue>, n: int) -> Seq<SpecJson>
    decreases elts, n,
{
    if n <= 0 || n > elts@.len() {
        Seq::empty()
    } else {
        arr_view_prefix(elts, n - 1).push(elts[n - 1].deep_view())
    }
}

/// Reading of the first `n` members of an object value.
pub open spec fn obj_view_prefix(mems: Vec<(String, JsonValue)>, n: int) -> Seq<
    (Seq<char>, SpecJson),
>
    decreases mems, n,
{
    if n <= 0 || n > mems@.len() {
        Seq::empty()
    } else {
        obj_view_prefix(mems, n - 1).push((mems[n - 1].0@, mems[n - 1].1.deep_view()))
    }
}

/// Reading of a whole array value.
pub open spec fn arr_view(elts: Vec<JsonValue>) -> Seq<SpecJson>
    decreases elts, elts@.len() as int + 1,
{
    arr_view_prefix(elts, elts@.len() as int)
}

/// Reading of a whole object value.
pub open spec fn obj_view(mems: Vec<(String, JsonValue)>) -> Seq<(Seq<char>, SpecJson)>
    decreases mems, mems@.len() as int + 1,
{
    obj_view_prefix(mems, mems@.len() as int)
}

impl DeepView for JsonValue {
    type V = SpecJson;

    open spec fn deep_view(&self) -> SpecJson
        decreases self,
    {
        match self {
            JsonValue::Null => SpecJson::Null,
            JsonValue::Bool(b) => SpecJson::Bool(*b),
            JsonValue::Num(t) => SpecJson::Num(t@),
            JsonValue::Str(s) => SpecJson::Str(s@),
            JsonValue::Arr(elts) => SpecJson::Arr(arr_view(*elts)),
            JsonValue::Obj(mems) => SpecJson::Obj(obj_view(*mems)),
        }
    }
}

pub proof fn lemma_arr_view_prefix(elts: Vec<JsonValue>, n: int)
    requires
        0 <= n <= elts@.len(),
    ensures
        arr_view_prefix(elts, n).len() == n,
        forall|i: int| 0 <= i < n ==> arr_view_prefix(elts, n)[i] == elts@[i].deep_view(),
    decreases n,
{
    if n > 0 {
        lemma_arr_view_prefix(elts, n - 1);
        assert(arr_view_prefix(elts, n) == arr_view_prefix(elts, n - 1).push(
            elts[n - 1].deep_view(),
        ));
        assert forall|i: int| 0 <= i < n implies arr_view_prefix(elts, n)[i]
            == elts@[i].deep_view() by {
            if i < n - 1 {
                assert(arr_view_prefix(elts, n)[i] == arr_view_prefix(elts, n - 1)[i]);
            }
        }
    }
}

pub proof fn lemma_obj_view_prefix(mems: Vec<(String, JsonValue)>, n: int)
    requires
        0 <= n <= mems@.len(),
    ensures
        obj_view_prefix(mems, n).len() == n,
        forall|i: int| 0 <= i < n ==> obj_view_prefix(mems, n)[i] == (
        mems@[i].0@,
        mems@[i].1.deep_view(),
        ),
    decreases n,
{
    if n > 0 {
        lemma_obj_view_prefix(mems, n - 1);
        assert(obj_view_prefix(mems, n) == obj_view_prefix(mems, n - 1).push(
            (mems[n - 1].0@, mems[n - 1].1.deep_view()),
        ));
        assert forall|i: int| 0 <= i < n implies obj_view_prefix(mems, n)[i] == (
            mems@[i].0@,
            mems@[i].1.deep_view(),
        ) by {
            if i < n - 1 {
                assert(obj_view_prefix(mems, n)[i] == obj_view_prefix(mems, n - 1)[i]);
            }
        }
    }
}

pub broadcast proof fn lemma_arr_view(elts: Vec<JsonValue>)
    ensures
        (#[trigger] arr_view(elts)).len() == elts@.len(),
        forall|i: int| 0 <= i < elts@.len() ==> arr_view(elts)[i] == elts@[i].deep_view(),
{
    lemma_arr_view_prefix(elts, elts@.len() as int);
}

pub broadcast proof fn lemma_obj_view(mems: Vec<(String, JsonValue)>)
    ensures
        (#[trigger] obj_view(mems)).len() == mems@.len(),
        forall|i: int| 0 <= i < mems@.len() ==> obj_view(mems)[i] == (
        mems@[i].0@,
        mems@[i].1.deep_view(),
        ),
{
    lemma_obj_view_prefix(mems, mems@.len() as int);
}

impl Clone for JsonValue {
    /// A deep copy with the same reading.
    #[verifier::loop_isolation(false)]
    fn clone(&self) -> (r: Self)
        ensures
            r.deep_view() == self.deep_view(),
        decreases self,
    {
        match self {
            JsonValue::Null => JsonValue::Null,
            JsonValue::Bool(b) => JsonValue::Bool(*b),
            JsonValue::Num(t) => JsonValue::Num(t.clone()),
            JsonValue::Str(s) => JsonValue::Str(s.clone()),
            JsonValue::Arr(elts) => {
                let mut out: Vec<JsonValue> = Vec::new();
                let n = elts.len();
                let mut i: usize = 0;
                while i < n
                    invariant
                        n == elts@.len(),
                        i <= n,
                        out@.len() == i,
                        forall|j: int| 0 <= j < i ==> out@[j].deep_view() == elts@[j].deep_view(),
                    decreases n - i,
                {
                    out.push(elts[i].clone());
                    i += 1;
                }
                proof {
                    lemma_arr_view(*elts);
                    lemma_arr_view(out);
                    assert(arr_view(out) =~= arr_view(*elts));
                }
                JsonValue::Arr(out)
            },
            JsonValue::Obj(mems) => {
                let mut out: Vec<(String, JsonValue)> = Vec::new();
                let n = mems.len();
                let mut i: usize = 0;
                while i < n
                    invariant
                        n == mems@.len(),
                        i <= n,
                        out@.len() == i,
                        forall|j: int| 0 <= j < i ==> out@[j].0@ == mems@[j].0@
                            && out@[j].1.deep_view() == mems@[j].1.deep_view(),
                    decreases n - i,
                {
                    let k = mems[i].0.clone();
                    let v = mems[i].1.clone();
                    out.push((k, v));
                    i += 1;
                }
                proof {
                    lemma_obj_view(*mems);
                    lemma_obj_view(out);
                    assert(obj_view(out) =~= obj_view(*mems));
                }
                JsonValue::Obj(out)
            },
        }
    }
}

/// Whether a reading is a number.
pub open spec fn spec_is_num(v: SpecJson) -> bool {
    v is Num
}

/// The numeric vector a value yields for the feature matrices: the number's
/// own text for a plain number, the element texts for an array whose every
/// element is a number, and nothing otherwise.
pub open spec fn spec_numeric_vector(v: SpecJson) -> Option<Seq<Seq<char>>> {
    match v {
        SpecJson::Num(t) => Some(seq![t]),
        SpecJson::Arr(elts) => if forall|i: int| 0 <= i < elts.len() ==> spec_is_num(#[trigger] elts[i]) {
            Some(Seq::new(elts.len(), |i: int| elts[i]->Num_0))
        } else {
            None
        },
        _ => None,
    }
}

/// Numeric reading of a value, the way a feature vector is drawn from a
/// document field: a single number gives a one-element vector, an
/// all-numeric array gives its elements, anything else gives nothing.
#[verifier::loop_isolation(false)]
pub fn parse_value_to_vec(val: &JsonValue) -> (r: Option<Vec<String>>)
    ensures
        r.deep_view() == spec_numeric_vector(val.deep_view()),
{
    match val {
        JsonValue::Num(t) => {
            let v: Vec<String> = vec![t.clone()];
            proof {
                assert(v.deep_view() =~= seq![t@]);
            }
            Some(v)
        },
        JsonValue::Arr(elts) => {
            proof {
                lemma_arr_view(*elts);
            }
            let n = elts.len();
            let mut out: Vec<String> = Vec::new();
            let mut i: usize = 0;
            while i < n
                invariant
                    n == elts@.len(),
                    i <= n,
                    out@.len() == i,
                    forall|j: int| 0 <= j < i ==> spec_is_num(#[trigger] elts@[j].deep_view()),
                    forall|j: int| 0 <= j < i ==> out@[j]@ == elts@[j].deep_view()->Num_0,
                decreases n - i,
            {
                match &elts[i] {
                    JsonValue::Num(t) => {
                        out.push(t.clone());
                    },
                    _ => {
                        proof {
                            assert(!spec_is_num(arr_view(*elts)[i as int]));
                        }
                        return None;
                    },
                }
                i += 1;
            }
            proof {
                let ev = arr_view(*elts);
                assert(forall|j: int| 0 <= j < ev.len() ==> spec_is_num(#[trigger] ev[j]));
                assert(out.deep_view() =~= Seq::new(ev.len(), |j: int| ev[j]->Num_0));
            }
            Some(out)
        },
        _ => None,
    }
}


/// A property map of a node or an edge: field names to JSON values, in
/// insertion order, each name bound once.  Inserting an existing name
/// rewrites its value in place.
pub struct PropMap {
    pub entries: Vec<(String, JsonValue)>,
}

impl PropMap {
    /// The entries, keys and values in their mathematical reading.
    pub open spec fn entries_view(&self) -> Seq<(Seq<char>, SpecJson)> {
        obj_view(self.entries)
    }

    /// No field name occurs twice.
    pub open spec fn wf(&self) -> bool {
        crate::assoc::unique_keys(self.entries_view())
    }
}

impl View for PropMap {
    type V = Map<Seq<char>, SpecJson>;

    open spec fn view(&self) -> Map<Seq<char>, SpecJson> {
        crate::assoc::as_map(self.entries_view())
    }
}

impl Clone for PropMap {
    /// A deep copy with the same reading.
    fn clone(&self) -> (r: Self)
        ensures
            r.entries_view() == self.entries_view(),
            r@ == self@,
            r.wf() == self.wf(),
    {
        let mut out: Vec<(String, JsonValue)> = Vec::new();
        let n = self.entries.len();
        let mut i: usize = 0;
        while i < n
            invariant
                n == self.entries@.len(),
                i <= n,
                out@.len() == i,
                forall|j: int| 0 <= j < i ==> out@[j].0@ == self.entries@[j].0@
                    && out@[j].1.deep_view() == self.entries@[j].1.deep_view(),
            decreases n - i,
        {
            let k = self.entries[i].0.clone();
            let v = self.entries[i].1.clone();
            out.push((k, v));
            i += 1;
        }
        proof {
            lemma_obj_view(self.entries);
            lemma_obj_view(out);
            assert(obj_view(out) =~= obj_view(self.entries));
        }
        (PropMap { entries: out })
    }
}

impl PropMap {
    pub fn new() -> (r: PropMap)
        ensures
            r.wf(),
            r@ == Map::<Seq<char>, SpecJson>::empty(),
            r.entries_view().len() == 0,
    {
        let r = (PropMap { entries: Vec::new() });
        proof {
            lemma_obj_view(r.entries);
            assert(r.entries_view() =~= Seq::<(Seq<char>, SpecJson)>::empty());
            assert(r@ =~= Map::<Seq<char>, SpecJson>::empty());
        }
        r
    }

    pub fn len(&self) -> (r: usize)
        ensures
            r == self.entries_view().len(),
    {
        proof {
            lemma_obj_view(self.entries);
        }
        self.entries.len()
    }

    /// Position of the entry with field name `k`, if one exists.
    fn find_index(&self, k: &String) -> (r: Option<usize>)
        ensures
            match r {
                Some(i) => i < self.entries_view().len() && self.entries_view()[i as int].0 == k@,
                None => !crate::assoc::has_key(self.entries_view(), k@),
            },
    {
        proof {
            lemma_obj_view(self.entries);
        }
        let n = self.entries.len();
        let mut i: usize = 0;
        while i < n
            invariant
                n == self.entries@.len(),
                i <= n,
                forall|j: int| 0 <= j < i ==> self.entries@[j].0@ != k@,
            decreases n - i,
        {
            if self.entries[i].0 == *k {
                proof {
                    lemma_obj_view(self.entries);
                }
                return Some(i);
            }
            i += 1;
        }
        proof {
            lemma_obj_view(self.entries);
            if crate::assoc::has_key(self.entries_view(), k@) {
                let w = choose|w: int|
                    0 <= w < self.entries_view().len() && self.entries_view()[w].0 == k@;
            }
        }
        None
    }

    pub fn contains_key(&self, k: &String) -> (r: bool)
        ensures
            r == self@.dom().contains(k@),
    {
        match self.find_index(k) {
            Some(i) => {
                proof {
                    assert(crate::assoc::has_key(self.entries_view(), k@)) by {
                        assert(self.entries_view()[i as int].0 == k@);
                    }
                }
                true
            },
            None => false,
        }
    }

    pub fn get(&self, k: &String) -> (r: Option<&JsonValue>)
        requires
            self.wf(),
        ensures
            match r {
                Some(v) => self@.dom().contains(k@) && v.deep_view() == self@[k@],
                None => !self@.dom().contains(k@),
            },
    {
        match self.find_index(k) {
            Some(i) => {
                proof {
                    lemma_obj_view(self.entries);
                    crate::assoc::lemma_key_at(self.entries_view(), i as int);
                }
                Some(&self.entries[i].1)
            },
            None => None,
        }
    }

    /// Bind `k` to `v`: rewrite the binding in place when the name is
    /// already present, append it otherwise.
    pub fn insert(&mut self, k: String, v: JsonValue)
        requires
            old(self).wf(),
        ensures
            final(self).wf(),
            final(self)@ == old(self)@.insert(k@, v.deep_view()),
            final(self).entries_view().len() == if old(self)@.dom().contains(k@) {
                old(self).entries_view().len()
            } else {
                old(self).entries_view().len() + 1
            },
    {
        let ghost pre = self.entries_view();
        match self.find_index(&k) {
            Some(i) => {
                proof {
                    lemma_obj_view(self.entries);
                    crate::assoc::lemma_key_at(pre, i as int);
                }
                let ghost dv = v.deep_view();
                self.entries[i] = (k, v);
                proof {
                    lemma_obj_view(self.entries);
                    assert(final(self).entries_view() =~= pre.update(i as int, (pre[i as int].0, dv)));
                    crate::assoc::lemma_update_value(pre, i as int, dv);
                }
            },
            None => {
                let ghost dv = v.deep_view();
                let ghost kk = k@;
                self.entries.push((k, v));
                proof {
                    lemma_obj_view(old(self).entries);
                    lemma_obj_view(self.entries);
                    assert(final(self).entries_view() =~= pre.push((kk, dv)));
                    crate::assoc::lemma_push_fresh_key(pre, kk, dv);
                }
            },
        }
    }
}

} // verus!

//! The dynamic, JSON-typed values that secrets carry.

use vstd::prelude::*;

verus! {

/// Mathematical model of a [`Json`]: the same tree over character sequences.
pub enum JsonV {
    Null,
    Bool(bool),
    Num(Seq<char>),
    Str(Seq<char>),
    Arr(Seq<JsonV>),
    Obj(Seq<(Seq<char>, JsonV)>),
}

/// A JSON-typed dynamic value: the tagged sum all backends produce.
///
/// Numbers keep the literal text they were written with; two numbers are
/// equal exactly when their texts are, which is all the change detection
/// needs.  Objects keep their fields in insertion order.
#[derive(Debug, PartialEq, Eq)]
pub enum Json {
    Null,
    Bool(bool),
    Num(String),
    Str(String),
    Arr(Vec<Json>),
    Obj(Vec<(String, Json)>),
}

pub open spec fn json_view(v: Json) -> JsonV
    decreases v,
{
    match v {
        Json::Null => JsonV::Null,
        Json::Bool(b) => JsonV::Bool(b),
        Json::Num(s) => JsonV::Num(s@),
        Json::Str(s) => JsonV::Str(s@),
        Json::Arr(items) => JsonV::Arr(arr_view(items@)),
        Json::Obj(fields) => JsonV::Obj(obj_view(fields@)),
    }
}

pub open spec fn arr_view(s: Seq<Json>) -> Seq<JsonV>
    decreases s,
{
    if s.len() == 0 {
        Seq::empty()
    } else {
        arr_view(s.drop_last()).push(json_view(s.last()))
    }
}

pub open spec fn obj_view(s: Seq<(String, Json)>) -> Seq<(Seq<char>, JsonV)>
    decreases s,
{
    if s.len() == 0 {
        Seq::empty()
    } else {
        obj_view(s.drop_last()).push((s.last().0@, json_view(s.last().1)))
    }
}

impl View for Json {
    type V = JsonV;

    open spec fn view(&self) -> JsonV {
        json_view(*self)
    }
}

/// The view of a sequence of values is its elementwise view.
pub proof fn lemma_arr_view(s: Seq<Json>)
    ensures
        arr_view(s).len() == s.len(),
        forall|i: int| 0 <= i < s.len() ==> arr_view(s)[i] == json_view(s[i]),
    decreases s,
{
    if s.len() > 0 {
        lemma_arr_view(s.drop_last());
        assert forall|i: int| 0 <= i < s.len() implies arr_view(s)[i] == json_view(s[i]) by {
            if i < s.len() - 1 {
                assert(s.drop_last()[i] == s[i]);
            } else {
                assert(s.last() == s[i]);
            }
        }
    }
}

/// The view of a sequence of fields is its elementwise view.
pub proof fn lemma_obj_view(s: Seq<(String, Json)>)
    ensures
        obj_view(s).len() == s.len(),
        forall|i: int| 0 <= i < s.len() ==> obj_view(s)[i] == (s[i].0@, json_view(s[i].1)),
    decreases s,
{
    if s.len() > 0 {
        lemma_obj_view(s.drop_last());
        assert forall|i: int| 0 <= i < s.len() implies obj_view(s)[i] == (
            s[i].0@,
            json_view(s[i].1),
        ) by {
            if i < s.len() - 1 {
                assert(s.drop_last()[i] == s[i]);
            } else {
                assert(s.last() == s[i]);
            }
        }
    }
}

/// Equality of string slices, decided by their character sequences.
pub fn str_eq(a: &str, b: &str) -> (r: bool)
    ensures
        r == (a@ == b@),
{
    let sa = a.to_owned();
    let sb = b.to_owned();
    sa.eq(&sb)
}

/// Structural equality of two values: the payload comparison used by the
/// secret store's change detection.
pub fn json_eq(a: &Json, b: &Json) -> (r: bool)
    ensures
        r == (a@ == b@),
    decreases *a,
{
    match (a, b) {
        (Json::Null, Json::Null) => true,
        (Json::Bool(x), Json::Bool(y)) => x == y,
        (Json::Num(x), Json::Num(y)) => str_eq(x.as_str(), y.as_str()),
        (Json::Str(x), Json::Str(y)) => str_eq(x.as_str(), y.as_str()),
        (Json::Arr(x), Json::Arr(y)) => arr_eq(x, y),
        (Json::Obj(x), Json::Obj(y)) => obj_eq(x, y),
        _ => false,
    }
}

fn arr_eq(x: &Vec<Json>, y: &Vec<Json>) -> (r: bool)
    ensures
        r == (arr_view(x@) == arr_view(y@)),
    decreases x@,
{
    proof {
        lemma_arr_view(x@);
        lemma_arr_view(y@);
    }
    if x.len() != y.len() {
        return false;
    }
    let mut i: usize = 0;
    while i < x.len()
        invariant
            x@.len() == y@.len(),
            i <= x@.len(),
            arr_view(x@).len() == x@.len(),
            arr_view(y@).len() == y@.len(),
            forall|j: int| 0 <= j < x@.len() ==> arr_view(x@)[j] == json_view(x@[j]),
            forall|j: int| 0 <= j < y@.len() ==> arr_view(y@)[j] == json_view(y@[j]),
            forall|j: int| 0 <= j < i ==> arr_view(x@)[j] == arr_view(y@)[j],
        decreases x@.len() - i,
    {
        if !json_eq(&x[i], &y[i]) {
            assert(arr_view(x@)[i as int] != arr_view(y@)[i as int]);
            return false;
        }
        i += 1;
    }
    proof {
        assert(arr_view(x@) =~= arr_view(y@));
    }
    true
}

fn obj_eq(x: &Vec<(String, Json)>, y: &Vec<(String, Json)>) -> (r: bool)
    ensures
        r == (obj_view(x@) == obj_view(y@)),
    decreases x@,
{
    proof {
        lemma_obj_view(x@);
        lemma_obj_view(y@);
    }
    if x.len() != y.len() {
        return false;
    }
    let mut i: usize = 0;
    while i < x.len()
        invariant
            x@.len() == y@.len(),
            i <= x@.len(),
            obj_view(x@).len() == x@.len(),
            obj_view(y@).len() == y@.len(),
            forall|j: int| 0 <= j < x@.len() ==> obj_view(x@)[j] == (x@[j].0@, json_view(
                x@[j].1,
            )),
            forall|j: int| 0 <= j < y@.len() ==> obj_view(y@)[j] == (y@[j].0@, json_view(
                y@[j].1,
            )),
            forall|j: int| 0 <= j < i ==> obj_view(x@)[j] == obj_view(y@)[j],
        decreases x@.len() - i,
    {
        if !str_eq(x[i].0.as_str(), y[i].0.as_str()) {
            assert(obj_view(x@)[i as int] != obj_view(y@)[i as int]);
            return false;
        }
        if !json_eq(&x[i].1, &y[i].1) {
            assert(obj_view(x@)[i as int] != obj_view(y@)[i as int]);
            return false;
        }
        i += 1;
    }
    proof {
        assert(obj_view(x@) =~= obj_view(y@));
    }
    true
}

/// Deep copy of a value; the copy has the same view.
pub fn json_clone(v: &Json) -> (r: Json)
    ensures
        r@ == v@,
    decreases *v,
{
    match v {
        Json::Null => Json::Null,
        Json::Bool(b) => Json::Bool(*b),
        Json::Num(s) => Json::Num(s.clone()),
        Json::Str(s) => Json::Str(s.clone()),
        Json::Arr(items) => Json::Arr(arr_clone(items)),
        Json::Obj(fields) => Json::Obj(obj_clone(fields)),
    }
}

fn arr_clone(x: &Vec<Json>) -> (r: Vec<Json>)
    ensures
        arr_view(r@) == arr_view(x@),
    decreases x@,
{
    proof {
        lemma_arr_view(x@);
    }
    let mut out: Vec<Json> = Vec::new();
    let mut i: usize = 0;
    while i < x.len()
        invariant
            i <= x@.len(),
            out@.len() == i,
            arr_view(x@).len() == x@.len(),
            forall|j: int| 0 <= j < x@.len() ==> arr_view(x@)[j] == json_view(x@[j]),
            forall|j: int| 0 <= j < i ==> json_view(out@[j]) == json_view(x@[j]),
        decreases x@.len() - i,
    {
        let c = json_clone(&x[i]);
        out.push(c);
        i += 1;
    }
    proof {
        lemma_arr_view(out@);
        assert(arr_view(out@) =~= arr_view(x@));
    }
    out
}

fn obj_clone(x: &Vec<(String, Json)>) -> (r: Vec<(String, Json)>)
    ensures
        obj_view(r@) == obj_view(x@),
    decreases x@,
{
    proof {
        lemma_obj_view(x@);
    }
    let mut out: Vec<(String, Json)> = Vec::new();
    let mut i: usize = 0;
    while i < x.len()
        invariant
            i <= x@.len(),
            out@.len() == i,
            obj_view(x@).len() == x@.len(),
            forall|j: int| 0 <= j < x@.len() ==> obj_view(x@)[j] == (x@[j].0@, json_view(
                x@[j].1,
            )),
            forall|j: int| 0 <= j < i ==> out@[j].0@ == x@[j].0@ && json_view(out@[j].1)
                == json_view(x@[j].1),
        decreases x@.len() - i,
    {
        let k = x[i].0.clone();
        let c = json_clone(&x[i].1);
        out.push((k, c));
        i += 1;
    }
    proof {
        lemma_obj_view(out@);
        assert(obj_view(out@) =~= obj_view(x@));
    }
    out
}

} // verus!

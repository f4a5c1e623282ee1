//! The dynamically-typed JSON value that flows through the pipeline.
//!
//! Floating-point numbers are carried as their decimal display text: the
//! crate never computes with them, it only routes, classifies and renders
//! them, and the display text determines all of that.

use vstd::prelude::*;

verus! {

/// A JSON value. Numbers keep the distinction the parser makes: signed,
/// unsigned beyond the signed range, or floating-point (held as its
/// decimal display text).
#[derive(Debug, PartialEq)]
pub enum JsonValue {
    Null,
    Bool(bool),
    Int(i64),
    UInt(u64),
    Float(String),
    Str(String),
    Array(Vec<JsonValue>),
    Object(Vec<(String, JsonValue)>),
}

/// The mathematical model of a [`JsonValue`].
pub ghost enum Jv {
    Null,
    Bool(bool),
    Int(int),
    UInt(int),
    Float(Seq<char>),
    Str(Seq<char>),
    Array(Seq<Jv>),
    Object(Seq<(Seq<char>, Jv)>),
}

/// The model of a value.
pub open spec fn jv_of(v: JsonValue) -> Jv
    decreases v,
{
    match v {
        JsonValue::Null => Jv::Null,
        JsonValue::Bool(b) => Jv::Bool(b),
        JsonValue::Int(i) => Jv::Int(i as int),
        JsonValue::UInt(u) => Jv::UInt(u as int),
        JsonValue::Float(t) => Jv::Float(t@),
        JsonValue::Str(s) => Jv::Str(s@),
        JsonValue::Array(a) => {
            proof {
                assert(decreases_to!(v => a));
                assert(decreases_to!(a => a@));
            }
            Jv::Array(jv_of_seq(a@))
        },
        JsonValue::Object(o) => {
            proof {
                assert(decreases_to!(v => o));
                assert(decreases_to!(o => o@));
            }
            Jv::Object(jv_of_pairs(o@))
        },
    }
}

/// The models of the items of an array.
pub open spec fn jv_of_seq(s: Seq<JsonValue>) -> Seq<Jv>
    decreases s,
{
    if s.len() == 0 {
        Seq::<Jv>::empty()
    } else {
        proof {
            assert(decreases_to!(s => s.subrange(0, s.len() - 1)));
            assert(decreases_to!(s => s[s.len() - 1]));
        }
        jv_of_seq(s.subrange(0, s.len() - 1)).push(jv_of(s[s.len() - 1]))
    }
}

/// The models of the entries of an object.
pub open spec fn jv_of_pairs(s: Seq<(String, JsonValue)>) -> Seq<(Seq<char>, Jv)>
    decreases s,
{
    if s.len() == 0 {
        Seq::<(Seq<char>, Jv)>::empty()
    } else {
        proof {
            assert(decreases_to!(s => s.subrange(0, s.len() - 1)));
            assert(decreases_to!(s => s[s.len() - 1]));
            assert(decreases_to!(s[s.len() - 1] => s[s.len() - 1].1));
        }
        jv_of_pairs(s.subrange(0, s.len() - 1)).push(
            (s[s.len() - 1].0@, jv_of(s[s.len() - 1].1)),
        )
    }
}

impl View for JsonValue {
    type V = Jv;

    open spec fn view(&self) -> Jv {
        jv_of(*self)
    }
}

/// An array's model has one item model per item, in order.
pub proof fn lemma_jv_of_seq_props(s: Seq<JsonValue>)
    ensures
        jv_of_seq(s).len() == s.len(),
        forall|i: int| 0 <= i < s.len() ==> jv_of_seq(s)[i] == jv_of(s[i]),
    decreases s.len(),
{
    if s.len() > 0 {
        let pre = s.subrange(0, s.len() - 1);
        lemma_jv_of_seq_props(pre);
        assert(forall|i: int| 0 <= i < pre.len() ==> pre[i] == s[i]);
    }
}

/// An object's model has one entry model per entry, in order.
pub proof fn lemma_jv_of_pairs_props(s: Seq<(String, JsonValue)>)
    ensures
        jv_of_pairs(s).len() == s.len(),
        forall|i: int|
            0 <= i < s.len() ==> jv_of_pairs(s)[i] == (s[i].0@, jv_of(s[i].1)),
    decreases s.len(),
{
    if s.len() > 0 {
        let pre = s.subrange(0, s.len() - 1);
        lemma_jv_of_pairs_props(pre);
        assert(forall|i: int| 0 <= i < pre.len() ==> pre[i] == s[i]);
    }
}

impl Clone for JsonValue {
    /// A clone holds the same modeled value.
    #[verifier::loop_isolation(false)]
    fn clone(&self) -> (r: Self)
        ensures
            r@ == self@,
        decreases self,
    {
        match self {
            JsonValue::Null => JsonValue::Null,
            JsonValue::Bool(b) => JsonValue::Bool(*b),
            JsonValue::Int(i) => JsonValue::Int(*i),
            JsonValue::UInt(u) => JsonValue::UInt(*u),
            JsonValue::Float(t) => JsonValue::Float(t.clone()),
            JsonValue::Str(s) => JsonValue::Str(s.clone()),
            JsonValue::Array(a) => {
                let mut items: Vec<JsonValue> = Vec::new();
                let mut i: usize = 0;
                while i < a.len()
                    invariant
                        i <= a@.len(),
                        items@.len() == i,
                        forall|j: int| 0 <= j < i ==> items@[j]@ == a@[j]@,
                    decreases a@.len() - i,
                {
                    proof {
                        assert(decreases_to!(self => a));
                        assert(decreases_to!(a => a@));
                        assert(decreases_to!(a@ => a@[i as int]));
                        assert(decreases_to!(self => a@[i as int]));
                    }
                    items.push(a[i].clone());
                    i = i + 1;
                }
                let r = JsonValue::Array(items);
                proof {
                    lemma_jv_of_seq_props(items@);
                    lemma_jv_of_seq_props(a@);
                    assert(jv_of_seq(items@) =~= jv_of_seq(a@));
                }
                r
            },
            JsonValue::Object(o) => {
                let mut items: Vec<(String, JsonValue)> = Vec::new();
                let mut i: usize = 0;
                while i < o.len()
                    invariant
                        i <= o@.len(),
                        items@.len() == i,
                        forall|j: int|
                            0 <= j < i ==> items@[j].0@ == o@[j].0@ && items@[j].1@ == o@[j].1@,
                    decreases o@.len() - i,
                {
                    proof {
                        assert(decreases_to!(self => o));
                        assert(decreases_to!(o => o@));
                        assert(decreases_to!(o@ => o@[i as int]));
                        assert(decreases_to!(o@[i as int] => o@[i as int].1));
                        assert(decreases_to!(self => o@[i as int].1));
                    }
                    let key = o[i].0.clone();
                    let val = o[i].1.clone();
                    items.push((key, val));
                    i = i + 1;
                }
                let r = JsonValue::Object(items);
                proof {
                    lemma_jv_of_pairs_props(items@);
                    lemma_jv_of_pairs_props(o@);
                    assert(jv_of_pairs(items@) =~= jv_of_pairs(o@));
                }
                r
            },
        }
    }
}

} // verus!

//! A JSON value, the shape in which IR trees are exchanged with other
//! bindings.
use vstd::prelude::*;
use crate::text::str_eq;

verus! {

/// A JSON value; an object keeps its members in order.
#[derive(Debug, PartialEq)]
pub enum JsonValue {
    Null,
    Bool(bool),
    Int(i64),
    Str(String),
    Array(Vec<JsonValue>),
    Object(Vec<(String, JsonValue)>),
}

/// Ghost form of a JSON value.
pub enum JsonTerm {
    Null,
    Bool(bool),
    Int(int),
    Str(Seq<char>),
    Array(Seq<JsonTerm>),
    Object(Seq<(Seq<char>, JsonTerm)>),
}

impl JsonValue {
    /// The ghost form of this value.
    pub open spec fn term(&self) -> JsonTerm
        decreases self,
    {
        match self {
            JsonValue::Null => JsonTerm::Null,
            JsonValue::Bool(b) => JsonTerm::Bool(*b),
            JsonValue::Int(n) => JsonTerm::Int(*n as int),
            JsonValue::Str(s) => JsonTerm::Str(s@),
            JsonValue::Array(v) => JsonTerm::Array(
                Seq::new(
                    v.len() as nat,
                    |i: int|
                        if 0 <= i < v.len() {
                            v[i].term()
                        } else {
                            JsonTerm::Null
                        },
                ),
            ),
            JsonValue::Object(v) => JsonTerm::Object(
                Seq::new(
                    v.len() as nat,
                    |i: int|
                        if 0 <= i < v.len() {
                            (v[i].0@, v[i].1.term())
                        } else {
                            (Seq::empty(), JsonTerm::Null)
                        },
                ),
            ),
        }
    }

    /// The value of the first member named `key`, for an object.
    pub fn get(&self, key: &str) -> (r: Option<&JsonValue>)
        ensures
            r is Some ==> self is Object && exists|i: int|
                0 <= i < self->Object_0.len() && self->Object_0[i].0@ == key@ && r == Some(
                    &self->Object_0[i].1,
                ),
            r is None ==> !(self is Object) || forall|i: int|
                0 <= i < self->Object_0.len() ==> #[trigger] self->Object_0[i].0@ != key@,
    {
        match self {
            JsonValue::Object(members) => {
                let mut i: usize = 0;
                while i < members.len()
                    invariant
                        self is Object,
                        self->Object_0 == *members,
                        i <= members.len(),
                        forall|j: int| 0 <= j < i ==> #[trigger] members[j].0@ != key@,
                    decreases members.len() - i,
                {
                    if str_eq(members[i].0.as_str(), key) {
                        let r = Some(&members[i].1);
                        assert(self->Object_0[i as int].0@ == key@ && r == Some(&self->Object_0[i as int].1));
                        return r;
                    }
                    i = i + 1;
                }
                None
            },
            _ => None,
        }
    }
}

} // verus!

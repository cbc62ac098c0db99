//! JSON-like values, their mathematical model, and keyed member lists.

use vstd::prelude::*;
use crate::keyed::pairs_view;

verus! {

/// A JSON-like value.
#[derive(Debug, PartialEq, Eq)]
pub enum Value {
    Null,
    Bool(bool),
    /// A number, held as its JSON text (such as `42` or `-1.5e3`). A value
    /// is well formed (`number::well_formed`) when every such text is in
    /// JSON number syntax; only then is its canonical text JSON.
    Number(String),
    String(String),
    Array(Vec<Value>),
    /// Members in stored order. When a key occurs twice, the later member is
    /// the one that counts, as when a JSON object is read.
    Object(Vec<(String, Value)>),
}

/// The model of a [`Value`].
pub enum JVal {
    Null,
    Bool(bool),
    Number(Seq<char>),
    String(Seq<char>),
    Array(Seq<JVal>),
    Object(Seq<(Seq<char>, JVal)>),
}

pub open spec fn value_view(v: Value) -> JVal
    decreases v,
{
    match v {
        Value::Null => JVal::Null,
        Value::Bool(b) => JVal::Bool(b),
        Value::Number(t) => JVal::Number(t@),
        Value::String(s) => JVal::String(s@),
        Value::Array(items) => JVal::Array(items_view(items@)),
        Value::Object(members) => JVal::Object(members_view(members@)),
    }
}

pub open spec fn items_view(items: Seq<Value>) -> Seq<JVal>
    decreases items,
{
    if items.len() == 0 {
        Seq::empty()
    } else {
        items_view(items.subrange(0, items.len() - 1)).push(value_view(items[items.len() - 1]))
    }
}

pub open spec fn members_view(members: Seq<(String, Value)>) -> Seq<(Seq<char>, JVal)>
    decreases members,
{
    if members.len() == 0 {
        Seq::empty()
    } else {
        let m = members[members.len() - 1];
        members_view(members.subrange(0, members.len() - 1)).push((m.0@, value_view(m.1)))
    }
}

impl View for Value {
    type V = JVal;

    open spec fn view(&self) -> JVal {
        value_view(*self)
    }
}

pub proof fn lemma_items_view(items: Seq<Value>)
    ensures
        items_view(items).len() == items.len(),
        forall|i: int| 0 <= i < items.len() ==> #[trigger] items_view(items)[i] == value_view(items[i]),
    decreases items.len(),
{
    if items.len() > 0 {
        let front = items.subrange(0, items.len() - 1);
        lemma_items_view(front);
        assert forall|i: int| 0 <= i < items.len() implies #[trigger] items_view(items)[i] == value_view(items[i]) by {
            if i < items.len() - 1 {
                assert(front[i] == items[i]);
            }
        }
    }
}

pub proof fn lemma_members_view(members: Seq<(String, Value)>)
    ensures
        members_view(members).len() == members.len(),
        forall|i: int| 0 <= i < members.len() ==> #[trigger] members_view(members)[i] == (members[i].0@, value_view(members[i].1)),
    decreases members.len(),
{
    if members.len() > 0 {
        let front = members.subrange(0, members.len() - 1);
        lemma_members_view(front);
        assert forall|i: int| 0 <= i < members.len() implies #[trigger] members_view(members)[i] == (members[i].0@, value_view(members[i].1)) by {
            if i < members.len() - 1 {
                assert(front[i] == members[i]);
            }
        }
    }
}

pub proof fn lemma_members_pairs(members: Seq<(String, Value)>)
    ensures
        members_view(members) == pairs_view(members),
{
    lemma_members_view(members);
    assert(members_view(members) =~= pairs_view(members));
}

/// A copy of `v` with the same model.
pub fn copy_value(v: &Value) -> (r: Value)
    ensures
        r@ == v@,
    decreases v,
{
    match v {
        Value::Null => Value::Null,
        Value::Bool(b) => Value::Bool(*b),
        Value::Number(t) => Value::Number(t.clone()),
        Value::String(s) => Value::String(s.clone()),
        Value::Array(items) => {
            let mut out: Vec<Value> = Vec::new();
            let mut i: usize = 0;
            while i < items.len()
                invariant
                    i <= items.len(),
                    out@.len() == i,
                    *v == Value::Array(*items),
                    items_view(out@) == items_view(items@.subrange(0, i as int)),
                decreases items.len() - i,
            {
                proof {
                    vstd::std_specs::vec::axiom_vec_index_decreases(*items, i as int);
                    assert(decreases_to!(*v => v->Array_0));
                }
                let c = copy_value(&items[i]);
                let ghost before = out@;
                out.push(c);
                proof {
                    assert(out@.subrange(0, i as int) == before);
                    assert(items@.subrange(0, i + 1).subrange(0, i as int) == items@.subrange(0, i as int));
                }
                i += 1;
            }
            assert(items@.subrange(0, items.len() as int) == items@);
            Value::Array(out)
        },
        Value::Object(members) => {
            let mut out: Vec<(String, Value)> = Vec::new();
            let mut i: usize = 0;
            while i < members.len()
                invariant
                    i <= members.len(),
                    out@.len() == i,
                    *v == Value::Object(*members),
                    members_view(out@) == members_view(members@.subrange(0, i as int)),
                decreases members.len() - i,
            {
                proof {
                    vstd::std_specs::vec::axiom_vec_index_decreases(*members, i as int);
                    assert(decreases_to!(*v => v->Object_0));
                    assert(decreases_to!(members[i as int] => members[i as int].1));
                }
                let c = copy_value(&members[i].1);
                let ghost before = out@;
                out.push((members[i].0.clone(), c));
                proof {
                    assert(out@.subrange(0, i as int) == before);
                    assert(members@.subrange(0, i + 1).subrange(0, i as int) == members@.subrange(0, i as int));
                }
                i += 1;
            }
            assert(members@.subrange(0, members.len() as int) == members@);
            Value::Object(out)
        },
    }
}

impl Clone for Value {
    fn clone(&self) -> Self {
        copy_value(self)
    }
}

} // verus!

//! Compact JSON text of values.

use vstd::prelude::*;
use crate::value::{Value, JVal, value_view, items_view, members_view, lemma_items_view, lemma_members_view};
use crate::canonical::{canon, canonicalize};

verus! {

/// A lowercase hexadecimal digit, for `n` below 16.
pub open spec fn hex_digit(n: int) -> char {
    seq!['0', '1', '2', '3', '4', '5', '6', '7', '8', '9', 'a', 'b', 'c', 'd', 'e', 'f'][n]
}

/// How one character is written inside a JSON string literal.
pub open spec fn escaped_char(c: char) -> Seq<char> {
    if c == '"' {
        seq!['\\', '"']
    } else if c == '\\' {
        seq!['\\', '\\']
    } else if c == '\u{8}' {
        seq!['\\', 'b']
    } else if c == '\t' {
        seq!['\\', 't']
    } else if c == '\n' {
        seq!['\\', 'n']
    } else if c == '\u{c}' {
        seq!['\\', 'f']
    } else if c == '\r' {
        seq!['\\', 'r']
    } else if (c as u32) < 0x20 {
        seq!['\\', 'u', '0', '0', hex_digit((c as int) / 16), hex_digit((c as int) % 16)]
    } else {
        seq![c]
    }
}

pub open spec fn escaped(s: Seq<char>) -> Seq<char>
    decreases s.len(),
{
    if s.len() == 0 {
        Seq::empty()
    } else {
        escaped(s.drop_last()) + escaped_char(s.last())
    }
}

/// The JSON string literal of `s`: quoted, with `"`, `\` and control
/// characters escaped.
pub open spec fn json_string_literal(s: Seq<char>) -> Seq<char> {
    seq!['"'] + escaped(s) + seq!['"']
}

/// Relies on serde_json::to_string on a `str`: it writes the JSON string
/// literal of `s` into a byte vector, which cannot fail.
#[verifier::external_body]
fn quote(s: &str) -> (r: Option<String>)
    ensures
        r is Some && r->0@ == json_string_literal(s@),
{
    serde_json::to_string(s).ok()
}

/// The compact JSON text of a value: no whitespace, members in stored order.
pub open spec fn value_text(v: JVal) -> Seq<char>
    decreases v,
{
    match v {
        JVal::Null => "null"@,
        JVal::Bool(b) => if b {
            "true"@
        } else {
            "false"@
        },
        JVal::Number(t) => t,
        JVal::String(s) => json_string_literal(s),
        JVal::Array(items) => "["@ + items_text(items) + "]"@,
        JVal::Object(members) => "{"@ + members_text(members) + "}"@,
    }
}

pub open spec fn items_text(items: Seq<JVal>) -> Seq<char>
    decreases items,
{
    if items.len() == 0 {
        Seq::empty()
    } else if items.len() == 1 {
        value_text(items[0])
    } else {
        items_text(items.subrange(0, items.len() - 1)) + ","@ + value_text(items[items.len() - 1])
    }
}

pub open spec fn members_text(members: Seq<(Seq<char>, JVal)>) -> Seq<char>
    decreases members,
{
    if members.len() == 0 {
        Seq::empty()
    } else {
        let m = members[members.len() - 1];
        let last = json_string_literal(m.0) + ":"@ + value_text(m.1);
        if members.len() == 1 {
            last
        } else {
            members_text(members.subrange(0, members.len() - 1)) + ","@ + last
        }
    }
}

fn push_quoted(out: &mut String, s: &str)
    ensures
        final(out)@ == old(out)@ + json_string_literal(s@),
{
    match quote(s) {
        Some(q) => out.append(q.as_str()),
        None => {},
    }
}

/// Appends the compact JSON text of `v` to `out`.
pub fn write_value(v: &Value, out: &mut String)
    ensures
        final(out)@ == old(out)@ + value_text(v@),
    decreases v,
{
    match v {
        Value::Null => out.append("null"),
        Value::Bool(b) => if *b {
            out.append("true")
        } else {
            out.append("false")
        },
        Value::Number(t) => out.append(t.as_str()),
        Value::String(s) => push_quoted(out, s.as_str()),
        Value::Array(items) => {
            let ghost start = out@;
            out.append("[");
            let mut i: usize = 0;
            while i < items.len()
                invariant
                    i <= items.len(),
                    *v == Value::Array(*items),
                    out@ == start + "["@ + items_text(items_view(items@.subrange(0, i as int))),
                decreases items.len() - i,
            {
                proof {
                    vstd::std_specs::vec::axiom_vec_index_decreases(*items, i as int);
                    assert(decreases_to!(*v => v->Array_0));
                }
                if i > 0 {
                    out.append(",");
                }
                write_value(&items[i], out);
                proof {
                    let prev = items_view(items@.subrange(0, i as int));
                    let next = items_view(items@.subrange(0, i + 1));
                    assert(items@.subrange(0, i + 1).subrange(0, i as int) == items@.subrange(0, i as int));
                    assert(items@.subrange(0, i + 1)[i as int] == items@[i as int]);
                    assert(next == prev.push(value_view(items@[i as int])));
                    lemma_items_view(items@.subrange(0, i as int));
                    assert(next.subrange(0, i as int) =~= prev);
                    if i == 0 {
                        assert(prev =~= Seq::<JVal>::empty());
                        assert(items_text(prev) =~= Seq::<char>::empty());
                        assert(out@ =~= start + "["@ + items_text(next));
                    } else {
                        assert(out@ =~= start + "["@ + items_text(next));
                    }
                }
                i += 1;
            }
            assert(items@.subrange(0, items.len() as int) == items@);
            out.append("]");
        },
        Value::Object(members) => {
            let ghost start = out@;
            out.append("{");
            let mut i: usize = 0;
            while i < members.len()
                invariant
                    i <= members.len(),
                    *v == Value::Object(*members),
                    out@ == start + "{"@ + members_text(members_view(members@.subrange(0, i as int))),
                decreases members.len() - i,
            {
                proof {
                    vstd::std_specs::vec::axiom_vec_index_decreases(*members, i as int);
                    assert(decreases_to!(*v => v->Object_0));
                    assert(decreases_to!(members[i as int] => members[i as int].1));
                }
                if i > 0 {
                    out.append(",");
                }
                push_quoted(out, members[i].0.as_str());
                out.append(":");
                write_value(&members[i].1, out);
                proof {
                    let prev = members_view(members@.subrange(0, i as int));
                    let next = members_view(members@.subrange(0, i + 1));
                    assert(members@.subrange(0, i + 1).subrange(0, i as int) == members@.subrange(0, i as int));
                    assert(members@.subrange(0, i + 1)[i as int] == members@[i as int]);
                    assert(next == prev.push((members@[i as int].0@, value_view(members@[i as int].1))));
                    lemma_members_view(members@.subrange(0, i as int));
                    assert(next.subrange(0, i as int) =~= prev);
                    if i == 0 {
                        assert(prev =~= Seq::<(Seq<char>, JVal)>::empty());
                        assert(members_text(prev) =~= Seq::<char>::empty());
                        assert(out@ =~= start + "{"@ + members_text(next));
                    } else {
                        assert(out@ =~= start + "{"@ + members_text(next));
                    }
                }
                i += 1;
            }
            assert(members@.subrange(0, members.len() as int) == members@);
            out.append("}");
        },
    }
}

/// The canonical JSON text of `v`: its canonical form, written compactly.
pub fn canonical_stringify(v: &Value) -> (r: String)
    ensures
        r@ == value_text(canon(v@)),
{
    let c = canonicalize(v);
    let mut out = String::new();
    write_value(&c, &mut out);
    assert(out@ =~= value_text(c@));
    out
}

} // verus!

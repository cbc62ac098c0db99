//! Well-formed values: every number is written in JSON number syntax.

use vstd::prelude::*;
use vstd::string::StrSliceExecFns;
use crate::value::{Value, JVal, value_view, items_view, members_view, lemma_items_view, lemma_members_view};

verus! {

pub open spec fn is_digit(c: char) -> bool {
    '0' <= c <= '9'
}

/// The first position at or after `i` that does not hold a digit.
pub open spec fn digits_end(s: Seq<char>, i: int) -> int
    decreases s.len() - i,
{
    if 0 <= i < s.len() && is_digit(s[i]) {
        digits_end(s, i + 1)
    } else {
        i
    }
}

/// The end of the integer part starting at `a` (`0`, or a non-zero digit
/// and more digits), or -1.
pub open spec fn int_end(s: Seq<char>, a: int) -> int {
    if 0 <= a < s.len() && s[a] == '0' {
        a + 1
    } else if 0 <= a < s.len() && is_digit(s[a]) {
        digits_end(s, a)
    } else {
        -1
    }
}

/// The end of an optional fraction (`.` and digits) at `b`, or -1.
pub open spec fn frac_end(s: Seq<char>, b: int) -> int {
    if 0 <= b < s.len() && s[b] == '.' {
        if digits_end(s, b + 1) == b + 1 {
            -1
        } else {
            digits_end(s, b + 1)
        }
    } else {
        b
    }
}

/// The end of an optional exponent (`e` or `E`, a sign, digits) at `c`,
/// or -1.
pub open spec fn exp_end(s: Seq<char>, c: int) -> int {
    if 0 <= c < s.len() && (s[c] == 'e' || s[c] == 'E') {
        let f = if c + 1 < s.len() && (s[c + 1] == '+' || s[c + 1] == '-') {
            c + 2
        } else {
            c + 1
        };
        if digits_end(s, f) == f {
            -1
        } else {
            digits_end(s, f)
        }
    } else {
        c
    }
}

/// JSON number syntax: `-?(0|[1-9][0-9]*)(\.[0-9]+)?([eE][+-]?[0-9]+)?`.
pub open spec fn is_json_number(s: Seq<char>) -> bool {
    let a: int = if s.len() > 0 && s[0] == '-' {
        1
    } else {
        0
    };
    let b = int_end(s, a);
    b >= 0 && frac_end(s, b) >= 0 && exp_end(s, frac_end(s, b)) == s.len()
}

/// Every number in the value is in JSON number syntax, so its text is JSON.
pub open spec fn well_formed(v: JVal) -> bool
    decreases v,
{
    match v {
        JVal::Number(t) => is_json_number(t),
        JVal::Array(items) => items_well_formed(items),
        JVal::Object(members) => members_well_formed(members),
        _ => true,
    }
}

pub open spec fn items_well_formed(items: Seq<JVal>) -> bool
    decreases items,
{
    if items.len() == 0 {
        true
    } else {
        items_well_formed(items.subrange(0, items.len() - 1)) && well_formed(items[items.len() - 1])
    }
}

pub open spec fn members_well_formed(members: Seq<(Seq<char>, JVal)>) -> bool
    decreases members,
{
    if members.len() == 0 {
        true
    } else {
        members_well_formed(members.subrange(0, members.len() - 1)) && well_formed(members[members.len() - 1].1)
    }
}

fn digits_from(s: &str, n: usize, i: usize) -> (r: usize)
    requires
        n == s@.len(),
        i <= n,
    ensures
        r == digits_end(s@, i as int),
        i <= r <= n,
{
    let mut j = i;
    while j < n && is_digit_char(s.get_char(j))
        invariant
            i <= j <= n,
            n == s@.len(),
            digits_end(s@, i as int) == digits_end(s@, j as int),
        decreases n - j,
    {
        j += 1;
    }
    j
}

fn is_digit_char(c: char) -> (r: bool)
    ensures
        r == is_digit(c),
{
    '0' <= c && c <= '9'
}

/// Whether `s` is in JSON number syntax.
pub fn json_number(s: &str) -> (r: bool)
    ensures
        r == is_json_number(s@),
{
    let n = s.unicode_len();
    let a: usize = if n > 0 && s.get_char(0) == '-' {
        1
    } else {
        0
    };
    if a >= n {
        return false;
    }
    let first = s.get_char(a);
    let b = if first == '0' {
        a + 1
    } else if is_digit_char(first) {
        digits_from(s, n, a)
    } else {
        return false;
    };
    let c = if b < n && s.get_char(b) == '.' {
        let d = digits_from(s, n, b + 1);
        if d == b + 1 {
            return false;
        }
        d
    } else {
        b
    };
    let e = if c < n && (s.get_char(c) == 'e' || s.get_char(c) == 'E') {
        let f = if c + 1 < n && (s.get_char(c + 1) == '+' || s.get_char(c + 1) == '-') {
            c + 2
        } else {
            c + 1
        };
        let g = digits_from(s, n, f);
        if g == f {
            return false;
        }
        g
    } else {
        c
    };
    e == n
}

/// Whether every number in `v` is in JSON number syntax.
pub fn is_well_formed(v: &Value) -> (r: bool)
    ensures
        r == well_formed(v@),
    decreases v,
{
    match v {
        Value::Number(t) => json_number(t.as_str()),
        Value::Array(items) => {
            let mut i: usize = 0;
            while i < items.len()
                invariant
                    i <= items.len(),
                    *v == Value::Array(*items),
                    items_well_formed(items_view(items@.subrange(0, i as int))),
                decreases items.len() - i,
            {
                proof {
                    vstd::std_specs::vec::axiom_vec_index_decreases(*items, i as int);
                    assert(decreases_to!(*v => v->Array_0));
                }
                let ok = is_well_formed(&items[i]);
                proof {
                    let prev = items_view(items@.subrange(0, i as int));
                    let next = items_view(items@.subrange(0, i + 1));
                    assert(items@.subrange(0, i + 1).subrange(0, i as int) == items@.subrange(0, i as int));
                    assert(items@.subrange(0, i + 1)[i as int] == items@[i as int]);
                    assert(next == prev.push(value_view(items@[i as int])));
                    lemma_items_view(items@.subrange(0, i as int));
                    assert(next.subrange(0, i as int) =~= prev);
                }
                if !ok {
                    proof {
                        lemma_items_view(items@);
                        lemma_items_not_well_formed(items_view(items@), i as int);
                    }
                    return false;
                }
                i += 1;
            }
            assert(items@.subrange(0, items.len() as int) == items@);
            true
        },
        Value::Object(members) => {
            let mut i: usize = 0;
            while i < members.len()
                invariant
                    i <= members.len(),
                    *v == Value::Object(*members),
                    members_well_formed(members_view(members@.subrange(0, i as int))),
                decreases members.len() - i,
            {
                proof {
                    vstd::std_specs::vec::axiom_vec_index_decreases(*members, i as int);
                    assert(decreases_to!(*v => v->Object_0));
                    assert(decreases_to!(members[i as int] => members[i as int].1));
                }
                let ok = is_well_formed(&members[i].1);
                proof {
                    let prev = members_view(members@.subrange(0, i as int));
                    let next = members_view(members@.subrange(0, i + 1));
                    assert(members@.subrange(0, i + 1).subrange(0, i as int) == members@.subrange(0, i as int));
                    assert(members@.subrange(0, i + 1)[i as int] == members@[i as int]);
                    assert(next == prev.push((members@[i as int].0@, value_view(members@[i as int].1))));
                    lemma_members_view(members@.subrange(0, i as int));
                    assert(next.subrange(0, i as int) =~= prev);
                }
                if !ok {
                    proof {
                        lemma_members_view(members@);
                        lemma_members_not_well_formed(members_view(members@), i as int);
                    }
                    return false;
                }
                i += 1;
            }
            assert(members@.subrange(0, members.len() as int) == members@);
            true
        },
        _ => true,
    }
}

pub proof fn lemma_items_not_well_formed(items: Seq<JVal>, i: int)
    requires
        0 <= i < items.len(),
        !well_formed(items[i]),
    ensures
        !items_well_formed(items),
    decreases items.len(),
{
    if i < items.len() - 1 {
        let front = items.subrange(0, items.len() - 1);
        assert(front[i] == items[i]);
        lemma_items_not_well_formed(front, i);
    }
}

pub proof fn lemma_members_not_well_formed(members: Seq<(Seq<char>, JVal)>, i: int)
    requires
        0 <= i < members.len(),
        !well_formed(members[i].1),
    ensures
        !members_well_formed(members),
    decreases members.len(),
{
    if i < members.len() - 1 {
        let front = members.subrange(0, members.len() - 1);
        assert(front[i] == members[i]);
        lemma_members_not_well_formed(front, i);
    }
}

} // verus!

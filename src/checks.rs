//! Shape checks on entries and commits, which report every violation.

use vstd::prelude::*;
use crate::value::{Value, JVal};
use crate::number::{well_formed, is_well_formed};
use crate::record::{Entry, Commit, EntryView, CommitView, ValidationReport, texts};

verus! {

pub open spec fn note_if(cond: bool, message: Seq<char>) -> Seq<Seq<char>> {
    if cond {
        seq![message]
    } else {
        Seq::empty()
    }
}

/// The violations of an entry's shape.
pub open spec fn entry_problems(e: EntryView) -> Seq<Seq<char>> {
    note_if(e.kind.len() == 0, "Entry.kind must be a non-empty string"@)
        + note_if(e.timestamp.len() == 0, "Entry.timestamp must be a non-empty string"@)
        + note_if(e.author.len() == 0, "Entry.author must be a non-empty string"@)
        + note_if(!payload_ok(e.payload), "Entry.payload must be canonicalizable: a number is not in JSON syntax"@)
}

/// An absent payload, or one whose numbers are all in JSON syntax.
pub open spec fn payload_ok(p: Option<JVal>) -> bool {
    match p {
        Some(v) => well_formed(v),
        None => true,
    }
}

pub open spec fn metadata_ok(m: Option<JVal>) -> bool {
    match m {
        Some(JVal::Null) | Some(JVal::Object(_)) | None => true,
        _ => false,
    }
}

/// The violations of a commit's shape.
pub open spec fn commit_problems(c: CommitView) -> Seq<Seq<char>> {
    note_if(c.timestamp.len() == 0, "Commit.timestamp must be a non-empty string"@)
        + note_if(c.parent is Some && c.parent->0.len() == 0, "Commit.parent must be a non-empty string or null"@)
        + note_if(!metadata_ok(c.metadata), "Commit.metadata must be an object or null"@)
}

/// `parts` separated by `sep`.
pub open spec fn join(parts: Seq<Seq<char>>, sep: Seq<char>) -> Seq<char>
    decreases parts.len(),
{
    if parts.len() == 0 {
        Seq::empty()
    } else if parts.len() == 1 {
        parts[0]
    } else {
        join(parts.drop_last(), sep) + sep + parts.last()
    }
}

fn note(out: &mut Vec<String>, cond: bool, message: &str)
    ensures
        texts(final(out)@) == texts(old(out)@) + note_if(cond, message@),
{
    let ghost before = out@;
    if cond {
        out.push(message.to_owned());
        assert(texts(out@) =~= texts(before) + note_if(cond, message@));
    } else {
        assert(texts(out@) =~= texts(before) + note_if(cond, message@));
    }
}

/// Every violation of the entry's shape, in a fixed order.
pub fn entry_problem_list(entry: &Entry) -> (r: Vec<String>)
    ensures
        texts(r@) == entry_problems(entry@),
{
    let mut out: Vec<String> = Vec::new();
    assert(texts(out@) =~= Seq::<Seq<char>>::empty());
    note(&mut out, entry.kind.as_str().is_empty(), "Entry.kind must be a non-empty string");
    note(&mut out, entry.timestamp.as_str().is_empty(), "Entry.timestamp must be a non-empty string");
    note(&mut out, entry.author.as_str().is_empty(), "Entry.author must be a non-empty string");
    let payload_fine = match &entry.payload {
        Some(v) => is_well_formed(v),
        None => true,
    };
    note(&mut out, !payload_fine, "Entry.payload must be canonicalizable: a number is not in JSON syntax");
    assert(texts(out@) =~= entry_problems(entry@));
    out
}

fn metadata_allowed(m: &Option<Value>) -> (r: bool)
    ensures
        r == metadata_ok(crate::record::opt_value(*m)),
{
    match m {
        Some(Value::Null) | Some(Value::Object(_)) | None => true,
        _ => false,
    }
}

/// Every violation of the commit's shape, in a fixed order.
pub fn commit_problem_list(commit: &Commit) -> (r: Vec<String>)
    ensures
        texts(r@) == commit_problems(commit@),
{
    let mut out: Vec<String> = Vec::new();
    assert(texts(out@) =~= Seq::<Seq<char>>::empty());
    note(&mut out, commit.timestamp.as_str().is_empty(), "Commit.timestamp must be a non-empty string");
    let bad_parent = match &commit.parent {
        Some(p) => p.as_str().is_empty(),
        None => false,
    };
    note(&mut out, bad_parent, "Commit.parent must be a non-empty string or null");
    note(&mut out, !metadata_allowed(&commit.metadata), "Commit.metadata must be an object or null");
    assert(texts(out@) =~= commit_problems(commit@));
    out
}

/// `parts` separated by `sep`.
pub fn join_texts(parts: &Vec<String>, sep: &str) -> (r: String)
    ensures
        r@ == join(texts(parts@), sep@),
{
    let mut out = String::new();
    let mut i: usize = 0;
    while i < parts.len()
        invariant
            i <= parts@.len(),
            out@ == join(texts(parts@.subrange(0, i as int)), sep@),
        decreases parts@.len() - i,
    {
        if i > 0 {
            out.append(sep);
        }
        out.append(parts[i].as_str());
        proof {
            let prev = texts(parts@.subrange(0, i as int));
            let next = texts(parts@.subrange(0, i + 1));
            assert(next.drop_last() =~= prev);
            assert(next.last() == parts@[i as int]@);
            if i == 0 {
                assert(out@ =~= join(next, sep@));
            }
        }
        i += 1;
    }
    assert(parts@.subrange(0, parts@.len() as int) =~= parts@);
    out
}

/// Checks an entry's shape.
pub fn validate_entry(entry: &Entry) -> (r: ValidationReport)
    ensures
        texts(r.errors@) == entry_problems(entry@),
        r.ok == (entry_problems(entry@).len() == 0),
{
    let errors = entry_problem_list(entry);
    ValidationReport { ok: errors.len() == 0, errors }
}

/// Checks a commit's shape, without looking anything up.
pub fn validate_commit(commit: &Commit) -> (r: ValidationReport)
    ensures
        texts(r.errors@) == commit_problems(commit@),
        r.ok == (commit_problems(commit@).len() == 0),
{
    let errors = commit_problem_list(commit);
    ValidationReport { ok: errors.len() == 0, errors }
}

} // verus!

//! Normalization of raw dependency lines into bare identifiers: a dependency
//! entry loses everything from its first version-constraint character (`>` or
//! `=`) on, an optional-dependency entry loses its `:`-delimited description,
//! and either loses the whitespace left next to the cut.

use vstd::prelude::*;
use vstd::string::StrSliceExecFns;

use crate::text::is_space;
use crate::text::is_space_char;
use crate::text::lemma_trim_back_last;
use crate::text::lemma_trim_back_noop;
use crate::text::lemma_trim_back_prefix;
use crate::text::lemma_trim_back_range;
use crate::text::trim_back;

verus! {

/// Index of the first version-constraint character (`>` or `=`) in `l`, or
/// `l.len()` when there is none.
pub open spec fn constraint_start(l: Seq<char>) -> int
    decreases l.len(),
{
    if l.len() == 0 {
        0
    } else if l.first() == '>' || l.first() == '=' {
        0
    } else {
        1 + constraint_start(l.drop_first())
    }
}

/// Index of the first annotation character (`:`) in `l`, or `l.len()` when
/// there is none.
pub open spec fn annotation_start(l: Seq<char>) -> int
    decreases l.len(),
{
    if l.len() == 0 {
        0
    } else if l.first() == ':' {
        0
    } else {
        1 + annotation_start(l.drop_first())
    }
}

/// A dependency entry as the parser records it: the text before the first
/// version constraint, with trailing whitespace removed.
pub open spec fn normalized_dep(l: Seq<char>) -> Seq<char> {
    trim_back(l.subrange(0, constraint_start(l)))
}

/// An optional-dependency entry as the parser records it: the text before the
/// first `:`, with trailing whitespace removed.
pub open spec fn normalized_opt(l: Seq<char>) -> Seq<char> {
    trim_back(l.subrange(0, annotation_start(l)))
}

pub proof fn lemma_constraint_start(l: Seq<char>)
    ensures
        0 <= constraint_start(l) <= l.len(),
        forall|k: int|
            0 <= k < constraint_start(l) ==> !(l[k] == '>' || l[k] == '='),
        constraint_start(l) < l.len() ==> (l[constraint_start(l)] == '>' || l[constraint_start(
            l,
        )] == '='),
    decreases l.len(),
{
    if l.len() == 0 {
    } else if l.first() == '>' || l.first() == '=' {
    } else {
        let l2 = l.drop_first();
        lemma_constraint_start(l2);
        assert forall|k: int| 0 <= k < constraint_start(l) implies !(l[k] == '>' || l[k]
            == '=') by {
            if k > 0 {
                assert(l[k] == l2[k - 1]);
            }
        }
        if constraint_start(l) < l.len() {
            assert(l[constraint_start(l)] == l2[constraint_start(l2)]);
        }
    }
}

pub proof fn lemma_annotation_start(l: Seq<char>)
    ensures
        0 <= annotation_start(l) <= l.len(),
        forall|k: int| 0 <= k < annotation_start(l) ==> l[k] != ':',
        annotation_start(l) < l.len() ==> l[annotation_start(l)] == ':',
    decreases l.len(),
{
    if l.len() == 0 {
    } else if l.first() == ':' {
    } else {
        let l2 = l.drop_first();
        lemma_annotation_start(l2);
        assert forall|k: int| 0 <= k < annotation_start(l) implies l[k] != ':' by {
            if k > 0 {
                assert(l[k] == l2[k - 1]);
            }
        }
        if annotation_start(l) < l.len() {
            assert(l[annotation_start(l)] == l2[annotation_start(l2)]);
        }
    }
}

fn is_constraint_char(c: char) -> (r: bool)
    ensures
        r == (c == '>' || c == '='),
{
    c == '>' || c == '='
}

fn is_annotation_char(c: char) -> (r: bool)
    ensures
        r == (c == ':'),
{
    c == ':'
}

/// Strips the version constraint, if any, from one dependency line and trims
/// the whitespace left before the cut.
pub fn normalize_dependency(line: &str) -> (r: String)
    ensures
        r@ == normalized_dep(line@),
{
    let n = line.unicode_len();
    let mut c: usize = 0;
    while c < n && !is_constraint_char(line.get_char(c))
        invariant
            c <= n,
            n == line@.len(),
            forall|k: int| 0 <= k < c ==> !(line@[k] == '>' || line@[k] == '='),
        decreases n - c,
    {
        c = c + 1;
    }
    proof {
        lemma_constraint_start(line@);
        if constraint_start(line@) < c as int {
            assert(!(line@[constraint_start(line@)] == '>' || line@[constraint_start(line@)]
                == '='));
        }
        assert(constraint_start(line@) == c as int);
    }
    let mut e: usize = c;
    while e > 0 && is_space(line.get_char(e - 1))
        invariant
            e <= c,
            c <= n,
            n == line@.len(),
            forall|k: int| e <= k < c ==> is_space_char(line@[k]),
        decreases e,
    {
        e = e - 1;
    }
    proof {
        let m = line@.subrange(0, c as int);
        lemma_trim_back_range(m, e as int);
        assert(m.subrange(0, e as int) =~= line@.subrange(0, e as int));
    }
    line.substring_char(0, e).to_owned()
}

/// Strips the `:`-delimited description, if any, from one optional-dependency
/// line and trims the whitespace left before the cut.
pub fn normalize_opt_dependency(line: &str) -> (r: String)
    ensures
        r@ == normalized_opt(line@),
{
    let n = line.unicode_len();
    let mut c: usize = 0;
    while c < n && !is_annotation_char(line.get_char(c))
        invariant
            c <= n,
            n == line@.len(),
            forall|k: int| 0 <= k < c ==> line@[k] != ':',
        decreases n - c,
    {
        c = c + 1;
    }
    proof {
        lemma_annotation_start(line@);
        if annotation_start(line@) < c as int {
            assert(line@[annotation_start(line@)] != ':');
        }
        assert(annotation_start(line@) == c as int);
    }
    let mut e: usize = c;
    while e > 0 && is_space(line.get_char(e - 1))
        invariant
            e <= c,
            c <= n,
            n == line@.len(),
            forall|k: int| e <= k < c ==> is_space_char(line@[k]),
        decreases e,
    {
        e = e - 1;
    }
    proof {
        let m = line@.subrange(0, c as int);
        lemma_trim_back_range(m, e as int);
        assert(m.subrange(0, e as int) =~= line@.subrange(0, e as int));
    }
    line.substring_char(0, e).to_owned()
}

/// Law: a dependency line that holds no version-constraint character and does
/// not end in whitespace is already normalized, so normalizing it changes
/// nothing.
pub proof fn lemma_normalize_dep_plain(l: Seq<char>)
    requires
        forall|k: int| 0 <= k < l.len() ==> !(l[k] == '>' || l[k] == '='),
        l.len() == 0 || !is_space_char(l.last()),
    ensures
        normalized_dep(l) == l,
{
    lemma_constraint_start(l);
    assert(constraint_start(l) == l.len());
    assert(l.subrange(0, l.len() as int) =~= l);
    lemma_trim_back_noop(l);
}

/// Law: normalizing an already-normalized dependency identifier is a no-op.
pub proof fn lemma_normalize_dep_idempotent(l: Seq<char>)
    ensures
        normalized_dep(normalized_dep(l)) == normalized_dep(l),
{
    lemma_constraint_start(l);
    let pre = l.subrange(0, constraint_start(l));
    let r = trim_back(pre);
    lemma_trim_back_prefix(pre);
    lemma_trim_back_last(pre);
    assert forall|k: int| 0 <= k < r.len() implies !(r[k] == '>' || r[k] == '=') by {
        assert(r[k] == pre.subrange(0, r.len() as int)[k]);
    }
    lemma_normalize_dep_plain(r);
}

/// Law: normalizing an already-normalized optional-dependency identifier is a
/// no-op.
pub proof fn lemma_normalize_opt_idempotent(l: Seq<char>)
    ensures
        normalized_opt(normalized_opt(l)) == normalized_opt(l),
{
    lemma_annotation_start(l);
    let pre = l.subrange(0, annotation_start(l));
    let r = trim_back(pre);
    lemma_trim_back_prefix(pre);
    lemma_trim_back_last(pre);
    assert forall|k: int| 0 <= k < r.len() implies r[k] != ':' by {
        assert(r[k] == pre.subrange(0, r.len() as int)[k]);
    }
    lemma_annotation_start(r);
    assert(annotation_start(r) == r.len());
    assert(r.subrange(0, r.len() as int) =~= r);
    lemma_trim_back_noop(r);
}

} // verus!

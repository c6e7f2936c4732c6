//! Character-level helpers shared by the descriptor parser: whitespace
//! trimming, string equality and prefix tests, stated over `Seq<char>` views.

use vstd::prelude::*;
use vstd::string::StrSliceExecFns;

verus! {

/// Characters that count as insignificant surrounding whitespace on a
/// descriptor line.
pub open spec fn is_space_char(c: char) -> bool {
    c == ' ' || c == '\t' || c == '\r' || c == '\u{b}' || c == '\u{c}'
}

/// `l` with its leading space characters removed.
pub open spec fn trim_front(l: Seq<char>) -> Seq<char>
    decreases l.len(),
{
    if l.len() == 0 {
        l
    } else if is_space_char(l.first()) {
        trim_front(l.drop_first())
    } else {
        l
    }
}

/// `l` with its trailing space characters removed.
pub open spec fn trim_back(l: Seq<char>) -> Seq<char>
    decreases l.len(),
{
    if l.len() == 0 {
        l
    } else if is_space_char(l.last()) {
        trim_back(l.drop_last())
    } else {
        l
    }
}

/// `l` with both leading and trailing space characters removed.
pub open spec fn trimmed(l: Seq<char>) -> Seq<char> {
    trim_back(trim_front(l))
}

/// `p` occurs at the start of `l`.
pub open spec fn is_prefix_of(p: Seq<char>, l: Seq<char>) -> bool {
    p.len() <= l.len() && l.subrange(0, p.len() as int) == p
}

pub(crate) fn is_space(c: char) -> (r: bool)
    ensures
        r == is_space_char(c),
{
    c == ' ' || c == '\t' || c == '\r' || c == '\u{b}' || c == '\u{c}'
}

/// Character-for-character equality of two string slices.
pub fn str_eq(a: &str, b: &str) -> (r: bool)
    ensures
        r == (a@ == b@),
{
    let an = a.unicode_len();
    let bn = b.unicode_len();
    if an != bn {
        return false;
    }
    let mut i: usize = 0;
    while i < an
        invariant
            i <= an,
            an == a@.len(),
            an == b@.len(),
            forall|k: int| 0 <= k < i ==> a@[k] == b@[k],
        decreases an - i,
    {
        if a.get_char(i) != b.get_char(i) {
            return false;
        }
        i = i + 1;
    }
    proof {
        assert(a@ =~= b@);
    }
    true
}

/// Does `l` start with the prefix `p`?
pub fn str_starts_with(l: &str, p: &str) -> (r: bool)
    ensures
        r == is_prefix_of(p@, l@),
{
    let ln = l.unicode_len();
    let pn = p.unicode_len();
    if pn > ln {
        return false;
    }
    let mut i: usize = 0;
    while i < pn
        invariant
            i <= pn,
            pn <= ln,
            ln == l@.len(),
            pn == p@.len(),
            forall|k: int| 0 <= k < i ==> l@[k] == p@[k],
        decreases pn - i,
    {
        if l.get_char(i) != p.get_char(i) {
            proof {
                assert(l@.subrange(0, pn as int)[i as int] != p@[i as int]);
            }
            return false;
        }
        i = i + 1;
    }
    proof {
        assert(l@.subrange(0, pn as int) =~= p@);
    }
    true
}

/// Trimming a line: the characters between the first and the last
/// non-space character are exactly what `trimmed` keeps.
proof fn lemma_trim_front_range(l: Seq<char>, s: int)
    requires
        0 <= s <= l.len(),
        forall|k: int| 0 <= k < s ==> is_space_char(l[k]),
        s == l.len() || !is_space_char(l[s]),
    ensures
        trim_front(l) == l.subrange(s, l.len() as int),
    decreases s,
{
    if s == 0 {
        assert(l.subrange(0, l.len() as int) =~= l);
        if l.len() > 0 {
            assert(!is_space_char(l.first()));
        }
    } else {
        assert(is_space_char(l.first()));
        let l2 = l.drop_first();
        assert(forall|k: int| 0 <= k < s - 1 ==> is_space_char(l2[k]));
        lemma_trim_front_range(l2, s - 1);
        assert(l2.subrange(s - 1, l2.len() as int) =~= l.subrange(s, l.len() as int));
    }
}

pub proof fn lemma_trim_back_range(l: Seq<char>, e: int)
    requires
        0 <= e <= l.len(),
        forall|k: int| e <= k < l.len() ==> is_space_char(l[k]),
        e == 0 || !is_space_char(l[e - 1]),
    ensures
        trim_back(l) == l.subrange(0, e),
    decreases l.len() - e,
{
    if e == l.len() {
        assert(l.subrange(0, e) =~= l);
        if l.len() > 0 {
            assert(!is_space_char(l.last()));
        }
    } else {
        assert(is_space_char(l.last()));
        let l2 = l.drop_last();
        lemma_trim_back_range(l2, e);
        assert(l2.subrange(0, e) =~= l.subrange(0, e));
    }
}

/// Combined range characterization of `trimmed`.
pub proof fn lemma_trimmed_range(l: Seq<char>, s: int, e: int)
    requires
        0 <= s <= e <= l.len(),
        forall|k: int| 0 <= k < s ==> is_space_char(l[k]),
        forall|k: int| e <= k < l.len() ==> is_space_char(l[k]),
        s == e || (!is_space_char(l[s]) && !is_space_char(l[e - 1])),
    ensures
        trimmed(l) == l.subrange(s, e),
    decreases l.len(),
{
    if s == e {
        lemma_trim_front_all_spaces(l);
        assert(l.subrange(s, e) =~= Seq::<char>::empty());
    } else {
        lemma_trim_front_range(l, s);
        let m = l.subrange(s, l.len() as int);
        lemma_trim_back_range(m, e - s);
        assert(m.subrange(0, e - s) =~= l.subrange(s, e));
    }
}

/// A line of space characters only trims to the empty sequence.
proof fn lemma_trim_front_all_spaces(l: Seq<char>)
    requires
        forall|k: int| 0 <= k < l.len() ==> is_space_char(l[k]),
    ensures
        trimmed(l) == Seq::<char>::empty(),
    decreases l.len(),
{
    lemma_trim_front_range(l, l.len() as int);
    assert(trim_front(l) =~= Seq::<char>::empty());
}

/// `trim_back` keeps a prefix of its argument.
pub proof fn lemma_trim_back_prefix(l: Seq<char>)
    ensures
        trim_back(l).len() <= l.len(),
        trim_back(l) == l.subrange(0, trim_back(l).len() as int),
    decreases l.len(),
{
    if l.len() == 0 {
        assert(l.subrange(0, 0) =~= l);
    } else if is_space_char(l.last()) {
        let l2 = l.drop_last();
        lemma_trim_back_prefix(l2);
        assert(l2.subrange(0, trim_back(l2).len() as int) =~= l.subrange(
            0,
            trim_back(l2).len() as int,
        ));
    } else {
        assert(l.subrange(0, l.len() as int) =~= l);
    }
}

/// A non-empty `trim_back` result never ends in a space character.
pub proof fn lemma_trim_back_last(l: Seq<char>)
    ensures
        trim_back(l).len() == 0 || !is_space_char(trim_back(l).last()),
    decreases l.len(),
{
    if l.len() == 0 {
    } else if is_space_char(l.last()) {
        lemma_trim_back_last(l.drop_last());
    }
}

/// `trim_back` leaves a line alone when it does not end in a space.
pub proof fn lemma_trim_back_noop(l: Seq<char>)
    requires
        l.len() == 0 || !is_space_char(l.last()),
    ensures
        trim_back(l) == l,
{
}

/// Returns the trimmed copy of a line.
pub fn trim_line(l: &str) -> (t: String)
    ensures
        t@ == trimmed(l@),
{
    let n = l.unicode_len();
    let mut s: usize = 0;
    while s < n && is_space(l.get_char(s))
        invariant
            s <= n,
            n == l@.len(),
            forall|k: int| 0 <= k < s ==> is_space_char(l@[k]),
        decreases n - s,
    {
        s = s + 1;
    }
    let mut e: usize = n;
    while e > s && is_space(l.get_char(e - 1))
        invariant
            s <= e <= n,
            n == l@.len(),
            forall|k: int| e <= k < n ==> is_space_char(l@[k]),
        decreases e,
    {
        e = e - 1;
    }
    proof {
        lemma_trimmed_range(l@, s as int, e as int);
    }
    l.substring_char(s, e).to_owned()
}

} // verus!

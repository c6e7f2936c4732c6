//! The descriptor parser: one package's section-tagged text block becomes a
//! `Package` record.
//!
//! A descriptor is a sequence of lines. A line whose trimmed form is
//! `%SECTION%` opens a section; a blank line or the next marker line closes
//! it. The parser is a small state machine over the lines: `%NAME%` takes the
//! single following non-blank line as the package name, a marker whose tag
//! starts with `DEPENDS` collects normalized dependency entries, `%OPTDEPENDS%`
//! collects normalized optional-dependency entries, and every other marker is
//! skipped. Malformed input never fails: unrecognized text is simply ignored.

use vstd::prelude::*;
use vstd::string::StrSliceExecFns;

use crate::normalize::normalize_dependency;
use crate::normalize::normalize_opt_dependency;
use crate::normalize::normalized_dep;
use crate::normalize::normalized_opt;
use crate::package::Package;
use crate::package::PackageView;
use crate::text::is_prefix_of;
use crate::text::str_eq;
use crate::text::str_starts_with;
use crate::text::trim_line;
use crate::text::trimmed;

verus! {

/// Which section, if any, the parser is currently inside.
#[derive(Clone, Copy)]
pub enum SectionState {
    /// Not inside any recognized section.
    Outside,
    /// A `%NAME%` marker was just seen; the next content line is the name.
    TakingName,
    /// Inside a section whose tag starts with `DEPENDS`.
    InDepends,
    /// Inside an `%OPTDEPENDS%` section.
    InOptDepends,
}

/// The parser's whole state between two lines: the current section and the
/// record built so far.
pub struct ParseState {
    pub sec: SectionState,
    pub pkg: PackageView,
}

/// A trimmed line of the exact form `%...%`.
pub open spec fn is_marker_line(l: Seq<char>) -> bool {
    l.len() >= 2 && l.first() == '%' && l.last() == '%'
}

/// The section that a marker line opens.
pub open spec fn classify_marker(l: Seq<char>) -> SectionState {
    if l == "%NAME%"@ {
        SectionState::TakingName
    } else if l == "%OPTDEPENDS%"@ {
        SectionState::InOptDepends
    } else if is_prefix_of("%DEPENDS"@, l) {
        SectionState::InDepends
    } else {
        SectionState::Outside
    }
}

/// One step of the parser: the effect of one raw line on the parse state.
pub open spec fn apply_line_spec(st: ParseState, raw: Seq<char>) -> ParseState {
    let l = trimmed(raw);
    if l.len() == 0 {
        ParseState { sec: SectionState::Outside, pkg: st.pkg }
    } else if is_marker_line(l) {
        ParseState { sec: classify_marker(l), pkg: st.pkg }
    } else {
        match st.sec {
            SectionState::Outside => st,
            SectionState::TakingName => ParseState {
                sec: SectionState::Outside,
                pkg: PackageView {
                    name: l,
                    dependencies: st.pkg.dependencies,
                    opt_dependencies: st.pkg.opt_dependencies,
                },
            },
            SectionState::InDepends => {
                let d = normalized_dep(l);
                if d.len() == 0 {
                    st
                } else {
                    ParseState {
                        sec: SectionState::InDepends,
                        pkg: PackageView {
                            name: st.pkg.name,
                            dependencies: st.pkg.dependencies.push(d),
                            opt_dependencies: st.pkg.opt_dependencies,
                        },
                    }
                }
            },
            SectionState::InOptDepends => {
                let d = normalized_opt(l);
                if d.len() == 0 {
                    st
                } else {
                    ParseState {
                        sec: SectionState::InOptDepends,
                        pkg: PackageView {
                            name: st.pkg.name,
                            dependencies: st.pkg.dependencies,
                            opt_dependencies: st.pkg.opt_dependencies.push(d),
                        },
                    }
                }
            },
        }
    }
}

/// Index of the first `'\n'` at or after `pos`, or `s.len()` when the rest of
/// `s` holds none.
pub open spec fn line_end(s: Seq<char>, pos: int) -> int
    decreases s.len() - pos,
{
    if pos < 0 || pos >= s.len() {
        s.len() as int
    } else if s[pos] == '\n' {
        pos
    } else {
        line_end(s, pos + 1)
    }
}

pub proof fn lemma_line_end_bounds(s: Seq<char>, pos: int)
    requires
        0 <= pos <= s.len(),
    ensures
        pos <= line_end(s, pos) <= s.len(),
    decreases s.len() - pos,
{
    if pos < s.len() && s[pos] != '\n' {
        lemma_line_end_bounds(s, pos + 1);
    }
}

pub proof fn lemma_line_end_char(s: Seq<char>, pos: int, e: int)
    requires
        0 <= pos <= e <= s.len(),
        forall|k: int| pos <= k < e ==> s[k] != '\n',
        e == s.len() || s[e] == '\n',
    ensures
        line_end(s, pos) == e,
    decreases e - pos,
{
    if pos < e {
        lemma_line_end_char(s, pos + 1, e);
    }
}

/// The lines of `s` from position `pos` on, split at each `'\n'`.
pub open spec fn lines_from(s: Seq<char>, pos: int) -> Seq<Seq<char>>
    decreases s.len() - pos,
{
    if pos < 0 || pos > s.len() {
        Seq::empty()
    } else {
        let e = line_end(s, pos);
        if e >= s.len() {
            seq![s.subrange(pos, s.len() as int)]
        } else {
            proof {
                lemma_line_end_bounds(s, pos);
            }
            seq![s.subrange(pos, e)] + lines_from(s, e + 1)
        }
    }
}

/// Runs the parser over a sequence of raw lines.
pub open spec fn run_lines(lines: Seq<Seq<char>>, st: ParseState) -> ParseState
    decreases lines.len(),
{
    if lines.len() == 0 {
        st
    } else {
        run_lines(lines.drop_first(), apply_line_spec(st, lines.first()))
    }
}

/// The state the parser starts from: no section open, an empty record.
pub open spec fn initial_state() -> ParseState {
    ParseState {
        sec: SectionState::Outside,
        pkg: PackageView {
            name: Seq::empty(),
            dependencies: Seq::empty(),
            opt_dependencies: Seq::empty(),
        },
    }
}

/// The record that parsing the whole descriptor text `s` produces.
pub open spec fn parse_descriptor(s: Seq<char>) -> PackageView {
    run_lines(lines_from(s, 0), initial_state()).pkg
}

proof fn lemma_run_lines_cons(l: Seq<char>, rest: Seq<Seq<char>>, st: ParseState)
    ensures
        run_lines(seq![l] + rest, st) == run_lines(rest, apply_line_spec(st, l)),
{
    let ls = seq![l] + rest;
    assert(ls.first() == l);
    assert(ls.drop_first() =~= rest);
}

proof fn lemma_run_lines_single(l: Seq<char>, st: ParseState)
    ensures
        run_lines(seq![l], st) == apply_line_spec(st, l),
{
    let ls = seq![l];
    assert(ls.first() == l);
    assert(ls.drop_first() =~= Seq::<Seq<char>>::empty());
    assert(run_lines(ls.drop_first(), apply_line_spec(st, l)) == apply_line_spec(st, l));
}

fn is_marker(t: &str) -> (r: bool)
    ensures
        r == is_marker_line(t@),
{
    let n = t.unicode_len();
    if n < 2 {
        return false;
    }
    t.get_char(0) == '%' && t.get_char(n - 1) == '%'
}

fn classify_marker_line(t: &str) -> (sec: SectionState)
    ensures
        sec == classify_marker(t@),
{
    if str_eq(t, "%NAME%") {
        SectionState::TakingName
    } else if str_eq(t, "%OPTDEPENDS%") {
        SectionState::InOptDepends
    } else if str_starts_with(t, "%DEPENDS") {
        SectionState::InDepends
    } else {
        SectionState::Outside
    }
}

/// Index of the first `'\n'` in `s` at or after `pos`, or `n` when there is
/// none before the end.
fn find_line_end(s: &str, pos: usize, n: usize) -> (e: usize)
    requires
        n == s@.len(),
        pos <= n,
    ensures
        pos <= e <= n,
        e as int == line_end(s@, pos as int),
{
    let mut i: usize = pos;
    while i < n && s.get_char(i) != '\n'
        invariant
            pos <= i <= n,
            n == s@.len(),
            forall|k: int| pos <= k < i ==> s@[k] != '\n',
        decreases n - i,
    {
        i = i + 1;
    }
    proof {
        lemma_line_end_char(s@, pos as int, i as int);
    }
    i
}

/// Feeds one raw line to the parser state machine, updating the record in
/// place and returning the next section state.
fn apply_line(package: &mut Package, sec: SectionState, raw: &str) -> (nsec: SectionState)
    ensures
        (ParseState { sec: nsec, pkg: final(package)@ }) == apply_line_spec(
            (ParseState { sec: sec, pkg: old(package)@ }),
            raw@,
        ),
{
    let t = trim_line(raw);
    if t.as_str().unicode_len() == 0 {
        return SectionState::Outside;
    }
    if is_marker(t.as_str()) {
        return classify_marker_line(t.as_str());
    }
    match sec {
        SectionState::Outside => SectionState::Outside,
        SectionState::TakingName => {
            package.name = t;
            SectionState::Outside
        },
        SectionState::InDepends => {
            let d = normalize_dependency(t.as_str());
            if d.as_str().unicode_len() == 0 {
                SectionState::InDepends
            } else {
                let ghost pre = package.dependencies.deep_view();
                let ghost dv = d@;
                package.dependencies.push(d);
                proof {
                    assert(package.dependencies.deep_view() =~= pre.push(dv));
                }
                SectionState::InDepends
            }
        },
        SectionState::InOptDepends => {
            let d = normalize_opt_dependency(t.as_str());
            if d.as_str().unicode_len() == 0 {
                SectionState::InOptDepends
            } else {
                let ghost pre = package.opt_dependencies.deep_view();
                let ghost dv = d@;
                package.opt_dependencies.push(d);
                proof {
                    assert(package.opt_dependencies.deep_view() =~= pre.push(dv));
                }
                SectionState::InOptDepends
            }
        },
    }
}

impl Package {
    /// Parses the full text of one descriptor file into a package record.
    /// Parsing never fails: text without recognized markers yields a record
    /// with an empty name and no dependencies.
    pub fn new(database_content: String) -> (package: Package)
        ensures
            package@ == parse_descriptor(database_content@),
    {
        let mut package = Package {
            name: String::new(),
            dependencies: Vec::new(),
            opt_dependencies: Vec::new(),
        };
        let mut sec = SectionState::Outside;
        let s: &str = database_content.as_str();
        let n = s.unicode_len();
        proof {
            assert(package.dependencies.deep_view() =~= Seq::<Seq<char>>::empty());
            assert(package.opt_dependencies.deep_view() =~= Seq::<Seq<char>>::empty());
            assert((ParseState { sec: sec, pkg: package@ }) == initial_state());
        }
        let mut pos: usize = 0;
        loop
            invariant_except_break
                pos <= n,
                n == s@.len(),
                s@ == database_content@,
                run_lines(lines_from(s@, pos as int), (ParseState { sec: sec, pkg: package@ }))
                    == run_lines(lines_from(s@, 0), initial_state()),
            ensures
                package@ == parse_descriptor(database_content@),
            decreases n - pos,
        {
            let e = find_line_end(s, pos, n);
            let line = s.substring_char(pos, e);
            let ghost st0 = (ParseState { sec: sec, pkg: package@ });
            sec = apply_line(&mut package, sec, line);
            proof {
                let st1 = (ParseState { sec: sec, pkg: package@ });
                assert(st1 == apply_line_spec(st0, line@));
                if e < n {
                    assert(lines_from(s@, pos as int) == seq![line@] + lines_from(
                        s@,
                        e as int + 1,
                    ));
                    lemma_run_lines_cons(line@, lines_from(s@, e as int + 1), st0);
                } else {
                    assert(lines_from(s@, pos as int) == seq![line@]);
                    lemma_run_lines_single(line@, st0);
                }
            }
            if e == n {
                break;
            }
            pos = e + 1;
        }
        package
    }
}

} // verus!

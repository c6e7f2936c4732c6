//! The dependency relation engine: two read-only queries over a loaded
//! package collection. For a target package the engine answers which of its
//! dependencies no other installed package holds, and which other installed
//! packages hold at least one dependency in common with it. Both results are
//! sets; neither query mutates the collection, and the target is never
//! compared with itself.

use vstd::prelude::*;

use crate::package::Package;
use crate::package::PackageView;
use crate::text::str_eq;

verus! {

/// The dependency list of the first package named `name`, or the empty
/// sequence when no package carries that name.
pub open spec fn target_dependencies(pkgs: Seq<PackageView>, name: Seq<char>) -> Seq<Seq<char>>
    decreases pkgs.len(),
{
    if pkgs.len() == 0 {
        Seq::empty()
    } else if pkgs.first().name == name {
        pkgs.first().dependencies
    } else {
        target_dependencies(pkgs.drop_first(), name)
    }
}

/// Some package in the collection carries `name`.
pub open spec fn has_package(pkgs: Seq<PackageView>, name: Seq<char>) -> bool {
    exists|i: int| 0 <= i < pkgs.len() && pkgs[i].name == name
}

/// Some package other than the target holds the dependency `d`.
pub open spec fn other_has_dep(pkgs: Seq<PackageView>, name: Seq<char>, d: Seq<char>) -> bool {
    exists|i: int|
        0 <= i < pkgs.len() && pkgs[i].name != name && pkgs[i].dependencies.contains(d)
}

/// The dependencies unique to the target: those of its entries that no other
/// package holds.
pub open spec fn unique_dep_set(pkgs: Seq<PackageView>, name: Seq<char>) -> Set<Seq<char>> {
    target_dependencies(pkgs, name).to_set().filter(|d: Seq<char>| !other_has_dep(pkgs, name, d))
}

/// The target shares at least one dependency with some other package.
pub open spec fn shares_any(pkgs: Seq<PackageView>, name: Seq<char>) -> bool {
    exists|d: Seq<char>|
        target_dependencies(pkgs, name).contains(d) && other_has_dep(pkgs, name, d)
}

/// Two dependency lists have an entry in common.
pub open spec fn seqs_intersect(a: Seq<Seq<char>>, b: Seq<Seq<char>>) -> bool {
    exists|k: int| 0 <= k < a.len() && b.contains(a[k])
}

/// The names of the other packages that share at least one dependency with
/// the target.
pub open spec fn sharing_set(pkgs: Seq<PackageView>, name: Seq<char>) -> Set<Seq<char>> {
    Set::new(
        |n: Seq<char>|
            n != name && exists|i: int|
                0 <= i < pkgs.len() && pkgs[i].name == n && seqs_intersect(
                    pkgs[i].dependencies,
                    target_dependencies(pkgs, name),
                ),
    )
}

/// Finds the first package named `package_name`; on success the collection's
/// target dependency list is exactly that package's.
fn find_target_index(package_name: &str, packages: &Vec<Package>) -> (r: Option<usize>)
    ensures
        match r {
            Some(i) => {
                &&& (i as int) < packages.deep_view().len()
                &&& packages.deep_view()[i as int].name == package_name@
                &&& target_dependencies(packages.deep_view(), package_name@)
                    == packages.deep_view()[i as int].dependencies
            },
            None => {
                &&& !has_package(packages.deep_view(), package_name@)
                &&& target_dependencies(packages.deep_view(), package_name@) == Seq::<
                    Seq<char>,
                >::empty()
            },
        },
{
    let ghost pkgs = packages.deep_view();
    let ghost name = package_name@;
    let mut i: usize = 0;
    proof {
        assert(pkgs.skip(0) =~= pkgs);
    }
    while i < packages.len()
        invariant
            i <= packages@.len(),
            pkgs == packages.deep_view(),
            name == package_name@,
            forall|k: int| 0 <= k < i ==> pkgs[k].name != name,
            target_dependencies(pkgs, name) == target_dependencies(pkgs.skip(i as int), name),
        decreases packages@.len() - i,
    {
        proof {
            assert(pkgs.skip(i as int).first() == pkgs[i as int]);
        }
        if str_eq(packages[i].name.as_str(), package_name) {
            proof {
                assert(pkgs[i as int].name == name);
            }
            return Some(i);
        }
        proof {
            assert(pkgs.skip(i as int).drop_first() =~= pkgs.skip(i as int + 1));
        }
        i = i + 1;
    }
    proof {
        assert(pkgs.skip(i as int) =~= Seq::<PackageView>::empty());
    }
    None
}

/// Does some package other than the target hold the dependency `dep`?
fn other_has_dependency(package_name: &str, packages: &Vec<Package>, dep: &String) -> (r: bool)
    ensures
        r == other_has_dep(packages.deep_view(), package_name@, dep@),
{
    let ghost pkgs = packages.deep_view();
    let ghost name = package_name@;
    let mut i: usize = 0;
    while i < packages.len()
        invariant
            i <= packages@.len(),
            pkgs == packages.deep_view(),
            name == package_name@,
            forall|k: int|
                0 <= k < i ==> !(pkgs[k].name != name && pkgs[k].dependencies.contains(dep@)),
        decreases packages@.len() - i,
    {
        let p = &packages[i];
        if !str_eq(p.name.as_str(), package_name) {
            let mut k: usize = 0;
            while k < p.dependencies.len()
                invariant
                    k <= p.dependencies@.len(),
                    (i as int) < pkgs.len(),
                    pkgs == packages.deep_view(),
                    name == package_name@,
                    pkgs[i as int].name != name,
                    p.dependencies.deep_view() == pkgs[i as int].dependencies,
                    forall|kk: int| 0 <= kk < k ==> p.dependencies.deep_view()[kk] != dep@,
                decreases p.dependencies@.len() - k,
            {
                if str_eq(p.dependencies[k].as_str(), dep.as_str()) {
                    proof {
                        assert(pkgs[i as int].dependencies[k as int] == dep@);
                        assert(pkgs[i as int].dependencies.contains(dep@));
                    }
                    return true;
                }
                k = k + 1;
            }
            proof {
                let pdeps = pkgs[i as int].dependencies;
                assert(!pdeps.contains(dep@)) by {
                    if pdeps.contains(dep@) {
                        let kk = choose|kk: int| 0 <= kk < pdeps.len() && pdeps[kk] == dep@;
                        assert(p.dependencies.deep_view()[kk] == dep@);
                    }
                }
            }
        }
        i = i + 1;
    }
    false
}

/// Is the view of some entry of `v` equal to `s@`?
fn vec_contains_string(v: &Vec<String>, s: &String) -> (r: bool)
    ensures
        r == v.deep_view().contains(s@),
{
    let mut i: usize = 0;
    while i < v.len()
        invariant
            i <= v@.len(),
            forall|k: int| 0 <= k < i ==> v.deep_view()[k] != s@,
        decreases v@.len() - i,
    {
        if str_eq(v[i].as_str(), s.as_str()) {
            proof {
                assert(v.deep_view()[i as int] == s@);
            }
            return true;
        }
        i = i + 1;
    }
    proof {
        assert(!v.deep_view().contains(s@)) by {
            if v.deep_view().contains(s@) {
                let k = choose|k: int| 0 <= k < v.deep_view().len() && v.deep_view()[k] == s@;
            }
        }
    }
    false
}

/// Do the two dependency lists share an entry?
fn deps_intersect(a: &Vec<String>, b: &Vec<String>) -> (r: bool)
    ensures
        r == seqs_intersect(a.deep_view(), b.deep_view()),
{
    let mut k: usize = 0;
    while k < a.len()
        invariant
            k <= a@.len(),
            forall|kk: int| 0 <= kk < k ==> !b.deep_view().contains(a.deep_view()[kk]),
        decreases a@.len() - k,
    {
        if vec_contains_string(b, &a[k]) {
            proof {
                assert(b.deep_view().contains(a.deep_view()[k as int]));
            }
            return true;
        }
        k = k + 1;
    }
    false
}

/// The dependencies unique to the named package: those of its entries that no
/// other installed package also declares. The result is present exactly when
/// the package shares at least one dependency with another package and at
/// least one of its dependencies is shared with none; its entries then carry
/// the unique dependencies, each once, in no guaranteed order.
pub fn get_unique_dependencies(package_name: &str, packages: &Vec<Package>) -> (result: Option<
    Vec<String>,
>)
    ensures
        ({
            let pkgs = packages.deep_view();
            let name = package_name@;
            match result {
                Some(deps) => {
                    &&& shares_any(pkgs, name)
                    &&& deps@.len() > 0
                    &&& deps.deep_view().no_duplicates()
                    &&& deps.deep_view().to_set() == unique_dep_set(pkgs, name)
                },
                None => !shares_any(pkgs, name) || unique_dep_set(pkgs, name).is_empty(),
            }
        }),
{
    let ghost pkgs = packages.deep_view();
    let ghost name = package_name@;
    let ti: usize = match find_target_index(package_name, packages) {
        Some(i) => i,
        None => {
            proof {
                assert(!shares_any(pkgs, name)) by {
                    if shares_any(pkgs, name) {
                        let d = choose|d: Seq<char>|
                            target_dependencies(pkgs, name).contains(d) && other_has_dep(
                                pkgs,
                                name,
                                d,
                            );
                    }
                }
            }
            return None;
        },
    };
    let tdeps: &Vec<String> = &packages[ti].dependencies;
    let ghost tdv = target_dependencies(pkgs, name);
    proof {
        assert(tdeps.deep_view() == tdv);
    }
    let mut result: Vec<String> = Vec::new();
    let mut shared = false;
    let mut j: usize = 0;
    while j < tdeps.len()
        invariant
            j <= tdv.len(),
            tdv == target_dependencies(pkgs, name),
            tdv == tdeps.deep_view(),
            tdv.len() == tdeps@.len(),
            pkgs == packages.deep_view(),
            name == package_name@,
            shared == exists|k: int| 0 <= k < j && other_has_dep(pkgs, name, tdv[k]),
            forall|x: int|
                0 <= x < result.deep_view().len() ==> tdv.contains(result.deep_view()[x])
                    && !other_has_dep(pkgs, name, result.deep_view()[x]),
            forall|k: int|
                0 <= k < j && !other_has_dep(pkgs, name, tdv[k]) ==> result.deep_view().contains(
                    tdv[k],
                ),
            result.deep_view().no_duplicates(),
        decreases tdeps@.len() - j,
    {
        let d = &tdeps[j];
        proof {
            assert(d@ == tdv[j as int]);
        }
        if other_has_dependency(package_name, packages, d) {
            shared = true;
        } else {
            if !vec_contains_string(&result, d) {
                let ghost pre = result.deep_view();
                result.push(d.clone());
                proof {
                    assert(result.deep_view() =~= pre.push(tdv[j as int]));
                    assert(tdv.contains(tdv[j as int]));
                    assert forall|k: int|
                        0 <= k < j + 1 && !other_has_dep(pkgs, name, tdv[k]) implies result
                        .deep_view().contains(tdv[k]) by {
                        if k < j {
                            let x = choose|x: int| 0 <= x < pre.len() && pre[x] == tdv[k];
                            assert(result.deep_view()[x] == tdv[k]);
                        } else {
                            assert(result.deep_view()[pre.len() as int] == tdv[j as int]);
                        }
                    }
                    assert(result.deep_view().no_duplicates()) by {
                        assert(forall|x: int|
                            0 <= x < pre.len() ==> result.deep_view()[x] == pre[x]);
                        if exists|x: int| 0 <= x < pre.len() && pre[x] == tdv[j as int] {
                            let x = choose|x: int| 0 <= x < pre.len() && pre[x] == tdv[j as int];
                            assert(pre.contains(tdv[j as int]));
                        }
                    }
                }
            }
        }
        j = j + 1;
    }
    if shared && result.len() > 0 {
        proof {
            assert(result.deep_view().to_set() =~= unique_dep_set(pkgs, name)) by {
                assert forall|d: Seq<char>|
                    unique_dep_set(pkgs, name).contains(d) implies result.deep_view().to_set()
                    .contains(d) by {
                    assert(tdv.to_set().contains(d));
                    assert(tdv.contains(d));
                    let k = choose|k: int| 0 <= k < tdv.len() && tdv[k] == d;
                    assert(result.deep_view().contains(tdv[k]));
                }
            }
            assert(shares_any(pkgs, name)) by {
                let k = choose|k: int| 0 <= k < tdv.len() && other_has_dep(pkgs, name, tdv[k]);
                assert(target_dependencies(pkgs, name).contains(tdv[k]));
            }
        }
        Some(result)
    } else {
        proof {
            if !shared {
                assert(!shares_any(pkgs, name)) by {
                    if shares_any(pkgs, name) {
                        let d = choose|d: Seq<char>|
                            target_dependencies(pkgs, name).contains(d) && other_has_dep(
                                pkgs,
                                name,
                                d,
                            );
                        let k = choose|k: int| 0 <= k < tdv.len() && tdv[k] == d;
                        assert(other_has_dep(pkgs, name, tdv[k]));
                    }
                }
            } else {
                assert(unique_dep_set(pkgs, name).is_empty()) by {
                    assert forall|d: Seq<char>|
                        !unique_dep_set(pkgs, name).contains(d) by {
                        if unique_dep_set(pkgs, name).contains(d) {
                            assert(tdv.contains(d));
                            let k = choose|k: int| 0 <= k < tdv.len() && tdv[k] == d;
                            assert(result.deep_view().contains(tdv[k]));
                        }
                    }
                    assert(unique_dep_set(pkgs, name) =~= Set::<Seq<char>>::empty());
                }
            }
        }
        None
    }
}

/// The names of the other installed packages that share at least one
/// dependency with the named package. The result is present exactly when at
/// least one such package exists; its entries then carry each qualifying
/// name once, in no guaranteed order. The target itself never qualifies.
pub fn get_packages_with_same_dependencies(package_name: &str, packages: &Vec<Package>) -> (result:
    Option<Vec<String>>)
    ensures
        ({
            let pkgs = packages.deep_view();
            let name = package_name@;
            match result {
                Some(names) => {
                    &&& names@.len() > 0
                    &&& names.deep_view().no_duplicates()
                    &&& names.deep_view().to_set() == sharing_set(pkgs, name)
                },
                None => sharing_set(pkgs, name).is_empty(),
            }
        }),
{
    let ghost pkgs = packages.deep_view();
    let ghost name = package_name@;
    let ti: usize = match find_target_index(package_name, packages) {
        Some(i) => i,
        None => {
            proof {
                assert(sharing_set(pkgs, name) =~= Set::<Seq<char>>::empty()) by {
                    assert forall|n: Seq<char>| !sharing_set(pkgs, name).contains(n) by {
                        if sharing_set(pkgs, name).contains(n) {
                            let i = choose|i: int|
                                0 <= i < pkgs.len() && pkgs[i].name == n && seqs_intersect(
                                    pkgs[i].dependencies,
                                    target_dependencies(pkgs, name),
                                );
                            let k = choose|k: int|
                                0 <= k < pkgs[i].dependencies.len() && target_dependencies(
                                    pkgs,
                                    name,
                                ).contains(pkgs[i].dependencies[k]);
                        }
                    }
                }
            }
            return None;
        },
    };
    let tdeps: &Vec<String> = &packages[ti].dependencies;
    let ghost tdv = target_dependencies(pkgs, name);
    proof {
        assert(tdeps.deep_view() == tdv);
    }
    let mut result: Vec<String> = Vec::new();
    let mut i: usize = 0;
    while i < packages.len()
        invariant
            i <= packages@.len(),
            pkgs == packages.deep_view(),
            name == package_name@,
            tdv == target_dependencies(pkgs, name),
            tdv == tdeps.deep_view(),
            forall|x: int|
                0 <= x < result.deep_view().len() ==> sharing_set(pkgs, name).contains(
                    result.deep_view()[x],
                ),
            forall|k: int|
                0 <= k < i && pkgs[k].name != name && seqs_intersect(pkgs[k].dependencies, tdv)
                    ==> result.deep_view().contains(pkgs[k].name),
            result.deep_view().no_duplicates(),
        decreases packages@.len() - i,
    {
        let p = &packages[i];
        if !str_eq(p.name.as_str(), package_name) {
            if deps_intersect(&p.dependencies, tdeps) {
                if !vec_contains_string(&result, &p.name) {
                    let ghost pre = result.deep_view();
                    result.push(p.name.clone());
                    proof {
                        assert(result.deep_view() =~= pre.push(pkgs[i as int].name));
                        assert(sharing_set(pkgs, name).contains(pkgs[i as int].name));
                        assert forall|k: int|
                            0 <= k < i + 1 && pkgs[k].name != name && seqs_intersect(
                                pkgs[k].dependencies,
                                tdv,
                            ) implies result.deep_view().contains(pkgs[k].name) by {
                            if k < i {
                                let x = choose|x: int|
                                    0 <= x < pre.len() && pre[x] == pkgs[k].name;
                                assert(result.deep_view()[x] == pkgs[k].name);
                            } else {
                                assert(result.deep_view()[pre.len() as int] == pkgs[i as int].name);
                            }
                        }
                        assert(result.deep_view().no_duplicates()) by {
                            assert(forall|x: int|
                                0 <= x < pre.len() ==> result.deep_view()[x] == pre[x]);
                            if exists|x: int|
                                0 <= x < pre.len() && pre[x] == pkgs[i as int].name {
                                let x = choose|x: int|
                                    0 <= x < pre.len() && pre[x] == pkgs[i as int].name;
                                assert(pre.contains(pkgs[i as int].name));
                            }
                        }
                    }
                }
            }
        }
        i = i + 1;
    }
    if result.len() > 0 {
        proof {
            assert(result.deep_view().to_set() =~= sharing_set(pkgs, name)) by {
                assert forall|n: Seq<char>|
                    sharing_set(pkgs, name).contains(n) implies result.deep_view().to_set()
                    .contains(n) by {
                    let k = choose|k: int|
                        0 <= k < pkgs.len() && pkgs[k].name == n && seqs_intersect(
                            pkgs[k].dependencies,
                            target_dependencies(pkgs, name),
                        );
                    assert(result.deep_view().contains(pkgs[k].name));
                }
            }
        }
        Some(result)
    } else {
        proof {
            assert(sharing_set(pkgs, name) =~= Set::<Seq<char>>::empty()) by {
                assert forall|n: Seq<char>| !sharing_set(pkgs, name).contains(n) by {
                    if sharing_set(pkgs, name).contains(n) {
                        let k = choose|k: int|
                            0 <= k < pkgs.len() && pkgs[k].name == n && seqs_intersect(
                                pkgs[k].dependencies,
                                target_dependencies(pkgs, name),
                            );
                        assert(result.deep_view().contains(pkgs[k].name));
                    }
                }
            }
        }
        None
    }
}

/// When no package carries `name`, the target dependency list is empty.
pub proof fn lemma_no_target_no_deps(pkgs: Seq<PackageView>, name: Seq<char>)
    requires
        forall|i: int| 0 <= i < pkgs.len() ==> pkgs[i].name != name,
    ensures
        target_dependencies(pkgs, name) == Seq::<Seq<char>>::empty(),
    decreases pkgs.len(),
{
    if pkgs.len() > 0 {
        assert(pkgs.first() == pkgs[0]);
        let rest = pkgs.drop_first();
        assert forall|i: int| 0 <= i < rest.len() implies rest[i].name != name by {
            assert(rest[i] == pkgs[i + 1]);
        }
        lemma_no_target_no_deps(rest, name);
    }
}

/// Law: a target package with an empty dependency list yields absence for
/// both queries, whatever other packages exist.
pub proof fn lemma_empty_dependencies_absence(pkgs: Seq<PackageView>, name: Seq<char>)
    requires
        target_dependencies(pkgs, name).len() == 0,
    ensures
        !shares_any(pkgs, name),
        unique_dep_set(pkgs, name).is_empty(),
        sharing_set(pkgs, name).is_empty(),
{
    let tdv = target_dependencies(pkgs, name);
    assert(!shares_any(pkgs, name)) by {
        if shares_any(pkgs, name) {
            let d = choose|d: Seq<char>| tdv.contains(d) && other_has_dep(pkgs, name, d);
            let k = choose|k: int| 0 <= k < tdv.len() && tdv[k] == d;
        }
    }
    assert(unique_dep_set(pkgs, name) =~= Set::<Seq<char>>::empty()) by {
        assert forall|d: Seq<char>| !unique_dep_set(pkgs, name).contains(d) by {
            if unique_dep_set(pkgs, name).contains(d) {
                assert(tdv.contains(d));
                let k = choose|k: int| 0 <= k < tdv.len() && tdv[k] == d;
            }
        }
    }
    assert(sharing_set(pkgs, name) =~= Set::<Seq<char>>::empty()) by {
        assert forall|n: Seq<char>| !sharing_set(pkgs, name).contains(n) by {
            if sharing_set(pkgs, name).contains(n) {
                let i = choose|i: int|
                    0 <= i < pkgs.len() && pkgs[i].name == n && seqs_intersect(
                        pkgs[i].dependencies,
                        tdv,
                    );
                let k = choose|k: int|
                    0 <= k < pkgs[i].dependencies.len() && tdv.contains(pkgs[i].dependencies[k]);
                let kk = choose|kk: int| 0 <= kk < tdv.len() && tdv[kk] == pkgs[i].dependencies[k];
            }
        }
    }
}

/// Law: a target package absent from the collection yields absence for both
/// queries.
pub proof fn lemma_absent_target_absence(pkgs: Seq<PackageView>, name: Seq<char>)
    requires
        forall|i: int| 0 <= i < pkgs.len() ==> pkgs[i].name != name,
    ensures
        !shares_any(pkgs, name),
        unique_dep_set(pkgs, name).is_empty(),
        sharing_set(pkgs, name).is_empty(),
{
    lemma_no_target_no_deps(pkgs, name);
    lemma_empty_dependencies_absence(pkgs, name);
}

/// Law: a package never appears in its own shared-dependency result set,
/// whatever its dependencies are.
pub proof fn lemma_self_excluded(pkgs: Seq<PackageView>, name: Seq<char>)
    ensures
        !sharing_set(pkgs, name).contains(name),
{
}

} // verus!

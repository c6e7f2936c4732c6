use std::collections::HashSet;

use pacman_helper::package::Package;
use pacman_helper::relations::get_packages_with_same_dependencies;
use pacman_helper::relations::get_unique_dependencies;

fn get_packages() -> Vec<Package> {
    vec![
        Package {
            name: String::from("a"),
            dependencies: vec![
                String::from("bottle"),
                String::from("spoon"),
                String::from("cup"),
                String::from("plate"),
            ],
            opt_dependencies: vec![],
        },
        Package {
            name: String::from("b"),
            dependencies: vec![
                String::from("bulb"),
                String::from("wire"),
                String::from("plate"),
            ],
            opt_dependencies: vec![],
        },
        Package {
            name: String::from("c"),
            dependencies: vec![
                String::from("pluto"),
                String::from("mars"),
                String::from("cup"),
            ],
            opt_dependencies: vec![],
        },
    ]
}

/// A test for getting unique dependencies of a package out of others
#[test]
fn fetching_unique_dependencies_test() {
    let packages = get_packages();

    let sample = ["bottle".to_owned(), "spoon".to_owned()];
    let result = get_unique_dependencies("a", &packages).unwrap();

    let sample_set: HashSet<_> = sample.iter().collect();
    let mut result_set: HashSet<&String> = HashSet::new();

    result.iter().for_each(|x| _ = result_set.insert(x));

    let result_length = sample_set
        .symmetric_difference(&result_set)
        .into_iter()
        .collect::<Vec<_>>()
        .len();

    assert_eq!(result_length, 0);
}

/// A test for getting packages that share the same dependencies with the given package
#[test]
fn fetching_packages_with_same_deps_test() {
    let mut packages_with_same_deps = HashSet::new();
    packages_with_same_deps.insert("b".to_string());
    packages_with_same_deps.insert("c".to_string());

    let result = get_packages_with_same_dependencies("a", &get_packages());
    let result_set: HashSet<String> = result.unwrap().into_iter().collect();

    assert_eq!(result_set, packages_with_same_deps);
}

fn simple_package(name: &str, dependencies: &[&str]) -> Package {
    Package {
        name: name.to_string(),
        dependencies: dependencies.iter().map(|d| d.to_string()).collect(),
        opt_dependencies: vec![],
    }
}

#[test]
fn three_package_scenario() {
    let packages = vec![
        simple_package("target", &["bottle", "cup", "plate"]),
        simple_package("other1", &["bulb", "wire", "plate"]),
        simple_package("other2", &["pluto", "mars", "cup"]),
    ];

    let unique = get_unique_dependencies("target", &packages).unwrap();
    assert_eq!(unique, vec!["bottle".to_string()]);

    let sharing: HashSet<String> = get_packages_with_same_dependencies("target", &packages)
        .unwrap()
        .into_iter()
        .collect();
    let expected: HashSet<String> = ["other1", "other2"].iter().map(|s| s.to_string()).collect();
    assert_eq!(sharing, expected);
}

#[test]
fn absent_target_yields_absence_for_both_queries() {
    let packages = get_packages();
    assert!(get_unique_dependencies("nowhere", &packages).is_none());
    assert!(get_packages_with_same_dependencies("nowhere", &packages).is_none());
}

#[test]
fn empty_dependency_list_yields_absence_for_both_queries() {
    let packages = vec![
        simple_package("bare", &[]),
        simple_package("other", &["tool", "lib"]),
    ];
    assert!(get_unique_dependencies("bare", &packages).is_none());
    assert!(get_packages_with_same_dependencies("bare", &packages).is_none());
}

#[test]
fn no_shared_dependency_yields_absence_for_unique_query() {
    let packages = vec![
        simple_package("lonely", &["one", "two"]),
        simple_package("other", &["three"]),
    ];
    assert!(get_unique_dependencies("lonely", &packages).is_none());
    assert!(get_packages_with_same_dependencies("lonely", &packages).is_none());
}

#[test]
fn fully_shared_dependencies_yield_absence_for_unique_query() {
    let packages = vec![
        simple_package("covered", &["plate"]),
        simple_package("other", &["plate"]),
    ];
    assert!(get_unique_dependencies("covered", &packages).is_none());
    let sharing = get_packages_with_same_dependencies("covered", &packages).unwrap();
    assert_eq!(sharing, vec!["other".to_string()]);
}

#[test]
fn target_never_appears_in_its_own_sharing_result() {
    let packages = vec![
        simple_package("self", &["plate", "cup"]),
        simple_package("peer", &["plate", "cup"]),
    ];
    let sharing = get_packages_with_same_dependencies("self", &packages).unwrap();
    assert!(!sharing.contains(&"self".to_string()));
    assert_eq!(sharing, vec!["peer".to_string()]);
}

#[test]
fn duplicate_target_entries_are_reported_once() {
    let packages = vec![
        simple_package("dup", &["bottle", "bottle", "plate"]),
        simple_package("other", &["plate"]),
    ];
    let unique = get_unique_dependencies("dup", &packages).unwrap();
    assert_eq!(unique, vec!["bottle".to_string()]);
}

#[test]
fn first_matching_package_wins_for_duplicate_names() {
    let packages = vec![
        simple_package("twin", &["bottle", "plate"]),
        simple_package("twin", &["wire"]),
        simple_package("other", &["plate"]),
    ];
    let unique = get_unique_dependencies("twin", &packages).unwrap();
    assert_eq!(unique, vec!["bottle".to_string()]);
}

use pacman_helper::loader::populate_packages;
use pacman_helper::normalize::normalize_dependency;
use pacman_helper::normalize::normalize_opt_dependency;
use pacman_helper::package::Package;

/// A test for creating a package instance with it's fields
#[test]
fn package_creation_test() {
    let package_database = "
%NAME%
linux-kernel

%DEPENDS%
coreutils
kmod
initramfs

%OPTDEPENDS%
wireless-regdb: to set the correct wireless channels of your country
linux-firmware: firmware images needed for some devices
";

    let package = Package::new(package_database.to_string());

    assert_eq!(package.name, "linux-kernel");
    assert_eq!(package.dependencies, vec!["coreutils", "kmod", "initramfs"]);
    assert_eq!(
        package.opt_dependencies,
        vec!["wireless-regdb", "linux-firmware"]
    );
}

#[test]
fn parse_sections_with_annotations() {
    let text = "%NAME%\nfoo\n\n%DEPENDS%\na\nb\nc\n\n%OPTDEPENDS%\nx: desc\ny\n";
    let package = Package::new(text.to_string());
    assert_eq!(package.name, "foo");
    assert_eq!(package.dependencies, vec!["a", "b", "c"]);
    assert_eq!(package.opt_dependencies, vec!["x", "y"]);
}

#[test]
fn parse_strips_version_constraints() {
    let text = "%DEPENDS%\nlib>=2.0\nglibc=2.38\nzlib\n";
    let package = Package::new(text.to_string());
    assert_eq!(package.dependencies, vec!["lib", "glibc", "zlib"]);
}

#[test]
fn parse_without_markers_yields_empty_record() {
    let package = Package::new("just some free text\nwith no markers\n".to_string());
    assert_eq!(package.name, "");
    assert!(package.dependencies.is_empty());
    assert!(package.opt_dependencies.is_empty());
}

#[test]
fn parse_section_ends_at_next_marker() {
    let text = "%DEPENDS%\nalpha\n%OPTDEPENDS%\nbeta: why\n%NAME%\ngamma\n";
    let package = Package::new(text.to_string());
    assert_eq!(package.dependencies, vec!["alpha"]);
    assert_eq!(package.opt_dependencies, vec!["beta"]);
    assert_eq!(package.name, "gamma");
}

#[test]
fn parse_skips_unknown_sections() {
    let text = "%VERSION%\n1.2.3\n\n%SIZE%\n4096\n\n%NAME%\ndelta\n";
    let package = Package::new(text.to_string());
    assert_eq!(package.name, "delta");
    assert!(package.dependencies.is_empty());
}

#[test]
fn parse_matches_depends_prefixed_sections() {
    let text = "%DEPENDSEXTRA%\nepsilon\n";
    let package = Package::new(text.to_string());
    assert_eq!(package.dependencies, vec!["epsilon"]);
}

#[test]
fn parse_keeps_no_blank_dependency_entries() {
    let text = "%DEPENDS%\n>=2.0\nreal\n";
    let package = Package::new(text.to_string());
    assert_eq!(package.dependencies, vec!["real"]);
}

#[test]
fn normalize_dependency_strips_constraint() {
    assert_eq!(normalize_dependency("lib>=2.0"), "lib");
    assert_eq!(normalize_dependency("lib"), "lib");
}

#[test]
fn normalize_dependency_is_idempotent_on_values() {
    let once = normalize_dependency("lib>=2.0");
    let twice = normalize_dependency(once.as_str());
    assert_eq!(twice, once);
    let once = normalize_opt_dependency("x: some words");
    let twice = normalize_opt_dependency(once.as_str());
    assert_eq!(twice, once);
}

#[test]
fn normalize_opt_dependency_strips_annotation() {
    assert_eq!(normalize_opt_dependency("x: a justification"), "x");
    assert_eq!(normalize_opt_dependency("plain"), "plain");
}

#[test]
fn populate_skips_absent_descriptors() {
    let descriptors = vec![
        Some("%NAME%\nfirst\n".to_string()),
        None,
        Some("%NAME%\nsecond\n".to_string()),
    ];
    let packages = populate_packages(descriptors);
    assert_eq!(packages.len(), 2);
    assert_eq!(packages[0].name, "first");
    assert_eq!(packages[1].name, "second");
}

#[test]
fn populate_of_nothing_is_empty() {
    let packages = populate_packages(vec![]);
    assert!(packages.is_empty());
}

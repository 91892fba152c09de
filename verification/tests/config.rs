use encage_build::config::{Package, PackageQuery};
use encage_build::context::Context;
use encage_build::work::Workspace;
use semver::{Version, VersionReq};

fn package(name: &str, version: &str) -> Package {
    Package { name: name.to_string(), version: Version::parse(version).expect("a version") }
}

#[test]
fn name_with_a_dot_in_front_lies_below_the_package() {
    let foo = package("foo", "1.0.0");
    assert_eq!(foo.absolute_name(".bar"), "foo.bar");
    assert_eq!(foo.absolute_name("bar"), "bar");
    assert_eq!(foo.absolute_name(""), "");
    assert_eq!(foo.absolute_name("."), "foo.");
    assert_eq!(foo.absolute_name("bar.baz"), "bar.baz");
    assert_eq!(foo.absolute_name("..x"), "foo..x");
}

#[test]
fn package_takes_the_absolute_name() {
    assert_eq!(package("foo", "1.2.3").into_absolute(".bar"), package("foo.bar", "1.2.3"));
    assert_eq!(package("foo", "1.2.3").into_absolute("bar"), package("bar", "1.2.3"));
}

#[test]
fn packages_are_equal_by_name_and_version() {
    assert_eq!(package("foo", "1.0.0"), package("foo", "1.0.0"));
    assert_eq!(package("foo", "1.0.0").clone(), package("foo", "1.0.0"));
    assert_ne!(package("foo", "1.0.0"), package("bar", "1.0.0"));
    assert_ne!(package("foo", "1.0.0"), package("foo", "1.0.1"));
    assert_ne!(package("foo", "1.0.0"), package("foo", "1.0.0-rc.1"));
    assert_ne!(package("foo", "1.0.0+a"), package("foo", "1.0.0+b"));
}

#[test]
fn query_of_a_package_asks_for_that_version() {
    let query = package("foo", "1.2.3-rc.1+build").to_query();
    assert_eq!(query.name, "foo");
    assert_eq!(query.version_req, VersionReq::parse("=1.2.3-rc.1").expect("a requirement"));
    assert!(query.matches(&package("foo", "1.2.3-rc.1+build")));
    assert!(query.matches(&package("foo", "1.2.3-rc.1")));
    assert!(!query.matches(&package("foo", "1.2.3")));
    assert!(!query.matches(&package("foo", "1.2.4")));
    assert!(!query.matches(&package("bar", "1.2.3-rc.1+build")));
}

#[test]
fn query_finds_the_first_package_that_fits() {
    let mut context = Context::new();
    context.packages.push(package("foo", "0.9.0"));
    context.packages.push(package("bar", "1.5.0"));
    context.packages.push(package("foo", "1.1.0"));
    context.packages.push(package("foo", "1.2.0"));
    let query = |name: &str, req: &str| PackageQuery {
        name: name.to_string(),
        version_req: VersionReq::parse(req).expect("a requirement"),
    };
    assert_eq!(context.query_package(&query("foo", "^1")), Some(&package("foo", "1.1.0")));
    assert_eq!(context.query_package(&query("foo", "*")), Some(&package("foo", "0.9.0")));
    assert_eq!(context.query_package(&query("foo", ">=1.2")), Some(&package("foo", "1.2.0")));
    assert_eq!(context.query_package(&query("bar", "^1")), Some(&package("bar", "1.5.0")));
    assert_eq!(context.query_package(&query("foo", "^2")), None);
    assert_eq!(context.query_package(&query("baz", "*")), None);
    let own = package("foo", "1.2.0").to_query();
    assert_eq!(context.query_package(&own), Some(&package("foo", "1.2.0")));
}

#[test]
fn package_is_staged_under_its_name_and_version() {
    let workspace = Workspace::new("/work".to_string());
    assert_eq!(workspace.staging_dir(&package("foo", "1.2.3")), "/work/foo-1.2.3");
    assert_eq!(
        workspace.staging_dir(&package("foo.bar", "1.0.0-rc.1+x")),
        "/work/foo.bar-1.0.0-rc.1+x"
    );
    assert_eq!(Workspace::new("work/".to_string()).staging_dir(&package("a", "0.0.1")), "work/a-0.0.1");
    assert_eq!(Workspace::new(String::new()).staging_dir(&package("a", "0.0.1")), "a-0.0.1");
}

use rock_core::package::{
    package_verify_name, verify_name, IntError, NameError, PackageKind, RepositoryHost, Semver,
    SemverError,
};
use rock_core::resolver::{registry_package_path, ResolveError, Resolver};

#[test]
fn verify_name_accepts_valid_names() {
    assert_eq!(verify_name("rock_core2"), Ok("rock_core2"));
    assert_eq!(package_verify_name("a"), Ok("a"));
}

#[test]
fn verify_name_errors() {
    assert_eq!(verify_name(""), Err(NameError::Empty));
    assert_eq!(verify_name(&"a".repeat(33)), Err(NameError::TooLong));
    assert_eq!(verify_name(&"a".repeat(32)), Ok("aaaaaaaaaaaaaaaaaaaaaaaaaaaaaaaa"));
    assert_eq!(verify_name("ab-c"), Err(NameError::InvalidChar('-')));
    assert_eq!(verify_name("aBc"), Err(NameError::InvalidChar('B')));
    assert_eq!(verify_name("1abc"), Err(NameError::InvalidStart('1')));
    assert_eq!(verify_name("_abc"), Err(NameError::InvalidStart('_')));
}

#[test]
fn semver_parse_and_write() {
    let v = Semver::from_str("1.20.3").unwrap();
    assert_eq!((v.major(), v.minor(), v.patch()), (1, 20, 3));
    assert_eq!(v.to_string(), "1.20.3");
    assert_eq!(Semver::from_str("+1.0.0").map(|v| v.major()), Ok(1));
    assert_eq!(Semver::new(0, 0, 0).to_string(), "0.0.0");
}

#[test]
fn semver_parse_errors() {
    assert_eq!(Semver::from_str("1.2"), Err(SemverError::Format));
    assert_eq!(Semver::from_str("1.2.3.4"), Err(SemverError::Format));
    assert_eq!(Semver::from_str(".2.3"), Err(SemverError::Major(IntError::Empty)));
    assert_eq!(Semver::from_str("1.x.3"), Err(SemverError::Minor(IntError::InvalidDigit)));
    assert_eq!(Semver::from_str("1.2.4294967296"), Err(SemverError::Patch(IntError::Overflow)));
    assert_eq!(Semver::from_str("1.2.4294967295").map(|v| v.patch()), Ok(4294967295));
    assert_eq!(Semver::from_str("1.+.3"), Err(SemverError::Minor(IntError::InvalidDigit)));
    assert_eq!(Semver::from_str("1.2."), Err(SemverError::Patch(IntError::Empty)));
    assert_eq!(Semver::from_str("1.2.-3"), Err(SemverError::Patch(IntError::InvalidDigit)));
}

#[test]
fn semver_roundtrip() {
    for v in [Semver::new(0, 1, 2), Semver::new(10, 0, 999), Semver::new(u32::MAX, 7, 0)] {
        assert_eq!(Semver::from_str(&v.to_string()), Ok(v));
    }
}

#[test]
fn semver_compatibility() {
    let a = Semver::new(1, 2, 3);
    assert!(a.compatible(Semver::new(1, 9, 0)));
    assert!(!a.compatible(Semver::new(2, 2, 3)));
    let z = Semver::new(0, 2, 1);
    assert!(z.compatible(Semver::new(0, 2, 9)));
    assert!(!z.compatible(Semver::new(0, 3, 1)));
    assert!(a.compatible(a));
}

#[test]
fn package_kind_names() {
    assert_eq!(PackageKind::Bin.as_str(), "bin");
    assert_eq!(PackageKind::Lib.as_str(), "lib");
    assert_eq!(PackageKind::Bin.as_str_full(), "executable");
    assert_eq!(PackageKind::Lib.full_name(), "library");
    assert_eq!(RepositoryHost::Github.domain_name(), "github.com");
}

#[test]
fn registry_paths_by_name_length() {
    assert_eq!(registry_package_path("a"), vec!["1", "a"]);
    assert_eq!(registry_package_path("ab"), vec!["2", "ab"]);
    assert_eq!(registry_package_path("abc"), vec!["3", "a", "abc"]);
    assert_eq!(registry_package_path("abcdef"), vec!["ab", "cd", "abcdef"]);
}

#[test]
fn resolver_selects_listed_version() {
    let mut r = Resolver::new();
    let v1 = Semver::new(1, 0, 0);
    let v2 = Semver::new(2, 0, 0);
    assert_eq!(r.select("json", v1, Some(&[v2, v1])), Ok(()));
    assert_eq!(r.selected("json"), Some(v1));
    assert_eq!(r.count(), 1);
}

#[test]
fn resolver_errors() {
    let mut r = Resolver::new();
    let v1 = Semver::new(1, 0, 0);
    let v2 = Semver::new(2, 0, 0);
    assert_eq!(r.select("json", v1, None), Err(ResolveError::NotInIndex));
    assert_eq!(r.select("json", v1, Some(&[v2])), Err(ResolveError::VersionNotFound));
    assert_eq!(r.select("json", v1, Some(&[v1])), Ok(()));
    assert_eq!(
        r.select("json", v2, Some(&[v2])),
        Err(ResolveError::VersionConflict { existing: v1, selected: v2 })
    );
    assert_eq!(r.count(), 1);
}

use version_launcher::version::parse_version;
use version_launcher::version::version_less;

#[test]
fn parses_major_only() {
    assert_eq!(parse_version("v1"), Some((1, 0, 0)));
    assert_eq!(parse_version("v0"), Some((0, 0, 0)));
    assert_eq!(parse_version("v42"), Some((42, 0, 0)));
}

#[test]
fn parses_major_minor() {
    assert_eq!(parse_version("v1.2"), Some((1, 2, 0)));
    assert_eq!(parse_version("v0.0"), Some((0, 0, 0)));
    assert_eq!(parse_version("v10.9"), Some((10, 9, 0)));
}

#[test]
fn parses_full_triple() {
    assert_eq!(parse_version("v1.2.3"), Some((1, 2, 3)));
    assert_eq!(parse_version("v3.1.4"), Some((3, 1, 4)));
    assert_eq!(parse_version("v0.0.0"), Some((0, 0, 0)));
}

#[test]
fn parses_leading_zeros() {
    assert_eq!(parse_version("v007"), Some((7, 0, 0)));
    assert_eq!(parse_version("v1.02.003"), Some((1, 2, 3)));
}

#[test]
fn parses_u32_boundary() {
    assert_eq!(parse_version("v4294967295"), Some((4294967295, 0, 0)));
    assert_eq!(parse_version("v1.4294967295.2"), Some((1, 4294967295, 2)));
}

#[test]
fn rejects_out_of_range() {
    assert_eq!(parse_version("v4294967296"), None);
    assert_eq!(parse_version("v1.2.99999999999999999999"), None);
}

#[test]
fn rejects_missing_prefix() {
    assert_eq!(parse_version("1.2.3"), None);
    assert_eq!(parse_version(""), None);
    assert_eq!(parse_version("w1.2.3"), None);
    assert_eq!(parse_version("V1"), None);
}

#[test]
fn rejects_too_many_segments() {
    assert_eq!(parse_version("v1.2.3.4"), None);
    assert_eq!(parse_version("v1.2.3.4.5"), None);
    assert_eq!(parse_version("v..."), None);
}

#[test]
fn rejects_empty_segments() {
    assert_eq!(parse_version("v"), None);
    assert_eq!(parse_version("v."), None);
    assert_eq!(parse_version("v1."), None);
    assert_eq!(parse_version("v.1"), None);
    assert_eq!(parse_version("v1..2"), None);
}

#[test]
fn rejects_non_numeric_segments() {
    assert_eq!(parse_version("v1.2.x"), None);
    assert_eq!(parse_version("vx"), None);
    assert_eq!(parse_version("v1.2.3-rc1"), None);
    assert_eq!(parse_version("v+1"), None);
    assert_eq!(parse_version("v-1"), None);
    assert_eq!(parse_version("v 1"), None);
}

#[test]
fn orders_versions_numerically() {
    // Numeric, not string, comparison of each component.
    assert!(version_less(&(1, 9, 0), &(1, 10, 0)));
    assert!(version_less(&(1, 10, 0), &(1, 99, 99)));
    assert!(version_less(&(1, 99, 99), &(2, 0, 0)));
    assert!(!version_less(&(2, 0, 0), &(1, 99, 99)));
    assert!(!version_less(&(1, 2, 3), &(1, 2, 3)));
    assert!(version_less(&(1, 2, 3), &(1, 2, 4)));
    assert!(version_less(&(0, 0, 0), &(0, 0, 1)));
}

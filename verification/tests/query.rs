use npm_cdn::text::split_str;
use npm_cdn::text::decimal_string;
use npm_cdn::error::ServerError;
use npm_cdn::query::{parse_package_specifier_no_validation, parse_query, DepRequest};

fn req(name: &str, version: &str) -> DepRequest {
    DepRequest { name: name.to_string(), version: version.to_string() }
}

#[test]
fn specifier_splits_at_last_at() {
    assert_eq!(
        parse_package_specifier_no_validation("react@^18.0.0").unwrap(),
        ("react".to_string(), "^18.0.0".to_string())
    );
    assert_eq!(
        parse_package_specifier_no_validation("@mui/icons-material@9.1.2").unwrap(),
        ("@mui/icons-material".to_string(), "9.1.2".to_string())
    );
    assert_eq!(
        parse_package_specifier_no_validation("a@npm:b@1").unwrap(),
        ("a@npm:b".to_string(), "1".to_string())
    );
}

#[test]
fn specifier_without_version_is_invalid() {
    assert!(matches!(
        parse_package_specifier_no_validation("react"),
        Err(ServerError::InvalidPackageSpecifier)
    ));
    assert!(matches!(
        parse_package_specifier_no_validation("@scope/pkg"),
        Err(ServerError::InvalidPackageSpecifier)
    ));
    assert!(matches!(
        parse_package_specifier_no_validation(""),
        Err(ServerError::InvalidPackageSpecifier)
    ));
}

#[test]
fn query_lists_every_name_and_range_once() {
    let reqs = parse_query("react@^18.0.0,^17;left-pad@1.3.0;react@^18.0.0".to_string()).unwrap();
    assert_eq!(
        reqs,
        vec![req("react", "^18.0.0"), req("react", "^17"), req("left-pad", "1.3.0")]
    );
}

#[test]
fn query_with_a_bad_part_is_invalid() {
    assert!(matches!(
        parse_query("react@^18;left-pad".to_string()),
        Err(ServerError::InvalidPackageSpecifier)
    ));
    assert!(matches!(
        parse_query("react@^18,".to_string()),
        Err(ServerError::InvalidPackageSpecifier)
    ));
    assert!(matches!(parse_query("".to_string()), Err(ServerError::InvalidPackageSpecifier)));
}

#[test]
fn dep_request_needs_name_and_range() {
    assert!(DepRequest::from_name_version("a".to_string(), "1".to_string()).is_ok());
    assert!(matches!(
        DepRequest::from_name_version("".to_string(), "1".to_string()),
        Err(ServerError::InvalidPackageSpecifier)
    ));
    assert!(matches!(
        DepRequest::from_name_version("a".to_string(), "".to_string()),
        Err(ServerError::InvalidPackageSpecifier)
    ));
}

#[test]
fn split_keeps_empty_pieces() {
    assert_eq!(split_str("a;;b;", ';'), vec!["a", "", "b", ""]);
    assert_eq!(split_str("", ';'), vec![""]);
}

#[test]
fn decimal_rendering() {
    assert_eq!(decimal_string(0), "0");
    assert_eq!(decimal_string(503), "503");
    assert_eq!(decimal_string(18446744073709551615), "18446744073709551615");
}

#[test]
fn joined_queries_ask_for_both() {
    let a = parse_query("react@^18".to_string()).unwrap();
    let b = parse_query("left-pad@1,2".to_string()).unwrap();
    let ab = parse_query("react@^18;left-pad@1,2".to_string()).unwrap();
    let ba = parse_query("left-pad@1,2;react@^18".to_string()).unwrap();
    let mut union: Vec<DepRequest> = a.into_iter().chain(b).collect();
    union.sort_by(|x, y| (&x.name, &x.version).cmp(&(&y.name, &y.version)));
    let mut ab_sorted = ab.clone();
    ab_sorted.sort_by(|x, y| (&x.name, &x.version).cmp(&(&y.name, &y.version)));
    let mut ba_sorted = ba.clone();
    ba_sorted.sort_by(|x, y| (&x.name, &x.version).cmp(&(&y.name, &y.version)));
    assert_eq!(ab_sorted, union);
    assert_eq!(ba_sorted, union);
}

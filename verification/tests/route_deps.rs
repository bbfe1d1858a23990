use npm_cdn::deps::apply_aliases;
use npm_cdn::strmap::StringMap;
use npm_cdn::deps::{pkg_to_fetch, RetryAction, ResolveRetry, MAX_RESOLVE_ATTEMPTS};
use npm_cdn::error::ServerError;

fn fetched(names: &[&str]) -> Vec<String> {
    names.iter().map(|name| name.to_string()).collect()
}

// A package whose requested version was never published (e.g.
// @mui/icons-material@9.1.2) is refreshed from npm once, and when that doesn't
// help the PackageVersionNotFound error itself is surfaced.
#[test]
fn missing_version_is_fetched_once_then_surfaced() {
    let err = ServerError::PackageVersionNotFound(
        "@mui/icons-material".to_string(),
        "9.1.2".to_string(),
    );
    assert_eq!(
        pkg_to_fetch(&err, &fetched(&[])),
        Some("@mui/icons-material".to_string())
    );
    assert_eq!(pkg_to_fetch(&err, &fetched(&["@mui/icons-material"])), None);
}

#[test]
fn missing_package_is_fetched_once_then_surfaced() {
    let err = ServerError::PackageNotFound("left-pad".to_string());
    assert_eq!(pkg_to_fetch(&err, &fetched(&[])), Some("left-pad".to_string()));
    assert_eq!(pkg_to_fetch(&err, &fetched(&["left-pad"])), None);
}

#[test]
fn other_errors_are_not_retried() {
    assert_eq!(
        pkg_to_fetch(&ServerError::InvalidPackageSpecifier, &fetched(&[])),
        None
    );
    assert_eq!(
        pkg_to_fetch(&ServerError::PackageNotFound(String::new()), &fetched(&[])),
        None
    );
}

#[test]
fn retry_fetches_each_package_once_then_surfaces_the_error() {
    let mut state = ResolveRetry::new();
    assert!(state.may_attempt());
    let err = ServerError::PackageVersionNotFound("react".to_string(), "^99".to_string());
    match state.step::<u32>(Err(err.clone())) {
        RetryAction::Fetch(name) => assert_eq!(name, "react"),
        _ => panic!("expected a fetch"),
    }
    assert_eq!(state.fetched(), &vec!["react".to_string()]);
    match state.step::<u32>(Err(err)) {
        RetryAction::Fail(ServerError::PackageVersionNotFound(name, range)) => {
            assert_eq!(name, "react");
            assert_eq!(range, "^99");
        }
        _ => panic!("expected the error to be surfaced"),
    }
    assert_eq!(state.fetched().len(), 1);
}

#[test]
fn retry_answers_a_success() {
    let mut state = ResolveRetry::new();
    match state.step(Ok(7u32)) {
        RetryAction::Reply(v) => assert_eq!(v, 7),
        _ => panic!("expected a reply"),
    }
}

#[test]
fn retry_attempts_are_bounded() {
    let mut state = ResolveRetry::new();
    let mut runs = 0;
    let mut n = 0;
    while state.may_attempt() {
        runs += 1;
        n += 1;
        let err = ServerError::PackageNotFound(format!("pkg-{}", n));
        match state.step::<u32>(Err(err)) {
            RetryAction::Fetch(_) => {}
            _ => panic!("expected a fetch"),
        }
    }
    assert_eq!(runs, MAX_RESOLVE_ATTEMPTS);
    match state.exhausted_error() {
        ServerError::PackageNotFound(name) => assert_eq!(name, format!("pkg-{}", n)),
        _ => panic!("expected the last error"),
    }
    assert_eq!(ResolveRetry::new().exhausted_error().status_code(), 404);
}

#[test]
fn other_errors_fail_at_once() {
    let mut state = ResolveRetry::new();
    match state.step::<u32>(Err(ServerError::InvalidQuery)) {
        RetryAction::Fail(ServerError::InvalidQuery) => {}
        _ => panic!("expected the error to be surfaced"),
    }
    assert!(state.fetched().is_empty());
}

#[test]
fn aliases_take_the_resolution_of_their_target() {
    let mut resolutions: StringMap<String> = StringMap::new();
    resolutions.insert("react@^18.0.0".to_string(), "18.2.0".to_string());
    let mut aliases: StringMap<String> = StringMap::new();
    aliases.insert("my-react@npm:react@^18.0.0".to_string(), "react@^18.0.0".to_string());
    aliases.insert("ghost@npm:ghost@1".to_string(), "ghost@1".to_string());
    apply_aliases(&mut resolutions, &aliases);
    assert_eq!(
        resolutions.get(&"my-react@npm:react@^18.0.0".to_string()),
        Some(&"18.2.0".to_string())
    );
    assert_eq!(resolutions.get(&"ghost@npm:ghost@1".to_string()), None);
    assert_eq!(resolutions.get(&"react@^18.0.0".to_string()), Some(&"18.2.0".to_string()));
    assert_eq!(resolutions.len(), 2);
}

#[test]
fn deps_replies_are_cached_for_an_hour() {
    let (cache_control, cdn) = npm_cdn::deps::deps_cache_headers();
    assert_eq!(cache_control, "public, max-age=3600");
    assert_eq!(cdn, "max-age=3600");
}

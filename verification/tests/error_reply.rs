use npm_cdn::error::ServerError;
use npm_cdn::error_reply::ErrorReply;

#[test]
fn client_errors_are_cacheable() {
    let reply = ErrorReply::from_error(ServerError::PackageNotFound("left-pad".to_string()));
    assert_eq!(reply.reply_status(), 404);
    let (cache_control, cdn) = reply.cache_headers();
    assert_eq!(cache_control, "public, max-age=300");
    assert_eq!(cdn, "max-age=300");
}

#[test]
fn server_errors_are_not_cached() {
    let reply = ErrorReply::from_error(ServerError::RequestErrorStatus { status_code: 503 });
    assert_eq!(reply.reply_status(), 502);
    let (cache_control, cdn) = reply.cache_headers();
    assert_eq!(cache_control, "no-store");
    assert_eq!(cdn, "no-store");

    let reply = ErrorReply::from_error(ServerError::SerializeError());
    assert_eq!(reply.reply_status(), 500);
    let (cache_control, _) = reply.cache_headers();
    assert_eq!(cache_control, "no-store");
}

#[test]
fn invalid_status_falls_back_to_500() {
    let reply = ErrorReply::new(0, "bad".to_string(), "bad".to_string());
    assert_eq!(reply.reply_status(), 500);
    // sent as a server error, so never cached
    let (cache_control, cdn) = reply.cache_headers();
    assert_eq!(cache_control, "no-store");
    assert_eq!(cdn, "no-store");
    let (cache_control, _) = ErrorReply::new(404, String::new(), String::new()).cache_headers();
    assert_eq!(cache_control, "public, max-age=300");
    assert_eq!(ErrorReply::new(1000, String::new(), String::new()).reply_status(), 500);
    assert_eq!(ErrorReply::new(999, String::new(), String::new()).reply_status(), 999);
    assert_eq!(ErrorReply::new(100, String::new(), String::new()).reply_status(), 100);
}

#[test]
fn reply_carries_message_and_details() {
    let reply = ErrorReply::from_error(ServerError::PackageVersionNotFound(
        "react".to_string(),
        "^99".to_string(),
    ));
    assert_eq!(reply.status(), 404);
    assert_eq!(reply.message(), "Package version not found: react@^99");
    assert_eq!(reply.details(), "PackageVersionNotFound(\"react\", \"^99\")");
    let reply = ErrorReply::from_error(ServerError::PackageMetadataDownloadError {
        status_code: 503,
        url: "https://registry.npmjs.org/x".to_string(),
    });
    assert_eq!(reply.status(), 502);
    assert_eq!(
        reply.message(),
        "Failed to download package metadata from https://registry.npmjs.org/x, status 503"
    );
}

#[test]
fn status_codes_of_errors() {
    assert_eq!(ServerError::InvalidQuery.status_code(), 400);
    assert_eq!(ServerError::Base64DecodingError().status_code(), 400);
    assert_eq!(ServerError::InvalidPackageSpecifier.status_code(), 400);
    assert_eq!(
        ServerError::UnexpectedError { message: "x".to_string() }.status_code(),
        500
    );
    assert_eq!(
        ServerError::RequestErrorStatus { status_code: 503 }.message(),
        "Upstream request failed with status 503"
    );
}

#[test]
fn details_render_like_debug() {
    let errors = vec![
        ServerError::PackageNotFound("left-pad".to_string()),
        ServerError::PackageNotFound("we\"ird\\na\nme".to_string()),
        ServerError::PackageVersionNotFound("react".to_string(), "^\"1".to_string()),
        ServerError::InvalidPackageSpecifier,
        ServerError::InvalidQuery,
        ServerError::Base64DecodingError(),
        ServerError::SerializeError(),
        ServerError::RequestErrorStatus { status_code: 503 },
        ServerError::PackageMetadataDownloadError { status_code: 404, url: "u\"".to_string() },
        ServerError::UnexpectedError { message: "tab\there".to_string() },
    ];
    for err in errors {
        assert_eq!(err.details(), format!("{:?}", err));
    }
}

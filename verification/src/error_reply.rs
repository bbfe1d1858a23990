//! The reply that answers a request that failed: its status, its body
//! fields and its cache policy.
use vstd::prelude::*;
use vstd::string::StringExecFns;

use crate::error::{details_of, message_of, status_of, ServerError};

verus! {

/// The body of an error reply, with the status it is sent with.
#[derive(Debug, Clone)]
pub struct ErrorReply {
    status: u16,
    message: String,
    details: String,
}

/// The status that `code` is sent with: itself where it is a valid HTTP
/// status (three digits, 100 to 999), 500 otherwise.
pub open spec fn sent_status(code: u16) -> u16 {
    if 100 <= code < 1000 {
        code
    } else {
        500
    }
}

/// The error replies that caches may keep: those sent as client errors
/// (below 500). A reply made with an invalid status is sent as 500, a
/// server error, and is not kept.
pub open spec fn is_cacheable_status(code: u16) -> bool {
    sent_status(code) < 500
}

/// The `Cache-Control` header of an error reply with status `code`.
pub open spec fn cache_control_of(code: u16) -> Seq<char> {
    if is_cacheable_status(code) {
        "public, max-age=300"@
    } else {
        "no-store"@
    }
}

/// The `CDN-Cache-Control` header of an error reply with status `code`.
pub open spec fn cdn_cache_control_of(code: u16) -> Seq<char> {
    if is_cacheable_status(code) {
        "max-age=300"@
    } else {
        "no-store"@
    }
}

/// The HTTP status with code `code`, if `code` is one.
///
/// Trusted: calls `warp::hyper::StatusCode::from_u16` (the `http` crate's
/// `StatusCode`), whose source refuses codes below 100 or from 1000 on and
/// keeps any other code as it is (`as_u16` gives it back).
#[verifier::external_body]
fn http_status(code: u16) -> (r: Option<u16>)
    ensures
        r is Some <==> 100 <= code < 1000,
        r matches Some(c) ==> c == code,
{
    match warp::hyper::StatusCode::from_u16(code) {
        Ok(status) => Some(status.as_u16()),
        Err(_) => None,
    }
}

impl ErrorReply {
    /// The reply with status `status`, message `message` and details `details`.
    pub fn new(status: u16, message: String, details: String) -> (r: Self)
        ensures
            r.status_spec() == status,
            r.message_spec() == message,
            r.details_spec() == details,
    {
        ErrorReply { status, message, details }
    }

    /// The status the reply was made with.
    pub closed spec fn status_spec(&self) -> u16 {
        self.status
    }

    /// The message of the reply.
    pub closed spec fn message_spec(&self) -> String {
        self.message
    }

    /// The details of the reply.
    pub closed spec fn details_spec(&self) -> String {
        self.details
    }

    /// The status the reply was made with.
    pub fn status(&self) -> (r: u16)
        ensures
            r == self.status_spec(),
    {
        self.status
    }

    /// The message of the reply.
    pub fn message(&self) -> (r: &String)
        ensures
            *r == self.message_spec(),
    {
        &self.message
    }

    /// The details of the reply.
    pub fn details(&self) -> (r: &String)
        ensures
            *r == self.details_spec(),
    {
        &self.details
    }

    /// The reply that answers `err`: its status, its message and its details.
    pub fn from_error(err: ServerError) -> (r: Self)
        ensures
            r.status_spec() == status_of(err),
            r.message_spec()@ == message_of(err),
            r.details_spec()@ == details_of(err),
    {
        let status: u16 = err.status_code();
        let message: String = err.message();
        let details: String = err.details();
        ErrorReply::new(status, message, details)
    }

    /// The status the reply is sent with: its own where that is a valid HTTP
    /// status, 500 otherwise.
    pub fn reply_status(&self) -> (r: u16)
        ensures
            r == sent_status(self.status_spec()),
    {
        match http_status(self.status) {
            Some(code) => code,
            None => 500,
        }
    }

    /// The cache headers of the reply, `Cache-Control` then `CDN-Cache-Control`:
    /// replies sent as client errors may be cached for five minutes, server
    /// errors (including replies sent as 500 for an invalid status) never.
    pub fn cache_headers(&self) -> (r: (String, String))
        ensures
            r.0@ == cache_control_of(self.status_spec()),
            r.1@ == cdn_cache_control_of(self.status_spec()),
            sent_status(self.status_spec()) >= 500 ==> r.0@ == "no-store"@ && r.1@ == "no-store"@,
            sent_status(self.status_spec()) < 500 ==> r.0@ == "public, max-age=300"@ && r.1@
                == "max-age=300"@,
    {
        let sent: u16 = self.reply_status();
        if sent < 500 {
            (String::from_str("public, max-age=300"), String::from_str("max-age=300"))
        } else {
            (String::from_str("no-store"), String::from_str("no-store"))
        }
    }
}

/// The cache policy of error replies: a reply whose status is 500 or more,
/// or is no valid HTTP status (and so is sent as 500), is never cached by
/// either header; any other is cacheable for five minutes by both; and the
/// two headers always agree on whether the reply may be cached.
pub proof fn lemma_cache_policy(code: u16)
    ensures
        code >= 500 || code < 100 ==> cache_control_of(code) == "no-store"@
            && cdn_cache_control_of(code) == "no-store"@,
        100 <= code < 500 ==> cache_control_of(code) == "public, max-age=300"@
            && cdn_cache_control_of(code) == "max-age=300"@,
        cdn_cache_control_of(code) == "max-age=300"@ <==> cache_control_of(code)
            == "public, max-age=300"@,
{
    reveal_strlit("no-store");
    reveal_strlit("max-age=300");
    reveal_strlit("public, max-age=300");
    assert("no-store"@[0] != "max-age=300"@[0]);
    assert("no-store"@[0] != "public, max-age=300"@[0]);
}

/// A reply made from an error is sent with the error's own status (every
/// error maps to a valid HTTP status), and is cacheable exactly when that
/// status is a client error.
pub proof fn lemma_error_reply_policy(err: ServerError)
    ensures
        sent_status(status_of(err)) == status_of(err),
        is_cacheable_status(status_of(err)) <==> status_of(err) < 500,
        is_cacheable_status(status_of(err)) <==> (err is PackageNotFound
            || err is PackageVersionNotFound || err is InvalidPackageSpecifier
            || err is InvalidQuery || err is Base64DecodingError),
{
}

} // verus!

//! The errors that the service reports, with the HTTP status and the texts
//! that an error reply carries for each.
use vstd::prelude::*;
use vstd::string::StringExecFns;

use crate::text::{decimal, decimal_string};

verus! {

/// An error met while answering a request.
#[derive(Debug, Clone)]
pub enum ServerError {
    /// No package of this name is known.
    PackageNotFound(String),
    /// The package is known, but no version of it matches the range (name, range).
    PackageVersionNotFound(String, String),
    /// A specifier could not be split into a name and a version range.
    InvalidPackageSpecifier,
    /// The request was refused before decoding (for instance, it is too long).
    InvalidQuery,
    /// The request path is not base64 of a UTF-8 text.
    Base64DecodingError(),
    /// A reply body could not be serialised.
    SerializeError(),
    /// An upstream request answered with this status.
    RequestErrorStatus { status_code: u16 },
    /// Downloading the metadata of a package from the registry failed.
    PackageMetadataDownloadError { status_code: u16, url: String },
    /// Anything else (storage, decoding of stored rows, task failures).
    UnexpectedError { message: String },
}

/// The HTTP status that answers `e`.
pub open spec fn status_of(e: ServerError) -> u16 {
    match e {
        ServerError::PackageNotFound(_) => 404,
        ServerError::PackageVersionNotFound(_, _) => 404,
        ServerError::InvalidPackageSpecifier => 400,
        ServerError::InvalidQuery => 400,
        ServerError::Base64DecodingError() => 400,
        ServerError::SerializeError() => 500,
        ServerError::RequestErrorStatus { .. } => 502,
        ServerError::PackageMetadataDownloadError { .. } => 502,
        ServerError::UnexpectedError { .. } => 500,
    }
}

/// The human-readable message of `e`.
pub open spec fn message_of(e: ServerError) -> Seq<char> {
    match e {
        ServerError::PackageNotFound(name) => "Package not found: "@ + name@,
        ServerError::PackageVersionNotFound(name, range) => "Package version not found: "@
            + name@ + "@"@ + range@,
        ServerError::InvalidPackageSpecifier => "Invalid package specifier"@,
        ServerError::InvalidQuery => "Invalid query"@,
        ServerError::Base64DecodingError() => "Failed to decode base64 query"@,
        ServerError::SerializeError() => "Failed to serialize response"@,
        ServerError::RequestErrorStatus { status_code } => "Upstream request failed with status "@
            + decimal(status_code as nat),
        ServerError::PackageMetadataDownloadError { status_code, url } =>
            "Failed to download package metadata from "@ + url@ + ", status "@ + decimal(
            status_code as nat,
        ),
        ServerError::UnexpectedError { message } => "Unexpected error: "@ + message@,
    }
}

/// What std's `Debug` formatting (`{:?}`) renders the text `s` as: in
/// double quotes, with quotes, backslashes and non-printable characters
/// escaped.
pub uninterp spec fn debug_str(s: Seq<char>) -> Seq<char>;

/// The `Debug` rendering of `s`.
///
/// Trusted: formats `s` with `{:?}`, that is std's `<str as Debug>::fmt`. Its
/// result depends on `s` alone and is named `debug_str`; which characters it
/// escapes, and how, is not stated here.
#[verifier::external_body]
fn debug_string(s: &str) -> (r: String)
    ensures
        r@ == debug_str(s@),
{
    format!("{:?}", s)
}

/// The detailed (structural) rendering of `e`: its variant and its fields,
/// as a derived `Debug` renders them.
pub open spec fn details_of(e: ServerError) -> Seq<char> {
    match e {
        ServerError::PackageNotFound(name) => "PackageNotFound("@ + debug_str(name@) + ")"@,
        ServerError::PackageVersionNotFound(name, range) => "PackageVersionNotFound("@
            + debug_str(name@) + ", "@ + debug_str(range@) + ")"@,
        ServerError::InvalidPackageSpecifier => "InvalidPackageSpecifier"@,
        ServerError::InvalidQuery => "InvalidQuery"@,
        ServerError::Base64DecodingError() => "Base64DecodingError"@,
        ServerError::SerializeError() => "SerializeError"@,
        ServerError::RequestErrorStatus { status_code } => "RequestErrorStatus { status_code: "@
            + decimal(status_code as nat) + " }"@,
        ServerError::PackageMetadataDownloadError { status_code, url } =>
            "PackageMetadataDownloadError { status_code: "@ + decimal(status_code as nat)
            + ", url: "@ + debug_str(url@) + " }"@,
        ServerError::UnexpectedError { message } => "UnexpectedError { message: "@ + debug_str(
            message@,
        ) + " }"@,
    }
}

impl ServerError {
    /// The HTTP status that answers this error.
    pub fn status_code(&self) -> (r: u16)
        ensures
            r == status_of(*self),
    {
        match self {
            ServerError::PackageNotFound(_) => 404,
            ServerError::PackageVersionNotFound(_, _) => 404,
            ServerError::InvalidPackageSpecifier => 400,
            ServerError::InvalidQuery => 400,
            ServerError::Base64DecodingError() => 400,
            ServerError::SerializeError() => 500,
            ServerError::RequestErrorStatus { .. } => 502,
            ServerError::PackageMetadataDownloadError { .. } => 502,
            ServerError::UnexpectedError { .. } => 500,
        }
    }

    /// The human-readable message of this error.
    pub fn message(&self) -> (r: String)
        ensures
            r@ == message_of(*self),
    {
        match self {
            ServerError::PackageNotFound(name) => String::from_str("Package not found: ").concat(
                name.as_str(),
            ),
            ServerError::PackageVersionNotFound(name, range) => String::from_str(
                "Package version not found: ",
            ).concat(name.as_str()).concat("@").concat(range.as_str()),
            ServerError::InvalidPackageSpecifier => String::from_str("Invalid package specifier"),
            ServerError::InvalidQuery => String::from_str("Invalid query"),
            ServerError::Base64DecodingError() => String::from_str("Failed to decode base64 query"),
            ServerError::SerializeError() => String::from_str("Failed to serialize response"),
            ServerError::RequestErrorStatus { status_code } => {
                let code: String = decimal_string(*status_code as u64);
                String::from_str("Upstream request failed with status ").concat(code.as_str())
            },
            ServerError::PackageMetadataDownloadError { status_code, url } => {
                let code: String = decimal_string(*status_code as u64);
                String::from_str("Failed to download package metadata from ").concat(
                    url.as_str(),
                ).concat(", status ").concat(code.as_str())
            },
            ServerError::UnexpectedError { message } => String::from_str(
                "Unexpected error: ",
            ).concat(message.as_str()),
        }
    }

    /// The detailed rendering of this error: its variant and its fields.
    pub fn details(&self) -> (r: String)
        ensures
            r@ == details_of(*self),
    {
        match self {
            ServerError::PackageNotFound(name) => {
                let n: String = debug_string(name.as_str());
                String::from_str("PackageNotFound(").concat(n.as_str()).concat(")")
            },
            ServerError::PackageVersionNotFound(name, range) => {
                let n: String = debug_string(name.as_str());
                let v: String = debug_string(range.as_str());
                String::from_str("PackageVersionNotFound(").concat(n.as_str()).concat(", ").concat(
                    v.as_str(),
                ).concat(")")
            },
            ServerError::InvalidPackageSpecifier => String::from_str("InvalidPackageSpecifier"),
            ServerError::InvalidQuery => String::from_str("InvalidQuery"),
            ServerError::Base64DecodingError() => String::from_str("Base64DecodingError"),
            ServerError::SerializeError() => String::from_str("SerializeError"),
            ServerError::RequestErrorStatus { status_code } => {
                let code: String = decimal_string(*status_code as u64);
                String::from_str("RequestErrorStatus { status_code: ").concat(code.as_str()).concat(
                    " }",
                )
            },
            ServerError::PackageMetadataDownloadError { status_code, url } => {
                let code: String = decimal_string(*status_code as u64);
                let u: String = debug_string(url.as_str());
                String::from_str("PackageMetadataDownloadError { status_code: ").concat(
                    code.as_str(),
                ).concat(", url: ").concat(u.as_str()).concat(" }")
            },
            ServerError::UnexpectedError { message } => {
                let m: String = debug_string(message.as_str());
                String::from_str("UnexpectedError { message: ").concat(m.as_str()).concat(" }")
            },
        }
    }
}

} // verus!

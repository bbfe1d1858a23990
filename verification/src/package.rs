//! Package metadata as the npm registry serves it, and the rules that the
//! download of that metadata follows.
use vstd::prelude::*;
use vstd::string::StringExecFns;

use crate::error::ServerError;
use crate::strmap::StringMap;

verus! {

/// Where the tarball of a version can be fetched.
#[derive(Debug, Clone)]
pub struct PackageDist {
    pub tarball: String,
}

/// One published version of a package: its tarball and its dependencies
/// (package name to version range).
#[derive(Debug, Clone)]
pub struct PackageVersion {
    pub dist: PackageDist,
    pub dependencies: StringMap<String>,
}

/// The (abbreviated) registry document of a package: its name, its dist-tags
/// (tag to version) and its versions (version to version data).
#[derive(Debug, Clone)]
pub struct PackageMetadata {
    pub name: String,
    pub dist_tags: StringMap<String>,
    pub versions: StringMap<PackageVersion>,
}

/// The registry from which package metadata is downloaded.
pub open spec fn registry_base() -> Seq<char> {
    "https://registry.npmjs.org/"@
}

/// The URL of the registry document of `pkg_name`.
pub fn registry_url(pkg_name: &str) -> (r: String)
    ensures
        r@ == registry_base() + pkg_name@,
{
    String::from_str("https://registry.npmjs.org/").concat(pkg_name)
}

/// The `Accept` header that asks the registry for the abbreviated document.
pub fn registry_accept_header() -> (r: String)
    ensures
        r@ == "application/vnd.npm.install-v1+json; q=1.0, application/json; q=0.8, */*"@,
{
    String::from_str("application/vnd.npm.install-v1+json; q=1.0, application/json; q=0.8, */*")
}

/// An HTTP status in the success class (2xx).
pub open spec fn is_success_status(status: u16) -> bool {
    200 <= status < 300
}

/// The outcome of a metadata download that answered with `status` from `url`:
/// a success status lets the body be read, any other is an error that names
/// the status and the URL.
pub fn check_download_status(status: u16, url: String) -> (r: Result<(), ServerError>)
    ensures
        is_success_status(status) <==> r is Ok,
        !is_success_status(status) ==> r == Err::<(), ServerError>(
            ServerError::PackageMetadataDownloadError { status_code: status, url },
        ),
{
    if 200 <= status && status < 300 {
        Ok(())
    } else {
        Err(ServerError::PackageMetadataDownloadError { status_code: status, url })
    }
}

} // verus!

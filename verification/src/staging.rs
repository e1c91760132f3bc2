//! Where transfers are staged: under the upload directory, or under the host's
//! temporary directory where the first cannot be written.

use crate::paths::{join, joined};
use crate::text::{cat2, cat3, cat5};
use vstd::prelude::*;

verus! {

pub const STAGING_DIRNAME: &'static str = ".sentinelx_uploads";

/// The staging directory under the upload directory.
pub fn primary_root(upload_base: &str) -> (r: String)
    ensures
        r@ == joined(upload_base@, STAGING_DIRNAME@),
{
    join(upload_base, STAGING_DIRNAME)
}

/// The staging directory under the host's temporary directory.
pub fn fallback_root(temp_dir: &str) -> (r: String)
    ensures
        r@ == joined(joined(temp_dir@, "sentinelx-staging"@), STAGING_DIRNAME@),
{
    join(&join(temp_dir, "sentinelx-staging"), STAGING_DIRNAME)
}

/// A name for a file that only shows whether a directory can be written.
pub fn probe_name(process_id: u32) -> (r: String)
    ensures
        r@ == ".write-probe-"@ + crate::digits::decimal(process_id as nat),
{
    cat2(".write-probe-", &crate::digits::decimal_text(process_id as u64))
}

/// What keeps a directory from being written.
#[derive(Debug, Clone, Copy, PartialEq, Eq, Structural)]
pub enum StagingFault {
    NoSpace,
    PermissionDenied,
    ReadOnly,
    Other,
}

/// A failure to write to a directory: its kind and its text.
#[derive(Debug)]
pub struct StagingError {
    pub kind: StagingFault,
    pub message: String,
}

/// What keeps two directories from being written: what is known of the first, else
/// what is known of the second.
pub open spec fn either_fault(first: StagingFault, second: StagingFault) -> StagingFault {
    if first == StagingFault::Other {
        second
    } else {
        first
    }
}

/// What is said where neither directory can be written.
pub open spec fn no_staging(primary: Seq<char>, e1: Seq<char>, fallback: Seq<char>, e2: Seq<char>) -> Seq<char> {
    "no writable staging directory: "@ + primary + " ("@ + e1 + ") and "@ + (fallback + " ("@ + e2 + ")"@)
}

/// The staging directory, given what was found when writing to the two: the first
/// where it can be written, else the second.
pub fn staging_root(
    upload_base: &str,
    temp_dir: &str,
    primary_error: Option<StagingError>,
    fallback_error: Option<StagingError>,
) -> (r: Result<String, StagingError>)
    ensures
        ({
            let primary = joined(upload_base@, STAGING_DIRNAME@);
            let fallback = joined(joined(temp_dir@, "sentinelx-staging"@), STAGING_DIRNAME@);
            match (primary_error, fallback_error) {
                (None, _) => r matches Ok(p) && p@ == primary,
                (Some(_), None) => r matches Ok(p) && p@ == fallback,
                (Some(e1), Some(e2)) => r matches Err(e) && e.message@ == no_staging(
                    primary,
                    e1.message@,
                    fallback,
                    e2.message@,
                ) && e.kind == either_fault(e1.kind, e2.kind),
            }
        }),
{
    let primary = primary_root(upload_base);
    match primary_error {
        None => Ok(primary),
        Some(e1) => {
            let fallback = fallback_root(temp_dir);
            match fallback_error {
                None => Ok(fallback),
                Some(e2) => {
                    let kind = if e1.kind == StagingFault::Other {
                        e2.kind
                    } else {
                        e1.kind
                    };
                    let message = cat2(
                        &cat5("no writable staging directory: ", &primary, " (", &e1.message, ") and "),
                        &cat2(&cat3(&fallback, " (", &e2.message), ")"),
                    );
                    Err(StagingError { kind, message })
                },
            }
        },
    }
}

/// Where both directories fail, the fault that says most is told: that of the first, unless
/// nothing is known of it.
pub proof fn known_faults_are_told(first: StagingFault, second: StagingFault)
    ensures
        first != StagingFault::Other ==> either_fault(first, second) == first,
        first == StagingFault::Other ==> either_fault(first, second) == second,
{
}

} // verus!

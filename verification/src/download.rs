//! Integrity decisions of the verified-download pipeline.
//!
//! Fetching bytes is the caller's concern; every decision about them is
//! made here.  A fetched artifact is accepted only if its recomputed
//! checksum equals the recorded one exactly and, where the owning
//! repository requires signature checking, its signature verified
//! against the repository's keys.  An integrity failure is never
//! retried; a transient fetch failure is retried a bounded number of
//! times.  Local packages are never fetched: their requirement records
//! pass through the lockfile untouched.
//!
//! The overall download is fail-complete: every package's outcome is
//! produced before the summary is taken, and the summary reports the
//! first package whose verification failed.

use vstd::prelude::*;
use crate::lockfile::{Checksum, ChecksumModel, Package, PackageModel};

verus! {

/// The result of checking a fetched artifact's embedded signature
/// against the owning repository's configured keys.
#[derive(Clone, Copy, PartialEq, Eq, Structural, Debug)]
pub enum SignatureCheck {
    /// No signature is present.
    Missing,
    /// A signature is present but verifies against none of the keys.
    Mismatch,
    /// The signature verified against a configured key.
    Valid,
}

/// The outcome of one fetch attempt, as handed in by the caller.
pub enum FetchOutcome {
    /// The fetch itself failed (network or I/O): possibly transient.
    Transient,
    /// The artifact was fetched; its checksum was recomputed with the
    /// algorithm recorded for the package, and its signature checked.
    Fetched { computed: Checksum, signature: SignatureCheck },
}

/// A hard download failure, identifying the failing package.
#[derive(Clone, Debug)]
pub enum DownloadError {
    /// The recomputed checksum differs from the recorded one.
    ChecksumMismatch { name: String },
    /// The repository requires signature checking and the artifact's
    /// signature is missing or verifies against no configured key.
    SignatureRejected { name: String },
    /// The fetch failed and the retry budget is exhausted.
    FetchFailed { name: String },
}

/// What to do after one fetch attempt.
pub enum StepDecision {
    /// Fetch again: the failure was transient and attempts remain.
    Retry,
    /// Give the artifact up; the error says why.
    Fail(DownloadError),
    /// The artifact is verified and may be used.
    Accept,
}

/// Whether a fetched artifact passes integrity verification: the
/// recomputed checksum equals the recorded one exactly, and — only
/// where the repository requires it — the signature verified.
pub open spec fn verify_ok(
    p: PackageModel,
    gpgcheck: bool,
    computed: ChecksumModel,
    signature: SignatureCheck,
) -> bool {
    computed == p.checksum && (gpgcheck ==> signature == SignatureCheck::Valid)
}

/// Decides whether a fetched artifact is acceptable.
///
/// A checksum mismatch is an integrity error whatever else holds of
/// the fetch.  With `gpgcheck` false the signature is ignored by
/// explicit repository policy; with it true, a missing or mismatched
/// signature rejects the artifact.
pub fn verify_artifact(pkg: &Package, gpgcheck: bool, computed: &Checksum, signature:
    SignatureCheck) -> (r: Result<(), DownloadError>)
    ensures
        (r is Ok) <==> verify_ok(pkg@, gpgcheck, computed@, signature),
        computed@ != pkg@.checksum ==> (match r {
            Result::Err(DownloadError::ChecksumMismatch { name }) => name@ == pkg@.name,
            _ => false,
        }),
        computed@ == pkg@.checksum && gpgcheck && signature != SignatureCheck::Valid ==> (match r {
            Result::Err(DownloadError::SignatureRejected { name }) => name@ == pkg@.name,
            _ => false,
        }),
{
    if !computed.matches(&pkg.checksum) {
        return Result::Err(DownloadError::ChecksumMismatch { name: pkg.name.clone() });
    }
    if gpgcheck && !matches!(signature, SignatureCheck::Valid) {
        return Result::Err(DownloadError::SignatureRejected { name: pkg.name.clone() });
    }
    Result::Ok(())
}

/// Decides the next step after one fetch attempt for a package:
/// verify a fetched artifact, retry a transient failure while the
/// bounded retry budget lasts, and fail it once the budget is spent.
/// `attempts` counts the attempts already made, `max_attempts` the
/// budget.
pub fn download_step(
    pkg: &Package,
    gpgcheck: bool,
    outcome: &FetchOutcome,
    attempts: u64,
    max_attempts: u64,
) -> (r: StepDecision)
    requires
        attempts < max_attempts,
    ensures
        match outcome {
            FetchOutcome::Transient => if attempts + 1 < max_attempts {
                r is Retry
            } else {
                match r {
                    StepDecision::Fail(DownloadError::FetchFailed { name }) => name@ == pkg@.name,
                    _ => false,
                }
            },
            FetchOutcome::Fetched { computed, signature } => if verify_ok(
                pkg@,
                gpgcheck,
                computed@,
                *signature,
            ) {
                r is Accept
            } else {
                match r {
                    StepDecision::Fail(e) => match e {
                        DownloadError::ChecksumMismatch { name } => name@ == pkg@.name && computed@
                            != pkg@.checksum,
                        DownloadError::SignatureRejected { name } => name@ == pkg@.name && computed@
                            == pkg@.checksum,
                        DownloadError::FetchFailed { .. } => false,
                    },
                    _ => false,
                }
            },
        },
{
    match outcome {
        FetchOutcome::Transient => {
            if attempts + 1 < max_attempts {
                StepDecision::Retry
            } else {
                StepDecision::Fail(DownloadError::FetchFailed { name: pkg.name.clone() })
            }
        },
        FetchOutcome::Fetched { computed, signature } => {
            match verify_artifact(pkg, gpgcheck, computed, *signature) {
                Result::Ok(_) => StepDecision::Accept,
                Result::Err(e) => StepDecision::Fail(e),
            }
        },
    }
}

/// Summarizes the per-package verification outcomes of a whole
/// download: the first failing package's index decides the overall
/// result, and only a run with no failure passes.  The caller hands in
/// one outcome per package, so every verification has completed before
/// the summary is taken (fail-complete, not fail-fast).
pub fn first_failure(outcomes: &Vec<Result<(), DownloadError>>) -> (r: Option<usize>)
    ensures
        match r {
            Option::None => forall|j: int| 0 <= j < outcomes@.len() ==> (#[trigger] outcomes@[j]) is Ok,
            Option::Some(i) => i < outcomes@.len() && outcomes@[i as int] is Err && forall|j: int|
                0 <= j < i ==> (#[trigger] outcomes@[j]) is Ok,
        },
{
    let mut i: usize = 0;
    while i < outcomes.len()
        invariant
            0 <= i <= outcomes.len(),
            forall|j: int| 0 <= j < i ==> (#[trigger] outcomes@[j]) is Ok,
        decreases outcomes.len() - i,
    {
        if outcomes[i].is_err() {
            return Option::Some(i);
        }
        i = i + 1;
    }
    Option::None
}

} // verus!

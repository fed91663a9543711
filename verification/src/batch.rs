//! The install batcher: one resolution pass ends in at most two installer
//! invocations — one batch from the trusted repository, one batch of
//! artifact files — and an empty batch is skipped entirely rather than
//! issued as a no-op call.

use vstd::prelude::*;

verus! {

/// The final output of one classification pass, consumed once by the
/// batcher.
pub struct ResolutionResult {
    pub trusted_repo_batch: Vec<String>,
    pub artifact_batch: Vec<String>,
}

/// One installer invocation.
pub enum InstallerCall {
    InstallFromRepo(Vec<String>),
    InstallFromFiles(Vec<String>),
}

/// Turns a resolution result into the installer invocations to issue: the
/// trusted-repository batch first, then the artifact-file batch, each only
/// when non-empty, so never more than two calls.
pub fn plan_installer_calls(r: ResolutionResult) -> (calls: Vec<InstallerCall>)
    ensures
        calls@.len() == (if r.trusted_repo_batch@.len() > 0 {
            1int
        } else {
            0int
        }) + (if r.artifact_batch@.len() > 0 {
            1int
        } else {
            0int
        }),
        calls@.len() <= 2,
        r.trusted_repo_batch@.len() > 0 ==> (calls@[0] matches InstallerCall::InstallFromRepo(v)
            && v == r.trusted_repo_batch),
        r.artifact_batch@.len() > 0 ==> (calls@[calls@.len() - 1]
            matches InstallerCall::InstallFromFiles(v) && v == r.artifact_batch),
{
    let ResolutionResult { trusted_repo_batch, artifact_batch } = r;
    let mut calls: Vec<InstallerCall> = Vec::new();
    let repo_nonempty = trusted_repo_batch.len() > 0;
    if repo_nonempty {
        calls.push(InstallerCall::InstallFromRepo(trusted_repo_batch));
    }
    if artifact_batch.len() > 0 {
        calls.push(InstallerCall::InstallFromFiles(artifact_batch));
    }
    calls
}

} // verus!

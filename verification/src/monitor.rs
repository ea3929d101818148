//! The end of a monitored process: turning the exit status and the
//! host's observations of the disk into the job's terminal state, with
//! the history snapshot written exactly once.

use vstd::prelude::*;
use crate::errors::{DownloadError, spec_message};
use crate::jobs::{Job, JobKind, JobStatus};
use crate::store::{Gateway, HistoryEntry, gateway_wf};
use crate::lifecycle::LifecycleError;

verus! {

/// What a finished process amounts to, once the artifacts were
/// checked.
#[derive(PartialEq, Eq, Structural, Clone, Copy, Debug)]
pub enum ExitOutcome {
    /// The engine succeeded and the artifacts corroborate it.
    Completed,
    /// The engine claimed success, but the final file is absent while
    /// unmerged chunk files remain: its assembly step is not trusted.
    AssemblyFailed,
    /// The engine itself failed.
    Failed,
}

/// Success is read purely from the exit status; a successful HTTP
/// download is then held against the disk: a missing final artifact
/// with chunk files still present overrides the verdict.
pub fn decide_exit(
    success: bool,
    kind: JobKind,
    final_file_exists: bool,
    has_chunk_files: bool,
) -> (r: ExitOutcome)
    ensures
        !success ==> r is Failed,
        success && kind is Http && !final_file_exists && has_chunk_files ==> r is AssemblyFailed,
        success && !(kind is Http && !final_file_exists && has_chunk_files) ==> r is Completed,
{
    if !success {
        ExitOutcome::Failed
    } else if matches!(kind, JobKind::Http) && !final_file_exists && has_chunk_files {
        ExitOutcome::AssemblyFailed
    } else {
        ExitOutcome::Completed
    }
}

/// The size recorded in history: the reported total, or what was
/// downloaded when the engine never learned the total.
pub open spec fn history_size(j: Job) -> u64 {
    if j.total > 0 {
        j.total
    } else {
        j.downloaded
    }
}

/// Commits a terminal state. On completion the job row is kept (it
/// stays visible until removed) and the history snapshot is written,
/// idempotently by id; on failure the row turns to `Error`, with the
/// assembly message exactly when the artifacts contradicted the
/// engine. Only a mid-flight row can be finalized: a job paused
/// before its process was reaped stays as it is.
pub fn finalize_exit(gw: &mut Gateway, id: &str, outcome: ExitOutcome, now_secs: u64) -> (r:
    Result<Job, LifecycleError>)
    requires
        gateway_wf(*old(gw)),
    ensures
        gateway_wf(*final(gw)),
        final(gw).settings == old(gw).settings,
        !old(gw).jobs.spec_contains(id@) ==> (r matches Err(e) && e is NotFound && *final(gw)
            == *old(gw)),
        old(gw).jobs.spec_contains(id@) && !(old(gw).jobs.value_of(id@).status is Downloading)
            ==> (r matches Err(e) && e is Illegal && *final(gw) == *old(gw)),
        old(gw).jobs.spec_contains(id@) && old(gw).jobs.value_of(id@).status is Downloading ==> ({
            let j = old(gw).jobs.value_of(id@);
            &&& r matches Ok(out)
            &&& final(gw).jobs.spec_contains(id@)
            &&& out == final(gw).jobs.value_of(id@)
            &&& out == (match outcome {
                ExitOutcome::Completed => Job {
                    status: JobStatus::Completed,
                    updated_at: now_secs,
                    ..j
                },
                ExitOutcome::AssemblyFailed => Job {
                    status: JobStatus::Error,
                    error: out.error,
                    updated_at: now_secs,
                    ..j
                },
                ExitOutcome::Failed => Job {
                    status: JobStatus::Error,
                    updated_at: now_secs,
                    ..j
                },
            })
            &&& (outcome is AssemblyFailed ==> (out.error matches Some(m) && m@ == spec_message(
                DownloadError::AssemblyVerificationFailed,
            )))
            &&& (outcome is Completed ==> {
                &&& final(gw).history.spec_contains(id@)
                &&& (old(gw).history.spec_contains(id@) ==> final(gw).history == old(gw).history)
                &&& (!old(gw).history.spec_contains(id@) ==> {
                    let e = final(gw).history.value_of(id@);
                    &&& e.id@ == id@
                    &&& e.source == j.source
                    &&& e.output == j.output
                    &&& e.kind == j.kind
                    &&& e.size == history_size(j)
                    &&& e.completed_at == now_secs
                    &&& e.metadata == j.metadata
                })
            })
            &&& (!(outcome is Completed) ==> final(gw).history == old(gw).history)
            &&& forall|other: Seq<char>|
                other != id@ && old(gw).jobs.spec_contains(other) ==> final(gw).jobs.value_of(
                    other,
                ) == old(gw).jobs.value_of(other)
        }),
{
    let j = match gw.read_job(id) {
        Some(j) => j,
        None => {
            return Err(LifecycleError::NotFound);
        },
    };
    if !matches!(j.status, JobStatus::Downloading) {
        return Err(
            LifecycleError::Illegal(
                crate::jobs::IllegalTransition { op: crate::jobs::JobOp::Complete, from: j.status },
            ),
        );
    }
    match outcome {
        ExitOutcome::Completed => {
            let entry = HistoryEntry {
                id: j.id.clone(),
                source: j.source.clone(),
                output: j.output.clone(),
                kind: j.kind,
                size: if j.total > 0 {
                    j.total
                } else {
                    j.downloaded
                },
                completed_at: now_secs,
                metadata: j.metadata.duplicate(),
            };
            let mut updated = j;
            updated.status = JobStatus::Completed;
            updated.updated_at = now_secs;
            let out = updated.duplicate();
            gw.update_job(updated);
            gw.add_history_if_absent(entry);
            Ok(out)
        },
        ExitOutcome::AssemblyFailed => {
            let mut updated = j;
            updated.status = JobStatus::Error;
            updated.error = Some(DownloadError::AssemblyVerificationFailed.message());
            updated.updated_at = now_secs;
            let out = updated.duplicate();
            gw.update_job(updated);
            Ok(out)
        },
        ExitOutcome::Failed => {
            let mut updated = j;
            updated.status = JobStatus::Error;
            updated.updated_at = now_secs;
            let out = updated.duplicate();
            gw.update_job(updated);
            Ok(out)
        },
    }
}

} // verus!

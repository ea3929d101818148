//! The caller-facing lifecycle operations: starting a job, pausing it,
//! planning a resume, and recording live progress. Each one validates
//! the transition, rewrites the row, and tells the host exactly what
//! to do next; the host only kills, spawns, and emits.

use vstd::prelude::*;
use crate::args::{build_command_args, spec_command_args, strs};
use crate::jobs::{
    Job, JobStatus, JobOp, IllegalTransition, new_job, spec_kind_of, spec_default_output,
    transition_allowed, PROGRESS_SCALE,
};
use crate::options::DownloadOptions;
use crate::store::{Gateway, gateway_wf};

verus! {

/// Why a lifecycle operation was refused.
pub enum LifecycleError {
    /// No job row carries the given id.
    NotFound,
    /// The legality table refuses the transition.
    Illegal(IllegalTransition),
    /// A row with this id already exists.
    DuplicateId,
}

/// The stored progress republished when a job is resumed, so observers
/// never see the counters fall back while the engine warms up.
pub struct RestoredProgress {
    pub progress: u64,
    pub downloaded: u64,
    pub total: u64,
}

/// What the host must do after a resume was planned. With `Spawn`, the
/// restored-progress notification is emitted first, then, after a
/// short delay, the engine is spawned with the given arguments: this
/// order is what keeps observers from seeing progress regress.
pub enum ResumeAction {
    /// A live process already exists: the row was corrected, nothing
    /// is spawned.
    CorrectStatus,
    Spawn { args: Vec<String>, restored: RestoredProgress },
}

/// Creates the job row for a new download: `Paused`, all counters at
/// zero, kind and output derived from the source. No process exists
/// yet; a resume starts one.
pub fn start_download(
    gw: &mut Gateway,
    id: String,
    source: String,
    output: Option<String>,
    default_dir: &str,
    options: Option<DownloadOptions>,
    now_secs: u64,
) -> (r: Result<Job, LifecycleError>)
    requires
        gateway_wf(*old(gw)),
    ensures
        gateway_wf(*final(gw)),
        final(gw).history == old(gw).history,
        final(gw).settings == old(gw).settings,
        old(gw).jobs.spec_contains(id@) ==> (r matches Err(e) && e is DuplicateId && *final(gw)
            == *old(gw)),
        !old(gw).jobs.spec_contains(id@) ==> (r matches Ok(job) && {
            &&& final(gw).jobs.spec_contains(id@)
            &&& final(gw).jobs.value_of(id@) == job
            &&& job.id@ == id@
            &&& job.source == source
            &&& job.kind == spec_kind_of(source@)
            &&& job.output@ == (match output {
                Some(o) => o@,
                None => spec_default_output(source@, default_dir@),
            })
            &&& job.status is Paused
            &&& job.progress == 0
            &&& job.downloaded == 0
            &&& job.total == 0
            &&& job.speed == 0
            &&& job.error is None
            &&& job.metadata.options == options
            &&& job.started_at == now_secs
            &&& job.updated_at == now_secs
            &&& forall|other: Seq<char>|
                other != id@ ==> final(gw).jobs.spec_contains(other) == old(
                    gw,
                ).jobs.spec_contains(other)
            &&& forall|other: Seq<char>|
                other != id@ && old(gw).jobs.spec_contains(other) ==> final(gw).jobs.value_of(
                    other,
                ) == old(gw).jobs.value_of(other)
        }),
{
    let job = new_job(id, source, output, default_dir, options, now_secs);
    let out = job.duplicate();
    match gw.create_job(job) {
        Ok(()) => Ok(out),
        Err(_) => Err(LifecycleError::DuplicateId),
    }
}

/// The pause reason stamped when the user pauses a job.
pub open spec fn user_pause_reason() -> Seq<char> {
    "Paused by user"@
}

/// Pauses a mid-flight job: the host has already killed its process;
/// this stamps the reason and the instant and parks the row.
pub fn pause_download(gw: &mut Gateway, id: &str, now_secs: u64) -> (r: Result<
    Job,
    LifecycleError,
>)
    requires
        gateway_wf(*old(gw)),
    ensures
        gateway_wf(*final(gw)),
        final(gw).history == old(gw).history,
        final(gw).settings == old(gw).settings,
        !old(gw).jobs.spec_contains(id@) ==> (r matches Err(e) && e is NotFound && *final(gw)
            == *old(gw)),
        old(gw).jobs.spec_contains(id@) && !transition_allowed(
            JobOp::Pause,
            old(gw).jobs.value_of(id@).status,
            old(gw).jobs.value_of(id@).kind,
        ) ==> (r matches Err(e) && e is Illegal && *final(gw) == *old(gw)),
        old(gw).jobs.spec_contains(id@) && transition_allowed(
            JobOp::Pause,
            old(gw).jobs.value_of(id@).status,
            old(gw).jobs.value_of(id@).kind,
        ) ==> (r matches Ok(job) && {
            let j = old(gw).jobs.value_of(id@);
            &&& final(gw).jobs.spec_contains(id@)
            &&& final(gw).jobs.value_of(id@) == job
            &&& job.status is Paused
            &&& job.id == j.id
            &&& job.source == j.source
            &&& job.output == j.output
            &&& job.kind == j.kind
            &&& job.progress == j.progress
            &&& job.downloaded == j.downloaded
            &&& job.total == j.total
            &&& job.speed == j.speed
            &&& job.error == j.error
            &&& (job.metadata.pause_reason matches Some(p) && p@ == user_pause_reason())
            &&& job.metadata.paused_at == Some(now_secs)
            &&& job.metadata.auto_paused == j.metadata.auto_paused
            &&& job.metadata.options == j.metadata.options
            &&& job.updated_at == now_secs
            &&& forall|other: Seq<char>|
                other != id@ && old(gw).jobs.spec_contains(other) ==> final(gw).jobs.value_of(
                    other,
                ) == old(gw).jobs.value_of(other)
        }),
{
    let j = match gw.read_job(id) {
        Some(j) => j,
        None => {
            return Err(LifecycleError::NotFound);
        },
    };
    match crate::jobs::apply_transition(JobOp::Pause, j.status, j.kind) {
        Ok(st) => {
            let mut updated = j;
            updated.status = st;
            updated.metadata.pause_reason = Some("Paused by user".to_owned());
            updated.metadata.paused_at = Some(now_secs);
            updated.updated_at = now_secs;
            let out = updated.duplicate();
            gw.update_job(updated);
            Ok(out)
        },
        Err(e) => Err(LifecycleError::Illegal(e)),
    }
}

/// Plans a resume. When a live process already exists the row is only
/// corrected to `Downloading`; otherwise the row is moved to
/// `Downloading` with its pause stamps cleared, and the host receives
/// the engine arguments together with the stored progress to
/// republish, exactly as stored, before the spawn.
pub fn plan_resume(
    gw: &mut Gateway,
    id: &str,
    process_exists: bool,
    expanded_output: &str,
    now_secs: u64,
) -> (r: Result<ResumeAction, LifecycleError>)
    requires
        gateway_wf(*old(gw)),
    ensures
        gateway_wf(*final(gw)),
        final(gw).history == old(gw).history,
        final(gw).settings == old(gw).settings,
        !old(gw).jobs.spec_contains(id@) ==> (r matches Err(e) && e is NotFound && *final(gw)
            == *old(gw)),
        old(gw).jobs.spec_contains(id@) && !transition_allowed(
            JobOp::Resume,
            old(gw).jobs.value_of(id@).status,
            old(gw).jobs.value_of(id@).kind,
        ) ==> (r matches Err(e) && e is Illegal && *final(gw) == *old(gw)),
        old(gw).jobs.spec_contains(id@) && transition_allowed(
            JobOp::Resume,
            old(gw).jobs.value_of(id@).status,
            old(gw).jobs.value_of(id@).kind,
        ) ==> ({
            let j = old(gw).jobs.value_of(id@);
            &&& final(gw).jobs.spec_contains(id@)
            &&& final(gw).jobs.value_of(id@).status is Downloading
            &&& final(gw).jobs.value_of(id@).progress == j.progress
            &&& final(gw).jobs.value_of(id@).downloaded == j.downloaded
            &&& final(gw).jobs.value_of(id@).total == j.total
            &&& (process_exists ==> (r matches Ok(a) && a is CorrectStatus))
            &&& (!process_exists ==> (r matches Ok(a) && a matches ResumeAction::Spawn {
                args,
                restored,
            } && {
                &&& strs(args@) == spec_command_args(
                    j.source@,
                    expanded_output@,
                    id@,
                    j.metadata.options,
                )
                &&& restored.progress == j.progress
                &&& restored.downloaded == j.downloaded
                &&& restored.total == j.total
                &&& final(gw).jobs.value_of(id@).metadata.pause_reason is None
                &&& final(gw).jobs.value_of(id@).metadata.paused_at is None
                &&& !final(gw).jobs.value_of(id@).metadata.auto_paused
                &&& final(gw).jobs.value_of(id@).metadata.options == j.metadata.options
            }))
            &&& forall|other: Seq<char>|
                other != id@ && old(gw).jobs.spec_contains(other) ==> final(gw).jobs.value_of(
                    other,
                ) == old(gw).jobs.value_of(other)
        }),
{
    let j = match gw.read_job(id) {
        Some(j) => j,
        None => {
            return Err(LifecycleError::NotFound);
        },
    };
    match crate::jobs::apply_transition(JobOp::Resume, j.status, j.kind) {
        Ok(st) => {
            if process_exists {
                let mut updated = j;
                updated.status = st;
                gw.update_job(updated);
                Ok(ResumeAction::CorrectStatus)
            } else {
                let args = build_command_args(
                    j.source.as_str(),
                    expanded_output,
                    id,
                    &j.metadata.options,
                );
                let restored = RestoredProgress {
                    progress: j.progress,
                    downloaded: j.downloaded,
                    total: j.total,
                };
                let mut updated = j;
                updated.status = st;
                updated.metadata.pause_reason = None;
                updated.metadata.paused_at = None;
                updated.metadata.auto_paused = false;
                gw.update_job(updated);
                Ok(ResumeAction::Spawn { args, restored })
            }
        },
        Err(e) => Err(LifecycleError::Illegal(e)),
    }
}

/// A failed resume attempt must not poison the startup batch: the job
/// is merely parked again for a manual retry.
pub fn revert_to_paused(gw: &mut Gateway, id: &str)
    requires
        gateway_wf(*old(gw)),
    ensures
        gateway_wf(*final(gw)),
        final(gw).history == old(gw).history,
        final(gw).settings == old(gw).settings,
        old(gw).jobs.spec_contains(id@) ==> final(gw).jobs.spec_contains(id@) && final(gw).jobs.value_of(id@) == (Job {
            status: JobStatus::Paused,
            error: None,
            ..old(gw).jobs.value_of(id@)
        }),
        !old(gw).jobs.spec_contains(id@) ==> *final(gw) == *old(gw),
        forall|other: Seq<char>|
            other != id@ && old(gw).jobs.spec_contains(other) ==> final(gw).jobs.value_of(other)
                == old(gw).jobs.value_of(other),
{
    match gw.read_job(id) {
        Some(j) => {
            let mut updated = j;
            updated.status = JobStatus::Paused;
            // A paused row carries no error text: the message belongs
            // to the Error state alone.
            updated.error = None;
            gw.update_job(updated);
        },
        None => {},
    }
}

/// Writes the cached progress of one job to its row: the periodic
/// flush and the immediate-persistence path both end here.
pub fn save_progress(
    gw: &mut Gateway,
    id: &str,
    progress: u64,
    downloaded: u64,
    total: u64,
    speed: u64,
    now_secs: u64,
) -> (found: bool)
    requires
        gateway_wf(*old(gw)),
        progress <= PROGRESS_SCALE,
    ensures
        gateway_wf(*final(gw)),
        final(gw).history == old(gw).history,
        final(gw).settings == old(gw).settings,
        found == old(gw).jobs.spec_contains(id@),
        !found ==> *final(gw) == *old(gw),
        found ==> final(gw).jobs.spec_contains(id@) && final(gw).jobs.value_of(id@) == (Job {
            progress,
            downloaded,
            total,
            speed,
            updated_at: now_secs,
            ..old(gw).jobs.value_of(id@)
        }),
        forall|other: Seq<char>|
            other != id@ && old(gw).jobs.spec_contains(other) ==> final(gw).jobs.value_of(other)
                == old(gw).jobs.value_of(other),
{
    match gw.read_job(id) {
        Some(j) => {
            let mut updated = j;
            updated.progress = progress;
            updated.downloaded = downloaded;
            updated.total = total;
            updated.speed = speed;
            updated.updated_at = now_secs;
            gw.update_job(updated);
            true
        },
        None => false,
    }
}

} // verus!

//! The download job: its record, how its kind and default output path
//! are derived from the source at creation, and the lifecycle state
//! machine with its single transition table.

use vstd::prelude::*;
use crate::options::DownloadOptions;
use crate::strutil::{
    starts_with, ends_with, has_sub, str_starts_with, str_ends_with, str_contains,
};

verus! {

/// Progress is carried in hundredths of a percent, so `100%` is `10_000`.
pub const PROGRESS_SCALE: u64 = 10000;

#[derive(PartialEq, Eq, Structural, Clone, Copy, Debug)]
pub enum JobStatus {
    Paused,
    Downloading,
    Completed,
    Error,
    Seeding,
}

#[derive(PartialEq, Eq, Structural, Clone, Copy, Debug)]
pub enum JobKind {
    Http,
    Torrent,
    Magnet,
}

/// Free-form extension data kept with a job, reduced to the fields the
/// core actually reads and writes.
pub struct Metadata {
    pub pause_reason: Option<String>,
    pub paused_at: Option<u64>,
    pub auto_paused: bool,
    pub options: Option<DownloadOptions>,
}

impl Metadata {
    pub fn duplicate(&self) -> (r: Metadata)
        ensures
            r == *self,
    {
        Metadata {
            pause_reason: match &self.pause_reason {
                Some(s) => Some(s.clone()),
                None => None,
            },
            paused_at: self.paused_at,
            auto_paused: self.auto_paused,
            options: match &self.options {
                Some(o) => Some(o.duplicate()),
                None => None,
            },
        }
    }
}

/// The central persistent record of one download job.
pub struct Job {
    pub id: String,
    pub source: String,
    pub output: String,
    pub kind: JobKind,
    pub status: JobStatus,
    /// Hundredths of a percent, `0..=PROGRESS_SCALE`.
    pub progress: u64,
    pub downloaded: u64,
    pub total: u64,
    pub speed: u64,
    pub error: Option<String>,
    pub metadata: Metadata,
    pub started_at: u64,
    pub updated_at: u64,
}

impl Job {
    /// Well-formedness: progress never leaves `0..=100%`, and an error
    /// message is present only in the `Error` state.
    pub open spec fn wf(self) -> bool {
        &&& self.progress <= PROGRESS_SCALE
        &&& self.error is Some ==> self.status is Error
    }

    pub fn duplicate(&self) -> (r: Job)
        ensures
            r == *self,
    {
        Job {
            id: self.id.clone(),
            source: self.source.clone(),
            output: self.output.clone(),
            kind: self.kind,
            status: self.status,
            progress: self.progress,
            downloaded: self.downloaded,
            total: self.total,
            speed: self.speed,
            error: match &self.error {
                Some(s) => Some(s.clone()),
                None => None,
            },
            metadata: self.metadata.duplicate(),
            started_at: self.started_at,
            updated_at: self.updated_at,
        }
    }
}

// ---------------------------------------------------------------------
// Deriving the kind and the default output path from the source.
// ---------------------------------------------------------------------

/// `s` with every trailing `c` removed.
pub open spec fn strip_trailing(s: Seq<char>, c: char) -> Seq<char>
    decreases s.len(),
{
    if s.len() > 0 && s.last() == c {
        strip_trailing(s.drop_last(), c)
    } else {
        s
    }
}

/// The characters of `s` after the last occurrence of `c`; all of `s`
/// when `c` does not occur.
pub open spec fn suffix_after_last(s: Seq<char>, c: char) -> Seq<char>
    decreases s.len(),
{
    if s.len() == 0 {
        s
    } else if s.last() == c {
        Seq::empty()
    } else {
        suffix_after_last(s.drop_last(), c).push(s.last())
    }
}

/// The final path segment of the source, with trailing slashes ignored;
/// empty when the source has no segment at all.
pub open spec fn raw_file_name(s: Seq<char>) -> Seq<char> {
    suffix_after_last(strip_trailing(s, '/'), '/')
}

/// The file name used for a default HTTP output path: the final segment
/// of the source, or `"download"` when there is none.
pub open spec fn file_name_or_default(s: Seq<char>) -> Seq<char> {
    if raw_file_name(s).len() == 0 {
        "download"@
    } else {
        raw_file_name(s)
    }
}

/// The final segment has an extension when a dot occurs past its first
/// character (a name that only starts with a dot has none).
pub open spec fn has_extension(name: Seq<char>) -> bool {
    exists|i: int| 1 <= i < name.len() && name[i] == '.'
}

/// The extension of a segment: the characters after its last dot.
pub open spec fn extension_of(name: Seq<char>) -> Seq<char> {
    suffix_after_last(name, '.')
}

/// The word `torrent`, compared without regard to ASCII case.
pub open spec fn is_torrent_word(e: Seq<char>) -> bool {
    &&& e.len() == 7
    &&& (e[0] == 't' || e[0] == 'T')
    &&& (e[1] == 'o' || e[1] == 'O')
    &&& (e[2] == 'r' || e[2] == 'R')
    &&& (e[3] == 'r' || e[3] == 'R')
    &&& (e[4] == 'e' || e[4] == 'E')
    &&& (e[5] == 'n' || e[5] == 'N')
    &&& (e[6] == 't' || e[6] == 'T')
}

pub open spec fn has_torrent_extension(s: Seq<char>) -> bool {
    has_extension(raw_file_name(s)) && is_torrent_word(extension_of(raw_file_name(s)))
}

/// The kind derived once from the source at creation.
pub open spec fn spec_kind_of(s: Seq<char>) -> JobKind {
    if starts_with(s, "magnet:"@) {
        JobKind::Magnet
    } else if has_sub(s, ".torrent"@) || has_torrent_extension(s) {
        JobKind::Torrent
    } else {
        JobKind::Http
    }
}

/// Whether a defaulted output is the download directory itself (torrent
/// and magnet sources) rather than a file inside it.
pub open spec fn output_is_directory(s: Seq<char>) -> bool {
    ||| starts_with(s, "magnet:"@)
    ||| ends_with(s, ".torrent"@)
    ||| has_torrent_extension(s)
}

/// The output path when the caller supplied none: the default download
/// directory itself for directory-style sources, otherwise a file named
/// after the source inside that directory.
pub open spec fn spec_default_output(s: Seq<char>, default_dir: Seq<char>) -> Seq<char> {
    if output_is_directory(s) {
        default_dir
    } else {
        default_dir.push('/') + file_name_or_default(s)
    }
}

// ---------------------------------------------------------------------
// Executable classification.
// ---------------------------------------------------------------------

/// Scans the source once and returns the bounds `(k, e)` of its final
/// path segment, so that the segment is `s@.subrange(k, e)`.
fn file_name_bounds(s: &str) -> (r: (usize, usize))
    ensures
        r.0 <= r.1 <= s@.len(),
        s@.subrange(r.0 as int, r.1 as int) == raw_file_name(s@),
{
    let len = s.unicode_len();
    proof {
        assert(s@.subrange(0, len as int) =~= s@);
    }
    let mut e: usize = len;
    while e > 0 && s.get_char(e - 1) == '/'
        invariant
            e <= len,
            len == s@.len(),
            strip_trailing(s@, '/') == strip_trailing(s@.subrange(0, e as int), '/'),
        decreases e,
    {
        proof {
            let t = s@.subrange(0, e as int);
            assert(t.drop_last() =~= s@.subrange(0, e - 1));
        }
        e -= 1;
    }
    proof {
        let t = s@.subrange(0, e as int);
        assert(strip_trailing(t, '/') == t);
        if e == len {
            assert(s@.subrange(0, e as int) =~= s@);
        }
    }
    let mut k: usize = e;
    while k > 0 && s.get_char(k - 1) != '/'
        invariant
            k <= e <= len,
            len == s@.len(),
            strip_trailing(s@, '/') == s@.subrange(0, e as int),
            suffix_after_last(s@.subrange(0, e as int), '/') == suffix_after_last(
                s@.subrange(0, k as int),
                '/',
            ) + s@.subrange(k as int, e as int),
        decreases k,
    {
        proof {
            let t = s@.subrange(0, k as int);
            assert(t.drop_last() =~= s@.subrange(0, k - 1));
            assert(suffix_after_last(t, '/') == suffix_after_last(t.drop_last(), '/').push(
                t.last(),
            ));
            assert(suffix_after_last(s@.subrange(0, k - 1), '/').push(s@[k - 1]) + s@.subrange(
                k as int,
                e as int,
            ) =~= suffix_after_last(s@.subrange(0, k - 1), '/') + s@.subrange(k - 1, e as int));
        }
        k -= 1;
    }
    proof {
        let t = s@.subrange(0, k as int);
        if k == 0 {
            assert(t =~= Seq::<char>::empty());
            assert(suffix_after_last(t, '/') == t);
        } else {
            assert(t.last() == '/');
            assert(suffix_after_last(t, '/') == Seq::<char>::empty());
        }
        assert(suffix_after_last(t, '/') + s@.subrange(k as int, e as int) =~= s@.subrange(
            k as int,
            e as int,
        ));
    }
    (k, e)
}

/// The final path segment of the source, or empty when there is none.
pub fn raw_source_name(s: &str) -> (r: String)
    ensures
        r@ == raw_file_name(s@),
{
    let (k, e) = file_name_bounds(s);
    s.substring_char(k, e).to_owned()
}

/// Whether `e` spells `torrent` in any ASCII case.
fn torrent_word(e: &str) -> (r: bool)
    ensures
        r == is_torrent_word(e@),
{
    if e.unicode_len() != 7 {
        return false;
    }
    let c0 = e.get_char(0);
    let c1 = e.get_char(1);
    let c2 = e.get_char(2);
    let c3 = e.get_char(3);
    let c4 = e.get_char(4);
    let c5 = e.get_char(5);
    let c6 = e.get_char(6);
    (c0 == 't' || c0 == 'T') && (c1 == 'o' || c1 == 'O') && (c2 == 'r' || c2 == 'R') && (c3 == 'r'
        || c3 == 'R') && (c4 == 'e' || c4 == 'E') && (c5 == 'n' || c5 == 'N') && (c6 == 't' || c6
        == 'T')
}

/// Whether the source's final segment carries a `torrent` extension.
pub fn source_has_torrent_extension(s: &str) -> (r: bool)
    ensures
        r == has_torrent_extension(s@),
{
    let name = raw_source_name(s);
    let n = name.as_str();
    let nlen = n.unicode_len();
    proof {
        assert(n@.subrange(0, nlen as int) =~= n@);
        assert(n@ + n@.subrange(nlen as int, nlen as int) =~= n@);
    }
    let mut j: usize = nlen;
    while j > 0 && n.get_char(j - 1) != '.'
        invariant
            j <= nlen,
            nlen == n@.len(),
            suffix_after_last(n@, '.') == suffix_after_last(n@.subrange(0, j as int), '.')
                + n@.subrange(j as int, nlen as int),
            forall|i: int| j <= i < nlen ==> n@[i] != '.',
        decreases j,
    {
        proof {
            let t = n@.subrange(0, j as int);
            assert(t.drop_last() =~= n@.subrange(0, j - 1));
            assert(suffix_after_last(t, '.') == suffix_after_last(t.drop_last(), '.').push(
                t.last(),
            ));
            assert(suffix_after_last(n@.subrange(0, j - 1), '.').push(n@[j - 1]) + n@.subrange(
                j as int,
                nlen as int,
            ) =~= suffix_after_last(n@.subrange(0, j - 1), '.') + n@.subrange(j - 1, nlen as int));
        }
        j -= 1;
    }
    proof {
        if j == 0 {
            assert(n@.subrange(0, 0) =~= Seq::<char>::empty());
        }
        assert(n@.subrange(0, nlen as int) =~= n@);
    }
    if j >= 2 {
        // A dot stands at j - 1 >= 1, so the segment has an extension.
        proof {
            let t = n@.subrange(0, j as int);
            assert(t.last() == '.');
            assert(suffix_after_last(t, '.') == Seq::<char>::empty());
            assert(Seq::<char>::empty() + n@.subrange(j as int, nlen as int) =~= n@.subrange(
                j as int,
                nlen as int,
            ));
            assert(has_extension(n@)) by {
                assert(1 <= j - 1 < n@.len() && n@[j - 1] == '.');
            }
        }
        let ext = n.substring_char(j, nlen);
        torrent_word(ext)
    } else {
        // Either no dot at all, or a dot only at the very front: the
        // segment has no extension.
        proof {
            if j == 1 {
                if n@[0] != '.' {
                    assert(forall|i: int| 0 <= i < nlen ==> n@[i] != '.');
                }
            }
            assert(!has_extension(n@));
        }
        false
    }
}

/// The kind of a download, derived once from its source.
pub fn detect_kind(source: &str) -> (k: JobKind)
    ensures
        k == spec_kind_of(source@),
{
    if str_starts_with(source, "magnet:") {
        JobKind::Magnet
    } else if str_contains(source, ".torrent") || source_has_torrent_extension(source) {
        JobKind::Torrent
    } else {
        JobKind::Http
    }
}

/// The output path used when the caller supplied none.
pub fn default_output_path(source: &str, default_dir: &str) -> (r: String)
    ensures
        r@ == spec_default_output(source@, default_dir@),
{
    let dir_style = str_starts_with(source, "magnet:") || str_ends_with(source, ".torrent")
        || source_has_torrent_extension(source);
    if dir_style {
        default_dir.to_owned()
    } else {
        let name = raw_source_name(source);
        let mut out = default_dir.to_owned();
        crate::strutil::push_char(&mut out, '/');
        if name.as_str().unicode_len() == 0 {
            out.append("download");
            proof {
                assert(name@ =~= Seq::<char>::empty());
            }
        } else {
            out.append(name.as_str());
        }
        out
    }
}

// ---------------------------------------------------------------------
// Creation and the transition table.
// ---------------------------------------------------------------------

/// The pause reason stamped on a freshly created job.
pub open spec fn initial_pause_reason() -> Seq<char> {
    "Paused - click resume to start"@
}

/// Creates the record for a new job: `Paused`, all counters zero, the
/// kind and output derived from the source.
pub fn new_job(
    id: String,
    source: String,
    output: Option<String>,
    default_dir: &str,
    options: Option<DownloadOptions>,
    now_secs: u64,
) -> (r: Job)
    ensures
        r.id == id,
        r.source == source,
        r.kind == spec_kind_of(source@),
        r.output@ == match output {
            Some(o) => o@,
            None => spec_default_output(source@, default_dir@),
        },
        r.status is Paused,
        r.progress == 0,
        r.downloaded == 0,
        r.total == 0,
        r.speed == 0,
        r.error is None,
        r.metadata.pause_reason matches Some(p) && p@ == initial_pause_reason(),
        r.metadata.paused_at is None,
        !r.metadata.auto_paused,
        r.metadata.options == options,
        r.started_at == now_secs,
        r.updated_at == now_secs,
        r.wf(),
{
    let kind = detect_kind(source.as_str());
    let out = match output {
        Some(o) => o,
        None => default_output_path(source.as_str(), default_dir),
    };
    Job {
        id,
        source,
        output: out,
        kind,
        status: JobStatus::Paused,
        progress: 0,
        downloaded: 0,
        total: 0,
        speed: 0,
        error: None,
        metadata: Metadata {
            pause_reason: Some("Paused - click resume to start".to_owned()),
            paused_at: None,
            auto_paused: false,
            options,
        },
        started_at: now_secs,
        updated_at: now_secs,
    }
}

/// The operations that may move a job between states.
#[derive(PartialEq, Eq, Structural, Clone, Copy, Debug)]
pub enum JobOp {
    Resume,
    Pause,
    Complete,
    Fail,
    MarkSeeding,
}

/// A transition that the table does not allow.
#[derive(PartialEq, Eq, Structural, Clone, Copy, Debug)]
pub struct IllegalTransition {
    pub op: JobOp,
    pub from: JobStatus,
}

/// The single legality table of the lifecycle state machine.
pub open spec fn transition_allowed(op: JobOp, from: JobStatus, kind: JobKind) -> bool {
    match op {
        // Resuming a job that is already running is a permitted no-op
        // status correction.
        JobOp::Resume => from is Paused || from is Downloading,
        JobOp::Pause => from is Downloading,
        JobOp::Complete => from is Downloading,
        JobOp::Fail => from is Downloading,
        JobOp::MarkSeeding => from is Completed && kind is Torrent,
    }
}

/// The state an allowed operation leads to.
pub open spec fn transition_target(op: JobOp) -> JobStatus {
    match op {
        JobOp::Resume => JobStatus::Downloading,
        JobOp::Pause => JobStatus::Paused,
        JobOp::Complete => JobStatus::Completed,
        JobOp::Fail => JobStatus::Error,
        JobOp::MarkSeeding => JobStatus::Seeding,
    }
}

/// Checks an operation against the table and returns the new status, or
/// says exactly which transition was refused.
pub fn apply_transition(op: JobOp, from: JobStatus, kind: JobKind) -> (r: Result<
    JobStatus,
    IllegalTransition,
>)
    ensures
        transition_allowed(op, from, kind) <==> r is Ok,
        r matches Ok(st) ==> st == transition_target(op),
        r matches Err(e) ==> e.op == op && e.from == from,
{
    let ok = match op {
        JobOp::Resume => matches!(from, JobStatus::Paused | JobStatus::Downloading),
        JobOp::Pause => matches!(from, JobStatus::Downloading),
        JobOp::Complete => matches!(from, JobStatus::Downloading),
        JobOp::Fail => matches!(from, JobStatus::Downloading),
        JobOp::MarkSeeding => matches!(from, JobStatus::Completed) && matches!(
            kind,
            JobKind::Torrent,
        ),
    };
    if ok {
        Ok(
            match op {
                JobOp::Resume => JobStatus::Downloading,
                JobOp::Pause => JobStatus::Paused,
                JobOp::Complete => JobStatus::Completed,
                JobOp::Fail => JobStatus::Error,
                JobOp::MarkSeeding => JobStatus::Seeding,
            },
        )
    } else {
        Err(IllegalTransition { op, from })
    }
}

} // verus!

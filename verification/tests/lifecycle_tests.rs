use accelara::jobs::{JobKind, JobStatus, JobOp, apply_transition, detect_kind, default_output_path};
use accelara::lifecycle::{
    start_download, pause_download, plan_resume, revert_to_paused, save_progress, LifecycleError,
    ResumeAction,
};
use accelara::monitor::{decide_exit, finalize_exit, ExitOutcome};
use accelara::options::DownloadOptions;
use accelara::args::{build_command_args, inspect_args, http_info_args, speed_test_args};
use accelara::store::Gateway;

fn fresh(id: &str, source: &str) -> Gateway {
    let mut gw = Gateway::new();
    start_download(
        &mut gw,
        id.to_string(),
        source.to_string(),
        None,
        "/downloads",
        None,
        1000,
    )
    .map_err(|_| ())
    .unwrap();
    gw
}

#[test]
fn start_http_job_defaults() {
    // An HTTP job gets the default directory plus the source's file name.
    let gw = fresh("job-1", "https://x/file.bin");
    let j = gw.read_job("job-1").unwrap();
    assert_eq!(j.status, JobStatus::Paused);
    assert_eq!(j.kind, JobKind::Http);
    assert_eq!(j.output, "/downloads/file.bin");
}

#[test]
fn start_magnet_job_defaults() {
    // A magnet job's output is the configured directory, unchanged.
    let gw = fresh("job-2", "magnet:?xt=urn:btih:abc");
    let j = gw.read_job("job-2").unwrap();
    assert_eq!(j.kind, JobKind::Magnet);
    assert_eq!(j.output, "/downloads");
}

#[test]
fn started_job_has_zero_progress() {
    // Paused before any process exists: all counters at zero.
    let gw = fresh("job-3", "https://x/a.bin");
    let j = gw.read_job("job-3").unwrap();
    assert_eq!(j.status, JobStatus::Paused);
    assert_eq!(j.progress, 0);
    assert_eq!(j.downloaded, 0);
    assert_eq!(j.total, 0);
    assert_eq!(j.speed, 0);
}

#[test]
fn kind_detection() {
    assert_eq!(detect_kind("magnet:?xt=abc"), JobKind::Magnet);
    assert_eq!(detect_kind("https://x/file.torrent"), JobKind::Torrent);
    assert_eq!(detect_kind("https://x/file.TORRENT"), JobKind::Torrent);
    assert_eq!(detect_kind("https://x/file.torrent?v=1"), JobKind::Torrent);
    assert_eq!(detect_kind("https://x/file.bin"), JobKind::Http);
}

#[test]
fn default_output_for_torrent_file() {
    assert_eq!(default_output_path("https://x/file.torrent", "/dl"), "/dl");
    assert_eq!(default_output_path("https://x/file.bin", "/dl"), "/dl/file.bin");
    assert_eq!(default_output_path("https://x/", "/dl"), "/dl/x");
    assert_eq!(default_output_path("", "/dl"), "/dl/download");
}

#[test]
fn duplicate_id_refused() {
    let mut gw = fresh("job-4", "https://x/a.bin");
    let r = start_download(
        &mut gw,
        "job-4".to_string(),
        "https://x/b.bin".to_string(),
        None,
        "/downloads",
        None,
        1001,
    );
    assert!(matches!(r, Err(LifecycleError::DuplicateId)));
}

#[test]
fn pause_requires_downloading() {
    let mut gw = fresh("job-5", "https://x/a.bin");
    // Freshly created jobs are paused; pausing again is refused by the
    // transition table.
    let r = pause_download(&mut gw, "job-5", 1002);
    assert!(matches!(r, Err(LifecycleError::Illegal(_))));
    let r2 = pause_download(&mut gw, "missing", 1002);
    assert!(matches!(r2, Err(LifecycleError::NotFound)));
}

#[test]
fn pause_stamps_reason() {
    let mut gw = fresh("job-6", "https://x/a.bin");
    let act = plan_resume(&mut gw, "job-6", false, "/downloads/a.bin", 1003).map_err(|_| ()).unwrap();
    assert!(matches!(act, ResumeAction::Spawn { .. }));
    let j = pause_download(&mut gw, "job-6", 1004).map_err(|_| ()).unwrap();
    assert_eq!(j.status, JobStatus::Paused);
    assert_eq!(j.metadata.pause_reason.as_deref(), Some("Paused by user"));
    assert_eq!(j.metadata.paused_at, Some(1004));
}

#[test]
fn resume_republishes_stored_progress() {
    // Resuming emits the stored progress, exactly, before any spawn.
    let mut gw = fresh("job-7", "https://x/a.bin");
    let act = plan_resume(&mut gw, "job-7", false, "/downloads/a.bin", 1005).map_err(|_| ()).unwrap();
    assert!(matches!(act, ResumeAction::Spawn { .. }));
    let j = pause_download(&mut gw, "job-7", 1006).map_err(|_| ()).unwrap();
    assert_eq!(j.status, JobStatus::Paused);
    // Stored progress: 45.00%, 450000 of 1000000 bytes.
    let resumed = plan_resume(&mut gw, "job-7", false, "/downloads/a.bin", 1007);
    assert!(resumed.is_ok());
    save_progress(&mut gw, "job-7", 4500, 450000, 1000000, 0, 1008);
    let j2 = pause_download(&mut gw, "job-7", 1009).map_err(|_| ()).unwrap();
    assert_eq!(j2.downloaded, 450000);
    match plan_resume(&mut gw, "job-7", false, "/downloads/a.bin", 1010).map_err(|_| ()).unwrap() {
        ResumeAction::Spawn { args, restored } => {
            assert_eq!(restored.progress, 4500);
            assert_eq!(restored.downloaded, 450000);
            assert_eq!(restored.total, 1000000);
            assert_eq!(
                args,
                vec![
                    "--source".to_string(),
                    "https://x/a.bin".to_string(),
                    "--output".to_string(),
                    "/downloads/a.bin".to_string(),
                    "--download-id".to_string(),
                    "job-7".to_string(),
                ]
            );
        },
        _ => panic!("expected a spawn plan"),
    }
}

#[test]
fn resume_with_live_process_corrects_status() {
    let mut gw = fresh("job-8", "https://x/a.bin");
    let act = plan_resume(&mut gw, "job-8", true, "/downloads/a.bin", 1011).map_err(|_| ()).unwrap();
    assert!(matches!(act, ResumeAction::CorrectStatus));
    let j = gw.read_job("job-8").unwrap();
    assert_eq!(j.status, JobStatus::Downloading);
}

#[test]
fn failed_resume_reverts_to_paused() {
    let mut gw = fresh("job-9", "https://x/a.bin");
    plan_resume(&mut gw, "job-9", false, "/downloads/a.bin", 1012).map_err(|_| ()).unwrap();
    revert_to_paused(&mut gw, "job-9");
    let j = gw.read_job("job-9").unwrap();
    assert_eq!(j.status, JobStatus::Paused);
}

#[test]
fn assembly_failure_overrides_success() {
    // Exit success with chunks left and no final file ends in Error.
    let mut gw = fresh("job-10", "https://x/a.bin");
    plan_resume(&mut gw, "job-10", false, "/downloads/a.bin", 1013).map_err(|_| ()).unwrap();
    let outcome = decide_exit(true, JobKind::Http, false, true);
    assert_eq!(outcome, ExitOutcome::AssemblyFailed);
    let j = finalize_exit(&mut gw, "job-10", outcome, 1014).map_err(|_| ()).unwrap();
    assert_eq!(j.status, JobStatus::Error);
    assert_eq!(
        j.error.as_deref(),
        Some("Download completed but file assembly failed. Chunk files remain unmerged.")
    );
    assert!(!gw.history.contains("job-10"));
}

#[test]
fn successful_exit_completes_and_archives() {
    let mut gw = fresh("job-11", "https://x/a.bin");
    plan_resume(&mut gw, "job-11", false, "/downloads/a.bin", 1015).map_err(|_| ()).unwrap();
    save_progress(&mut gw, "job-11", 10000, 900, 1000, 0, 1016);
    let outcome = decide_exit(true, JobKind::Http, true, false);
    assert_eq!(outcome, ExitOutcome::Completed);
    let j = finalize_exit(&mut gw, "job-11", outcome, 1017).map_err(|_| ()).unwrap();
    assert_eq!(j.status, JobStatus::Completed);
    assert!(gw.jobs.contains("job-11"));
    assert!(gw.history.contains("job-11"));
    let e = gw.history.get("job-11").unwrap();
    assert_eq!(e.size, 1000);
    assert_eq!(e.completed_at, 1017);
}

#[test]
fn remove_leaves_history_untouched() {
    // The history snapshot survives the removal of its job row.
    let mut gw = fresh("job-12", "https://x/a.bin");
    plan_resume(&mut gw, "job-12", false, "/downloads/a.bin", 1018).map_err(|_| ()).unwrap();
    finalize_exit(&mut gw, "job-12", ExitOutcome::Completed, 1019).map_err(|_| ()).unwrap();
    let removed = gw.remove_job("job-12");
    assert!(removed.is_some());
    assert!(!gw.jobs.contains("job-12"));
    assert!(gw.history.contains("job-12"));
    // Removing again is a no-op.
    assert!(gw.remove_job("job-12").is_none());
}

#[test]
fn history_entry_written_once() {
    let mut gw = fresh("job-13", "https://x/a.bin");
    plan_resume(&mut gw, "job-13", false, "/downloads/a.bin", 1020).map_err(|_| ()).unwrap();
    save_progress(&mut gw, "job-13", 10000, 500, 500, 0, 1021);
    finalize_exit(&mut gw, "job-13", ExitOutcome::Completed, 1022).map_err(|_| ()).unwrap();
    // A later snapshot for the same id changes nothing: the first one
    // stays as written.
    let again = accelara::store::HistoryEntry {
        id: "job-13".to_string(),
        source: "https://x/a.bin".to_string(),
        output: "/downloads/a.bin".to_string(),
        kind: JobKind::Http,
        size: 999,
        completed_at: 1025,
        metadata: gw.read_job("job-13").unwrap().metadata,
    };
    gw.add_history_if_absent(again);
    let e = gw.history.get("job-13").unwrap();
    assert_eq!(e.completed_at, 1022);
    assert_eq!(e.size, 500);
}

#[test]
fn failed_exit_keeps_error_state() {
    let mut gw = fresh("job-14", "https://x/a.bin");
    plan_resume(&mut gw, "job-14", false, "/downloads/a.bin", 1026).map_err(|_| ()).unwrap();
    let j = finalize_exit(&mut gw, "job-14", ExitOutcome::Failed, 1027).map_err(|_| ()).unwrap();
    assert_eq!(j.status, JobStatus::Error);
    assert!(j.error.is_none());
    assert!(!gw.history.contains("job-14"));
}

#[test]
fn pause_all_parks_downloading_jobs() {
    let mut gw = fresh("job-15", "https://x/a.bin");
    start_download(
        &mut gw,
        "job-16".to_string(),
        "https://x/b.bin".to_string(),
        None,
        "/downloads",
        None,
        1028,
    )
    .map_err(|_| ())
    .unwrap();
    plan_resume(&mut gw, "job-15", false, "/downloads/a.bin", 1029).map_err(|_| ()).unwrap();
    gw.pause_all_downloading();
    assert_eq!(gw.read_job("job-15").unwrap().status, JobStatus::Paused);
    assert_eq!(gw.read_job("job-16").unwrap().status, JobStatus::Paused);
}

#[test]
fn downloading_ids_lists_mid_flight_jobs() {
    let mut gw = fresh("job-17", "https://x/a.bin");
    start_download(
        &mut gw,
        "job-18".to_string(),
        "https://x/b.bin".to_string(),
        None,
        "/downloads",
        None,
        1030,
    )
    .map_err(|_| ())
    .unwrap();
    plan_resume(&mut gw, "job-18", false, "/downloads/b.bin", 1031).map_err(|_| ()).unwrap();
    let ids = gw.downloading_ids();
    assert_eq!(ids, vec!["job-18".to_string()]);
}

#[test]
fn active_jobs_excludes_completed() {
    let mut gw = fresh("job-19", "https://x/a.bin");
    start_download(
        &mut gw,
        "job-20".to_string(),
        "https://x/b.bin".to_string(),
        None,
        "/downloads",
        None,
        1032,
    )
    .map_err(|_| ())
    .unwrap();
    plan_resume(&mut gw, "job-19", false, "/downloads/a.bin", 1033).map_err(|_| ()).unwrap();
    finalize_exit(&mut gw, "job-19", ExitOutcome::Completed, 1034).map_err(|_| ()).unwrap();
    let act = gw.active_jobs();
    assert_eq!(act.len(), 1);
    assert_eq!(act[0].id, "job-20");
}

#[test]
fn command_args_carry_all_options() {
    let opts = DownloadOptions {
        concurrency: Some(8),
        chunk_size: Some("4MB".to_string()),
        rate_limit: Some("1MB".to_string()),
        bt_upload_limit: Some("100KB".to_string()),
        bt_sequential: Some(true),
        bt_keep_seeding: Some(false),
        bt_port: Some(42069),
        connect_timeout: Some(15),
        read_timeout: Some(60),
        retries: Some(5),
        sha256: Some("deadbeef".to_string()),
    };
    let args = build_command_args("src", "/out/file", "id-1", &Some(opts));
    assert_eq!(
        args,
        vec![
            "--source", "src", "--output", "/out/file", "--download-id", "id-1",
            "--concurrency", "8", "--chunk-size", "4MB", "--limit", "1MB",
            "--bt-upload-limit", "100KB", "--bt-sequential", "--bt-port", "42069",
            "--connect-timeout", "15", "--read-timeout", "60", "--retries", "5",
            "--sha256", "deadbeef",
        ]
        .into_iter()
        .map(String::from)
        .collect::<Vec<_>>()
    );
}

#[test]
fn empty_string_options_emit_no_flag() {
    let mut opts = DownloadOptions::none();
    opts.chunk_size = Some(String::new());
    let args = build_command_args("s", "/o", "i", &Some(opts));
    assert_eq!(args, vec!["--source", "s", "--output", "/o", "--download-id", "i"]
        .into_iter().map(String::from).collect::<Vec<_>>());
}

#[test]
fn inspection_mode_args() {
    assert_eq!(inspect_args("x"), vec!["--inspect", "--source", "x"]
        .into_iter().map(String::from).collect::<Vec<_>>());
    assert_eq!(http_info_args("y"), vec!["--http-info", "--source", "y"]
        .into_iter().map(String::from).collect::<Vec<_>>());
    assert_eq!(speed_test_args(), vec!["--json", "--quiet"]
        .into_iter().map(String::from).collect::<Vec<_>>());
}

#[test]
fn history_view_shows_seeding_torrents() {
    let mut gw = fresh("tor-1", "https://x/file.torrent");
    plan_resume(&mut gw, "tor-1", false, "/downloads", 2000).map_err(|_| ()).unwrap();
    save_progress(&mut gw, "tor-1", 10000, 700, 700, 0, 2001);
    finalize_exit(&mut gw, "tor-1", ExitOutcome::Completed, 2002).map_err(|_| ()).unwrap();
    // A higher-level policy re-marks the completed torrent as seeding.
    let mut j = gw.read_job("tor-1").unwrap();
    j.status = apply_transition(JobOp::MarkSeeding, j.status, j.kind).map_err(|_| ()).unwrap();
    gw.update_job(j);
    let view = gw.history_overview();
    assert_eq!(view.length(), 1);
    let item = view.get("tor-1").unwrap();
    assert!(item.is_seeding);
    assert_eq!(item.size, 700);
    // The snapshot's completion instant is kept on the live row.
    assert_eq!(item.completed_at, 2002);
}

#[test]
fn history_view_plain_entries() {
    let mut gw = fresh("job-21", "https://x/a.bin");
    plan_resume(&mut gw, "job-21", false, "/downloads/a.bin", 2100).map_err(|_| ()).unwrap();
    finalize_exit(&mut gw, "job-21", ExitOutcome::Completed, 2101).map_err(|_| ()).unwrap();
    let view = gw.history_overview();
    let item = view.get("job-21").unwrap();
    assert!(!item.is_seeding);
    assert_eq!(item.completed_at, 2101);
}

#[test]
fn seeding_not_allowed_for_http() {
    assert!(apply_transition(JobOp::MarkSeeding, JobStatus::Completed, JobKind::Http).is_err());
    assert!(apply_transition(JobOp::MarkSeeding, JobStatus::Completed, JobKind::Torrent).is_ok());
}

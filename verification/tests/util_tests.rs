use accelara::fmt::format_bytes;
use accelara::logging::{log_error, log_warning, log_info, tail_lines};
use accelara::paths::{
    expand_home, temp_dir_name, is_temp_dir_name, is_chunk_file_name, strip_part_suffix,
    log_path_for_home, binary_candidates, classify_binary,
};
use accelara::errors::DownloadError;
use accelara::theme::{
    Theme, theme_from_gtk_output, theme_from_interface_style, theme_from_light_flag,
    should_emit_change,
};
use accelara::ids::{format_job_id, format_test_id, new_job_id, new_test_id};
use accelara::browser::{choose_source, browser_request_kind};
use accelara::strutil::u64_to_string;

#[test]
fn bytes_formatting() {
    assert_eq!(format_bytes(0), "0 B");
    assert_eq!(format_bytes(512), "512.00 B");
    assert_eq!(format_bytes(1024), "1.00 KB");
    assert_eq!(format_bytes(1536), "1.50 KB");
    assert_eq!(format_bytes(1048576), "1.00 MB");
    assert_eq!(format_bytes(5 * 1024 * 1024 * 1024), "5.00 GB");
    assert_eq!(format_bytes(1099511627776), "1.00 TB");
}

#[test]
fn log_lines() {
    assert_eq!(log_error("ctx", "boom"), "[ERROR] ctx: boom");
    assert_eq!(log_warning("ctx", "careful"), "[WARN] ctx: careful");
    assert_eq!(log_info("ctx", "fine"), "[INFO] ctx: fine");
}

#[test]
fn tail_keeps_last_lines() {
    let lines: Vec<String> = (1..=5).map(|i| format!("line{i}")).collect();
    assert_eq!(tail_lines(&lines, 2), vec!["line4".to_string(), "line5".to_string()]);
    assert_eq!(tail_lines(&lines, 10).len(), 5);
    assert_eq!(tail_lines(&lines, 0).len(), 0);
}

#[test]
fn home_expansion() {
    assert_eq!(expand_home("~", "/home/u"), "/home/u");
    assert_eq!(expand_home("~/Downloads", "/home/u"), "/home/u/Downloads");
    assert_eq!(expand_home("/abs/path", "/home/u"), "/abs/path");
    assert_eq!(expand_home("rel", "/home/u"), "rel");
}

#[test]
fn temp_dir_naming() {
    // The pattern the junk scans and `remove` match on.
    assert_eq!(temp_dir_name("file.bin"), ".accelara-temp-file.bin");
    assert!(is_temp_dir_name(".accelara-temp-file.bin"));
    assert!(!is_temp_dir_name("file.bin"));
    assert!(is_chunk_file_name("file.part.3"));
    assert!(!is_chunk_file_name("file.bin"));
}

#[test]
fn part_suffix_stripping() {
    assert_eq!(strip_part_suffix("movie.mkv.part").as_deref(), Some("movie.mkv"));
    assert!(strip_part_suffix("movie.mkv").is_none());
}

#[test]
fn log_path() {
    assert_eq!(log_path_for_home("/home/u"), "/home/u/.accelara/accelara.log");
}

#[test]
fn binary_search_order() {
    let res = Some("/app/Resources".to_string());
    let dirs = vec!["/proj".to_string(), "/proj/parent".to_string()];
    let c = binary_candidates(&res, &dirs, "api-wrapper");
    assert_eq!(
        c,
        vec![
            "/app/Resources/bin/api-wrapper".to_string(),
            "/app/Resources/_up_/bin/api-wrapper".to_string(),
            "/proj/bin/api-wrapper".to_string(),
            "/proj/parent/bin/api-wrapper".to_string(),
        ]
    );
    let none = binary_candidates(&None, &Vec::new(), "iris");
    assert!(none.is_empty());
}

#[test]
fn binary_classification() {
    assert_eq!(classify_binary(false, false, false), Err(DownloadError::BinaryNotFound));
    assert_eq!(classify_binary(true, false, false), Err(DownloadError::BinaryNotExecutable));
    assert_eq!(classify_binary(true, true, false), Err(DownloadError::BinaryNotExecutable));
    assert_eq!(classify_binary(true, true, true), Ok(()));
    assert_eq!(DownloadError::BinaryNotFound.message(), "Go binary (api-wrapper) not found");
    assert_eq!(DownloadError::JobNotFound.message(), "Download not found");
}

#[test]
fn theme_classifiers() {
    assert_eq!(theme_from_gtk_output(true, "'Adwaita-dark'"), Theme::Dark);
    assert_eq!(theme_from_gtk_output(true, "'Adwaita'"), Theme::Light);
    assert_eq!(theme_from_gtk_output(false, "dark"), Theme::Light);
    assert_eq!(theme_from_interface_style(true, "Dark"), Theme::Dark);
    assert_eq!(theme_from_interface_style(true, "light"), Theme::Light);
    assert_eq!(theme_from_interface_style(false, "dark"), Theme::Light);
    assert_eq!(theme_from_light_flag(Some(0)), Theme::Dark);
    assert_eq!(theme_from_light_flag(Some(1)), Theme::Light);
    assert_eq!(theme_from_light_flag(None), Theme::Light);
    assert!(should_emit_change(Theme::Light, Theme::Dark));
    assert!(!should_emit_change(Theme::Dark, Theme::Dark));
    assert_eq!(Theme::Dark.name(), "dark");
}

#[test]
fn identifier_shapes() {
    assert_eq!(format_job_id(1750000000123, "abc_def-9"), "1750000000123-abc_def-9");
    assert_eq!(format_test_id(1750000000, "suffix000"), "test_1750000000_suffix000");
    // The random suffix always has exactly nine fresh characters.
    let id = new_job_id(1750000000123);
    assert_eq!(id.len(), "1750000000123-".len() + 9);
    assert!(id.starts_with("1750000000123-"));
    let t = new_test_id(1750000000);
    assert!(t.starts_with("test_1750000000_"));
    assert_eq!(t.len(), "test_1750000000_".len() + 9);
    // Two draws almost surely differ; equality would mean the suffix
    // generator handed back a constant.
    assert_ne!(new_job_id(1), new_job_id(1));
}

#[test]
fn number_rendering() {
    assert_eq!(u64_to_string(0), "0");
    assert_eq!(u64_to_string(42069), "42069");
    assert_eq!(u64_to_string(u64::MAX), "18446744073709551615");
}

#[test]
fn browser_request_classification() {
    assert_eq!(
        choose_source(Some("http://a".to_string()), Some("http://b".to_string())).as_deref(),
        Some("http://a")
    );
    assert_eq!(choose_source(None, Some("http://b".to_string())).as_deref(), Some("http://b"));
    assert!(choose_source(None, None).is_none());
    assert_eq!(browser_request_kind("download", "magnet:?xt=1"), "magnet");
    assert_eq!(browser_request_kind("magnet", "http://x"), "magnet");
    assert_eq!(browser_request_kind("download", "http://x"), "download");
}

#[test]
fn error_messages() {
    assert_eq!(DownloadError::SpawnFailed.message(), "Failed to spawn process");
    assert_eq!(DownloadError::StorageError.message(), "Database error");
    assert_eq!(DownloadError::MalformedEngineOutput.message(), "Malformed engine output");
    assert_eq!(DownloadError::BinaryNotExecutable.message(), "Binary is not executable");
    assert_eq!(
        DownloadError::AssemblyVerificationFailed.message(),
        "Download completed but file assembly failed. Chunk files remain unmerged."
    );
}

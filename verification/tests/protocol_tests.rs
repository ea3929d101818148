use accelara::wire::parse_progress_line;
use accelara::speedtest::{parse_speed_report, extract_json_span, normalized_speed_bps, ping_millis, has_latency, report_present};

#[test]
fn progress_line_parses_all_fields() {
    let line = r#"{"download_id":"175-abc","progress":45.5,"downloaded":450000,"total":1000000,"speed":2048}"#;
    let ev = parse_progress_line(line, "fallback").unwrap();
    assert_eq!(ev.id, "175-abc");
    assert_eq!(ev.progress, 4550);
    assert_eq!(ev.downloaded, 450000);
    assert_eq!(ev.total, 1000000);
    assert_eq!(ev.speed, 2048);
}

#[test]
fn progress_line_camel_case_id() {
    let line = r#"{"downloadId":"x-1","progress":100,"downloaded":10,"total":10,"speed":0}"#;
    let ev = parse_progress_line(line, "fallback").unwrap();
    assert_eq!(ev.id, "x-1");
    assert_eq!(ev.progress, 10000);
}

#[test]
fn progress_line_clamps_over_hundred() {
    let line = r#"{"download_id":"x","progress":250.0,"downloaded":1,"total":1,"speed":0}"#;
    let ev = parse_progress_line(line, "f").unwrap();
    assert_eq!(ev.progress, 10000);
}

#[test]
fn progress_line_non_string_id_uses_fallback() {
    let line = r#"{"download_id":7,"progress":1,"downloaded":1,"total":1,"speed":0}"#;
    let ev = parse_progress_line(line, "the-job").unwrap();
    assert_eq!(ev.id, "the-job");
}

#[test]
fn malformed_lines_are_dropped() {
    assert!(parse_progress_line("", "f").is_none());
    assert!(parse_progress_line("plain text", "f").is_none());
    assert!(parse_progress_line(r#"{"progress":1,"downloaded":1,"total":1,"speed":0}"#, "f")
        .is_none());
    assert!(parse_progress_line(
        r#"{"download_id":"x","progress":"high","downloaded":1,"total":1,"speed":0}"#,
        "f"
    )
    .is_none());
    assert!(parse_progress_line(
        r#"{"download_id":"x","progress":1,"downloaded":-5,"total":1,"speed":0}"#,
        "f"
    )
    .is_none());
}

#[test]
fn progress_fraction_truncated_to_hundredths() {
    let line = r#"{"download_id":"x","progress":45.559,"downloaded":1,"total":1,"speed":0}"#;
    let ev = parse_progress_line(line, "f").unwrap();
    assert_eq!(ev.progress, 4555);
}

#[test]
fn speed_report_fields() {
    let s = r#"{"timestamp":"t","download_mbps":100.5,"upload_mbps":50.25,"ping_ms":25.3,"location":{"city":"Oslo","country":"Norway"}}"#;
    let r = parse_speed_report(s);
    assert_eq!(r.download_mbps_h, 10050);
    assert_eq!(r.upload_mbps_h, 5025);
    assert_eq!(r.ping_ms_h, 2530);
    assert_eq!(r.city.as_deref(), Some("Oslo"));
    assert_eq!(r.country.as_deref(), Some("Norway"));
}

#[test]
fn report_presence_check() {
    assert!(report_present(r#"{"download_mbps":1}"#));
    assert!(report_present(r#"{"ping_ms":10}"#));
    assert!(!report_present(r#"{"unrelated":true}"#));
    assert!(!report_present("no json at all"));
}

#[test]
fn speed_report_missing_fields_are_zero() {
    let r = parse_speed_report(r#"{"ping_ms":10}"#);
    assert_eq!(r.download_mbps_h, 0);
    assert_eq!(r.upload_mbps_h, 0);
    assert_eq!(r.ping_ms_h, 1000);
    assert!(r.city.is_none());
}

#[test]
fn json_span_between_noise() {
    let out = "warning: x\n{\"a\":1}\ntrailing";
    let (a, b) = extract_json_span(out).unwrap();
    assert_eq!(&out[a..=b], "{\"a\":1}");
    assert!(extract_json_span("no braces").is_none());
    assert!(extract_json_span("}{").is_none());
}

#[test]
fn speed_normalization_divides_by_ten() {
    // 100.5 MB/s -> bytes/s divided by ten: 100.5 * 1048576 / 10.
    assert_eq!(normalized_speed_bps(10050), 10050 * 1048576 / 1000);
    assert_eq!(normalized_speed_bps(0), 0);
    assert_eq!(ping_millis(2530), 25);
    assert!(has_latency(25));
    assert!(!has_latency(0));
}

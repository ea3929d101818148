use accelara::scalar::{Scalar, encode_scalar, parse_scalar};
use accelara::settings::{
    default_settings, save_settings, get_setting_value, effective_setting, auto_check_enabled,
    check_interval_hours, check_interval_secs,
};
use accelara::store::Gateway;
use accelara::options::DownloadOptions;

fn scalar_eq(a: &Scalar, b: &Scalar) -> bool {
    match (a, b) {
        (Scalar::Null, Scalar::Null) => true,
        (Scalar::Bool(x), Scalar::Bool(y)) => x == y,
        (
            Scalar::Num { neg: n1, units: u1, cents: c1 },
            Scalar::Num { neg: n2, units: u2, cents: c2 },
        ) => n1 == n2 && u1 == u2 && c1 == c2,
        (Scalar::Str(x), Scalar::Str(y)) => x == y,
        _ => false,
    }
}

#[test]
fn settings_round_trip() {
    // Values written through the settings interface come back as the
    // same structured values: numbers, booleans, strings, null.
    let mut gw = Gateway::new();
    let entries = vec![
        ("concurrency".to_string(), Scalar::Num { neg: false, units: 8, cents: 0 }),
        ("rate".to_string(), Scalar::Num { neg: false, units: 12, cents: 50 }),
        ("offset".to_string(), Scalar::Num { neg: true, units: 3, cents: 0 }),
        ("sequentialMode".to_string(), Scalar::Bool(true)),
        ("theme".to_string(), Scalar::Str("dark".to_string())),
        ("label".to_string(), Scalar::Str("say \"hi\" to C:\\tmp".to_string())),
        ("rateLimit".to_string(), Scalar::Null),
    ];
    save_settings(&mut gw, &entries);
    for (key, value) in &entries {
        let got = get_setting_value(&gw, key).unwrap();
        assert!(scalar_eq(&got, value), "round trip failed for {key}");
    }
}

#[test]
fn unknown_key_reads_nothing() {
    let gw = Gateway::new();
    assert!(get_setting_value(&gw, "missing").is_none());
}

#[test]
fn foreign_row_falls_back_to_string() {
    let mut gw = Gateway::new();
    gw.set_setting("weird", "not//canonical".to_string());
    let got = get_setting_value(&gw, "weird").unwrap();
    assert!(scalar_eq(&got, &Scalar::Str("not//canonical".to_string())));
    // A structured value stored as its JSON text comes back whole, so
    // the host can re-parse it into the same structure.
    let nested = "{\"proxy\":{\"host\":\"localhost\",\"port\":8080}}";
    gw.set_setting("network", nested.to_string());
    let got2 = get_setting_value(&gw, "network").unwrap();
    assert!(scalar_eq(&got2, &Scalar::Str(nested.to_string())));
}

#[test]
fn effective_setting_prefers_stored() {
    let mut gw = Gateway::new();
    let default = Scalar::Num { neg: false, units: 8, cents: 0 };
    let before = effective_setting(&gw, "concurrency", &default);
    assert!(scalar_eq(&before, &default));
    save_settings(
        &mut gw,
        &vec![("concurrency".to_string(), Scalar::Num { neg: false, units: 4, cents: 0 })],
    );
    let after = effective_setting(&gw, "concurrency", &default);
    assert!(scalar_eq(&after, &Scalar::Num { neg: false, units: 4, cents: 0 }));
}

#[test]
fn default_settings_table() {
    let d = default_settings("/home/u/Downloads");
    assert_eq!(d.len(), 12);
    assert_eq!(d[0].0, "concurrency");
    assert!(scalar_eq(&d[0].1, &Scalar::Num { neg: false, units: 8, cents: 0 }));
    assert_eq!(d[1].0, "chunkSize");
    assert!(scalar_eq(&d[1].1, &Scalar::Str("4MB".to_string())));
    assert_eq!(d[11].0, "defaultDownloadPath");
    assert!(scalar_eq(&d[11].1, &Scalar::Str("/home/u/Downloads".to_string())));
}

#[test]
fn scalar_codec_canonical_forms() {
    assert_eq!(encode_scalar(&Scalar::Null), "null");
    assert_eq!(encode_scalar(&Scalar::Bool(true)), "true");
    assert_eq!(encode_scalar(&Scalar::Bool(false)), "false");
    assert_eq!(encode_scalar(&Scalar::Num { neg: false, units: 42069, cents: 0 }), "42069");
    assert_eq!(encode_scalar(&Scalar::Num { neg: false, units: 12, cents: 50 }), "12.50");
    assert_eq!(encode_scalar(&Scalar::Num { neg: true, units: 3, cents: 5 }), "-3.05");
    assert_eq!(encode_scalar(&Scalar::Str("abc".to_string())), "\"abc\"");
    // Quotes and backslashes are escaped in the stored form.
    assert_eq!(encode_scalar(&Scalar::Str("a\"b\\c".to_string())), "\"a\\\"b\\\\c\"");
}

#[test]
fn scalar_parser_accepts_only_canonical() {
    assert!(parse_scalar("null").is_some());
    assert!(parse_scalar("12.50").is_some());
    assert!(parse_scalar("007").is_none());
    assert!(parse_scalar("12.5").is_none());
    assert!(parse_scalar("-0").is_none());
    // A bare quote inside the text never comes from the encoder; the
    // escaped form does, and reads back unescaped.
    assert!(parse_scalar("\"a\"b\"").is_none());
    match parse_scalar("\"a\\\"b\"") {
        Some(Scalar::Str(s)) => assert_eq!(s, "a\"b"),
        _ => panic!("escaped quote should parse"),
    }
    assert!(parse_scalar("\"a\\b\"").is_none());
    assert!(parse_scalar("\"a\\\"").is_none());
    assert!(parse_scalar("").is_none());
    assert!(parse_scalar("12.").is_none());
}

#[test]
fn update_check_settings() {
    let mut gw = Gateway::new();
    assert!(auto_check_enabled(&gw));
    assert_eq!(check_interval_hours(&gw), 24);
    save_settings(
        &mut gw,
        &vec![
            ("autoCheckForUpdates".to_string(), Scalar::Bool(false)),
            ("updateCheckInterval".to_string(), Scalar::Num { neg: false, units: 6, cents: 0 }),
        ],
    );
    assert!(!auto_check_enabled(&gw));
    assert_eq!(check_interval_hours(&gw), 6);
    assert_eq!(check_interval_secs(6), 21600);
}

#[test]
fn options_object_extraction() {
    let pairs = vec![
        ("concurrency".to_string(), Scalar::Num { neg: false, units: 16, cents: 0 }),
        ("chunk_size".to_string(), Scalar::Str("8MB".to_string())),
        ("limit".to_string(), Scalar::Str("2MB".to_string())),
        ("sequential".to_string(), Scalar::Bool(true)),
        ("btPort".to_string(), Scalar::Str("not a number".to_string())),
        ("bt_port".to_string(), Scalar::Num { neg: false, units: 7000, cents: 0 }),
    ];
    let o = DownloadOptions::from_pairs(&pairs);
    assert_eq!(o.concurrency, Some(16));
    // The snake_case spelling is found when the usual one is absent.
    assert_eq!(o.chunk_size.as_deref(), Some("8MB"));
    // The rate limit falls back to the plain `limit` name.
    assert_eq!(o.rate_limit.as_deref(), Some("2MB"));
    assert_eq!(o.bt_sequential, Some(true));
    // A present field of the wrong shape does not fall through.
    assert_eq!(o.bt_port, None);
    assert_eq!(o.retries, None);
}

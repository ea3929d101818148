//! The speed-test engine's single JSON report: locating it in the
//! output, reading its numbers, and the fixed unit-normalization
//! policy (megabytes per second, divided by ten, to bytes per second).

use vstd::prelude::*;
use crate::wire::{token_for, spec_parse_decimal_hundredths, spec_parse_quoted};

verus! {

/// The numbers of one speed-test run, in hundredths of the engine's
/// units; a missing or malformed field counts as zero.
pub struct SpeedReport {
    pub download_mbps_h: u64,
    pub upload_mbps_h: u64,
    pub ping_ms_h: u64,
    pub city: Option<String>,
    pub country: Option<String>,
}

/// A numeric field's value, or zero.
pub open spec fn field_or_zero(s: Seq<char>, key: Seq<char>) -> u64 {
    match token_for(s, key) {
        Some(t) => match spec_parse_decimal_hundredths(t) {
            Some(v) => v,
            None => 0,
        },
        None => 0,
    }
}

/// A string field's characters, if it is a proper quoted string.
pub open spec fn string_field(s: Seq<char>, key: Seq<char>) -> Option<Seq<char>> {
    match token_for(s, key) {
        Some(t) => spec_parse_quoted(t),
        None => None,
    }
}

fn numeric_field(s: &str, key: &str) -> (r: u64)
    ensures
        r == field_or_zero(s@, key@),
{
    match crate::wire::extract_token(s, key) {
        Some(t) => {
            match crate::wire::parse_decimal_hundredths(t.as_str()) {
                Some(v) => v,
                None => 0,
            }
        },
        None => 0,
    }
}

fn quoted_field(s: &str, key: &str) -> (r: Option<String>)
    ensures
        match r {
            Some(v) => string_field(s@, key@) == Some(v@),
            None => string_field(s@, key@) is None,
        },
{
    match crate::wire::extract_token(s, key) {
        Some(t) => crate::wire::parse_quoted_token(t.as_str()),
        None => None,
    }
}

/// Reads the engine's report from its JSON text.
pub fn parse_speed_report(s: &str) -> (r: SpeedReport)
    ensures
        r.download_mbps_h == field_or_zero(s@, "download_mbps"@),
        r.upload_mbps_h == field_or_zero(s@, "upload_mbps"@),
        r.ping_ms_h == field_or_zero(s@, "ping_ms"@),
        match r.city {
            Some(c) => string_field(s@, "city"@) == Some(c@),
            None => string_field(s@, "city"@) is None,
        },
        match r.country {
            Some(c) => string_field(s@, "country"@) == Some(c@),
            None => string_field(s@, "country"@) is None,
        },
{
    SpeedReport {
        download_mbps_h: numeric_field(s, "download_mbps"),
        upload_mbps_h: numeric_field(s, "upload_mbps"),
        ping_ms_h: numeric_field(s, "ping_ms"),
        city: quoted_field(s, "city"),
        country: quoted_field(s, "country"),
    }
}

/// Whether the text carries any of the report's numeric fields; when
/// it carries none, the engine's output was not a report, and the host
/// surfaces a speed-test error instead of a row of zeros.
pub fn report_present(s: &str) -> (r: bool)
    ensures
        r == (token_for(s@, "download_mbps"@) is Some || token_for(s@, "upload_mbps"@) is Some
            || token_for(s@, "ping_ms"@) is Some),
{
    let d = crate::wire::extract_token(s, "download_mbps");
    if d.is_some() {
        return true;
    }
    let u = crate::wire::extract_token(s, "upload_mbps");
    if u.is_some() {
        return true;
    }
    let p = crate::wire::extract_token(s, "ping_ms");
    p.is_some()
}

/// The last position holding `c`, or `-1`.
pub open spec fn last_index_of(s: Seq<char>, c: char) -> int
    decreases s.len(),
{
    if s.len() == 0 {
        -1
    } else if s.last() == c {
        s.len() - 1
    } else {
        last_index_of(s.drop_last(), c)
    }
}

/// The span from the first `{` to the last `}`, where the report
/// stands even when the engine printed noise around it; nothing when
/// the braces are missing or inverted.
pub fn extract_json_span(s: &str) -> (r: Option<(usize, usize)>)
    ensures
        match r {
            Some(span) => crate::strutil::first_of_two_from(s@, '{', '{', 0) == span.0
                && last_index_of(s@, '}') == span.1 && span.0 <= span.1 < s@.len(),
            None => crate::strutil::first_of_two_from(s@, '{', '{', 0) < 0 || last_index_of(
                s@,
                '}',
            ) < crate::strutil::first_of_two_from(s@, '{', '{', 0),
        },
{
    let start = match crate::strutil::find_of_two(s, '{', '{', 0) {
        Some(i) => i,
        None => {
            return None;
        },
    };
    proof {
        crate::wire::lemma_stop_in_range(s@, '{', '{', 0, start as int);
    }
    let len = s.unicode_len();
    let mut j: usize = len;
    proof {
        assert(s@.subrange(0, len as int) =~= s@);
    }
    while j > 0
        invariant
            j <= len,
            len == s@.len(),
            crate::strutil::first_of_two_from(s@, '{', '{', 0) == start as int,
            start < len,
            last_index_of(s@, '}') == last_index_of(s@.subrange(0, j as int), '}'),
        decreases j,
    {
        proof {
            assert(s@.subrange(0, j as int).drop_last() =~= s@.subrange(0, j - 1));
            assert(s@.subrange(0, j as int).last() == s@[j - 1]);
        }
        if s.get_char(j - 1) == '}' {
            let end = j - 1;
            if end < start {
                return None;
            }
            return Some((start, end));
        }
        j -= 1;
    }
    proof {
        assert(s@.subrange(0, 0) =~= Seq::<char>::empty());
    }
    None
}

/// Bytes per second from hundredths of megabytes per second, with the
/// fixed divide-by-ten policy; saturating far beyond any real link.
pub fn normalized_speed_bps(mbps_hundredths: u64) -> (r: u64)
    ensures
        mbps_hundredths <= u64::MAX / 1048576 ==> r == mbps_hundredths * 1048576 / 1000,
        mbps_hundredths > u64::MAX / 1048576 ==> r == u64::MAX,
{
    if mbps_hundredths <= u64::MAX / 1048576 {
        mbps_hundredths * 1048576 / 1000
    } else {
        u64::MAX
    }
}

/// Whole milliseconds of ping, as republished.
pub fn ping_millis(ping_ms_hundredths: u64) -> (r: u64)
    ensures
        r == ping_ms_hundredths / 100,
{
    ping_ms_hundredths / 100
}

/// A latency object is published only for a positive ping.
pub fn has_latency(ping_ms: u64) -> (r: bool)
    ensures
        r == (ping_ms > 0),
{
    ping_ms > 0
}

} // verus!

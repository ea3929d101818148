//! The engine's line protocol: one JSON object per stdout line, read
//! by field. A field's value runs from after `"name":` to the next
//! comma or closing brace; string values carry no escapes, as the
//! engine's ids never need them. Anything that does not fit is not a
//! progress object and the line is dropped silently.

use vstd::prelude::*;
use crate::jobs::PROGRESS_SCALE;
use crate::progress::ProgressEvent;
use crate::scalar::{all_digits, digits_val};
use crate::strutil::{
    dec_val, is_dec_digit, first_match_from, first_of_two_from, find_sub, find_of_two, push_char,
};

verus! {

/// How a field is looked up: a quoted name followed by a colon.
pub open spec fn key_pattern(key: Seq<char>) -> Seq<char> {
    seq!['"'] + key + seq!['"', ':']
}

/// The raw text of a field's value: from after the first occurrence
/// of the pattern to the next comma or closing brace.
pub open spec fn token_for(s: Seq<char>, key: Seq<char>) -> Option<Seq<char>> {
    let i = first_match_from(s, key_pattern(key), 0);
    if i < 0 {
        None
    } else {
        let vstart = i + key_pattern(key).len();
        let j = first_of_two_from(s, ',', '}', vstart as nat);
        if j < 0 {
            None
        } else {
            Some(s.subrange(vstart, j))
        }
    }
}

/// A non-negative integer token.
pub open spec fn spec_parse_uint(t: Seq<char>) -> Option<u64> {
    if t.len() >= 1 && all_digits(t) && digits_val(t) <= u64::MAX {
        Some(digits_val(t) as u64)
    } else {
        None
    }
}

/// The first two fraction digits, as hundredths.
pub open spec fn frac_cents(f: Seq<char>) -> nat {
    if f.len() == 1 {
        (dec_val(f[0]) * 10) as nat
    } else {
        (dec_val(f[0]) * 10 + dec_val(f[1])) as nat
    }
}

/// A non-negative decimal token, kept to hundredths; further fraction
/// digits are cut off.
pub open spec fn spec_parse_decimal_hundredths(t: Seq<char>) -> Option<u64> {
    let d = first_of_two_from(t, '.', '.', 0);
    if d < 0 {
        match spec_parse_uint(t) {
            Some(u) => if u <= u64::MAX / 100 {
                Some((u * 100) as u64)
            } else {
                None
            },
            None => None,
        }
    } else {
        let ip = t.take(d);
        let fp = t.skip(d + 1);
        if ip.len() >= 1 && all_digits(ip) && fp.len() >= 1 && all_digits(fp) && digits_val(ip)
            <= (u64::MAX - 99) / 100 {
            Some((digits_val(ip) * 100 + frac_cents(fp)) as u64)
        } else {
            None
        }
    }
}

/// A quoted, escape-free string token.
pub open spec fn spec_parse_quoted(t: Seq<char>) -> Option<Seq<char>> {
    if t.len() >= 2 && t[0] == '"' && t[t.len() - 1] == '"' && (forall|k: int|
        1 <= k < t.len() - 1 ==> t[k] != '"' && t[k] != '\\') {
        Some(t.subrange(1, t.len() - 1))
    } else {
        None
    }
}

/// The id field: `download_id`, or `downloadId` when the engine uses
/// the other spelling.
pub open spec fn id_token(s: Seq<char>) -> Option<Seq<char>> {
    match token_for(s, "download_id"@) {
        Some(t) => Some(t),
        None => token_for(s, "downloadId"@),
    }
}

/// A valid progress object: it carries an id field and numeric
/// progress, downloaded, total and speed fields. The id is the id
/// field's string, or the monitored job's own id when the field is
/// not a string; progress is clamped to 100%.
pub open spec fn spec_progress_event(line: Seq<char>, fallback_id: Seq<char>) -> Option<
    (Seq<char>, u64, u64, u64, u64),
> {
    match id_token(line) {
        None => None,
        Some(idt) => match token_for(line, "progress"@) {
            None => None,
            Some(pt) => match spec_parse_decimal_hundredths(pt) {
                None => None,
                Some(p) => match token_for(line, "downloaded"@) {
                    None => None,
                    Some(dt) => match spec_parse_uint(dt) {
                        None => None,
                        Some(d) => match token_for(line, "total"@) {
                            None => None,
                            Some(tt) => match spec_parse_uint(tt) {
                                None => None,
                                Some(t) => match token_for(line, "speed"@) {
                                    None => None,
                                    Some(st) => match spec_parse_uint(st) {
                                        None => None,
                                        Some(sp) => {
                                            let id = match spec_parse_quoted(idt) {
                                                Some(i) => i,
                                                None => fallback_id,
                                            };
                                            let pc = if p > PROGRESS_SCALE {
                                                PROGRESS_SCALE
                                            } else {
                                                p
                                            };
                                            Some((id, pc, d, t, sp))
                                        },
                                    },
                                },
                            },
                        },
                    },
                },
            },
        },
    }
}

/// Extracts a field's raw token.
pub fn extract_token(s: &str, key: &str) -> (r: Option<String>)
    ensures
        match r {
            Some(tok) => token_for(s@, key@) == Some(tok@),
            None => token_for(s@, key@) is None,
        },
{
    let mut pat = String::new();
    push_char(&mut pat, '"');
    pat.append(key);
    push_char(&mut pat, '"');
    push_char(&mut pat, ':');
    proof {
        assert(pat@ =~= key_pattern(key@));
    }
    match find_sub(s, pat.as_str()) {
        Some(i) => {
            proof {
                // A match leaves the pattern inside the string.
                lemma_match_in_range(s@, pat@, i as int);
            }
            let plen = pat.as_str().unicode_len();
            let slen = s.unicode_len();
            assert(i + plen <= slen);
            let vstart = i + plen;
            match find_of_two(s, ',', '}', vstart) {
                Some(j) => {
                    proof {
                        lemma_stop_in_range(s@, ',', '}', vstart as nat, j as int);
                    }
                    let tok = s.substring_char(vstart, j).to_owned();
                    Some(tok)
                },
                None => None,
            }
        },
        None => None,
    }
}

/// A successful pattern match lies within the string.
proof fn lemma_match_in_range(s: Seq<char>, p: Seq<char>, i: int)
    requires
        first_match_from(s, p, 0) == i,
        i >= 0,
    ensures
        i + p.len() <= s.len(),
{
    lemma_match_in_range_from(s, p, 0, i);
}

proof fn lemma_match_in_range_from(s: Seq<char>, p: Seq<char>, from: nat, i: int)
    requires
        first_match_from(s, p, from) == i,
        i >= 0,
    ensures
        i + p.len() <= s.len(),
        i >= from,
    decreases s.len() - from,
{
    if !(p.len() == 0 || from + p.len() > s.len()) {
        if s.subrange(from as int, (from + p.len()) as int) == p {
        } else {
            lemma_match_in_range_from(s, p, from + 1, i);
        }
    }
}

/// A found stop character lies within the string, at or after the
/// start.
pub proof fn lemma_stop_in_range(s: Seq<char>, c0: char, c1: char, from: nat, j: int)
    requires
        first_of_two_from(s, c0, c1, from) == j,
        j >= 0,
    ensures
        from <= j < s.len(),
    decreases s.len() - from,
{
    if from < s.len() {
        if s[from as int] == c0 || s[from as int] == c1 {
        } else {
            lemma_stop_in_range(s, c0, c1, from + 1, j);
        }
    }
}

/// Reads a non-negative integer token.
pub fn parse_uint(t: &str) -> (r: Option<u64>)
    ensures
        r == spec_parse_uint(t@),
{
    let len = t.unicode_len();
    if len == 0 {
        return None;
    }
    let mut i: usize = 0;
    let mut acc: u64 = 0;
    let mut big: bool = false;
    proof {
        assert(t@.subrange(0, 0) =~= Seq::<char>::empty());
    }
    while i < len
        invariant
            i <= len,
            len == t@.len(),
            forall|k: int| 0 <= k < i ==> is_dec_digit(#[trigger] t@[k]),
            !big ==> acc == digits_val(t@.subrange(0, i as int)),
            big ==> digits_val(t@.subrange(0, i as int)) > u64::MAX,
        decreases len - i,
    {
        let c = t.get_char(i);
        if !('0' <= c && c <= '9') {
            proof {
                assert(!is_dec_digit(t@[i as int]));
                assert(!all_digits(t@));
            }
            return None;
        }
        let d = (c as u32) - 48;
        proof {
            assert(t@.subrange(0, i + 1).drop_last() =~= t@.subrange(0, i as int));
            assert(t@.subrange(0, i + 1).last() == c);
            assert(d == dec_val(c));
        }
        if big {
            proof {
                let w = t@.subrange(0, i + 1);
                assert(digits_val(w) >= digits_val(w.drop_last()) * 10);
            }
        } else {
            if acc > (u64::MAX - (d as u64)) / 10 {
                big = true;
                proof {
                    let w = t@.subrange(0, i + 1);
                    assert(digits_val(w) == acc * 10 + (d as nat));
                    assert(acc * 10 + (d as nat) > u64::MAX);
                }
            } else {
                acc = acc * 10 + (d as u64);
            }
        }
        i += 1;
    }
    proof {
        assert(t@.subrange(0, len as int) =~= t@);
    }
    if big {
        return None;
    }
    Some(acc)
}

/// Reads a non-negative decimal token, to hundredths.
pub fn parse_decimal_hundredths(t: &str) -> (r: Option<u64>)
    ensures
        r == spec_parse_decimal_hundredths(t@),
{
    match find_of_two(t, '.', '.', 0) {
        None => {
            match parse_uint(t) {
                Some(u) => {
                    if u <= u64::MAX / 100 {
                        Some(u * 100)
                    } else {
                        None
                    }
                },
                None => None,
            }
        },
        Some(d) => {
            proof {
                lemma_stop_in_range(t@, '.', '.', 0, d as int);
            }
            let len = t.unicode_len();
            let ip = t.substring_char(0, d);
            let fp = t.substring_char(d + 1, len);
            proof {
                assert(ip@ =~= t@.take(d as int));
                assert(fp@ =~= t@.skip(d + 1));
            }
            let units = match parse_uint(ip) {
                Some(u) => u,
                None => {
                    proof {
                        unit_or_digits_absent(t@.take(d as int));
                    }
                    return None;
                },
            };
            proof {
                assert(ip@.len() >= 1 && all_digits(ip@));
            }
            if units > (u64::MAX - 99) / 100 {
                return None;
            }
            let flen = fp.unicode_len();
            if flen == 0 {
                return None;
            }
            if !all_digits_check(fp) {
                return None;
            }
            let c0 = fp.get_char(0);
            let cents: u64 = if flen == 1 {
                (((c0 as u32) - 48) * 10) as u64
            } else {
                let c1 = fp.get_char(1);
                ((((c0 as u32) - 48) * 10) + ((c1 as u32) - 48)) as u64
            };
            proof {
                assert(cents == frac_cents(fp@));
            }
            Some(units * 100 + cents)
        },
    }
}

/// Whether every character is a decimal digit.
fn all_digits_check(t: &str) -> (r: bool)
    ensures
        r == all_digits(t@),
{
    let len = t.unicode_len();
    let mut i: usize = 0;
    while i < len
        invariant
            i <= len,
            len == t@.len(),
            forall|k: int| 0 <= k < i ==> is_dec_digit(#[trigger] t@[k]),
        decreases len - i,
    {
        let c = t.get_char(i);
        if !('0' <= c && c <= '9') {
            assert(!is_dec_digit(t@[i as int]));
            return false;
        }
        i += 1;
    }
    true
}

/// When `parse_uint` fails, the token is not a plain numeral.
proof fn unit_or_digits_absent(t: Seq<char>)
    requires
        spec_parse_uint(t) is None,
    ensures
        !(t.len() >= 1 && all_digits(t) && digits_val(t) <= u64::MAX),
{
}

/// Reads a quoted, escape-free string token.
pub fn parse_quoted_token(t: &str) -> (r: Option<String>)
    ensures
        match r {
            Some(v) => spec_parse_quoted(t@) == Some(v@),
            None => spec_parse_quoted(t@) is None,
        },
{
    let len = t.unicode_len();
    if len < 2 {
        return None;
    }
    if t.get_char(0) != '"' || t.get_char(len - 1) != '"' {
        return None;
    }
    let mut i: usize = 1;
    while i < len - 1
        invariant
            1 <= i <= len - 1,
            2 <= len == t@.len(),
            t@[0] == '"',
            t@[len - 1] == '"',
            forall|k: int| 1 <= k < i ==> t@[k] != '"' && t@[k] != '\\',
        decreases len - i,
    {
        let c = t.get_char(i);
        if c == '"' || c == '\\' {
            return None;
        }
        i += 1;
    }
    let mid = t.substring_char(1, len - 1).to_owned();
    proof {
        assert(mid@ =~= t@.subrange(1, t@.len() - 1));
    }
    Some(mid)
}

/// Parses one stdout line as a progress object. `fallback_id` is the
/// monitored job's own id, used when the id field is not a string.
pub fn parse_progress_line(line: &str, fallback_id: &str) -> (r: Option<ProgressEvent>)
    ensures
        match r {
            Some(ev) => spec_progress_event(line@, fallback_id@) matches Some(t) && ev.id@ == t.0
                && ev.progress == t.1 && ev.downloaded == t.2 && ev.total == t.3 && ev.speed
                == t.4 && ev.progress <= PROGRESS_SCALE,
            None => spec_progress_event(line@, fallback_id@) is None,
        },
{
    let idt = match extract_token(line, "download_id") {
        Some(t) => t,
        None => {
            match extract_token(line, "downloadId") {
                Some(t) => t,
                None => {
                    return None;
                },
            }
        },
    };
    let pt = match extract_token(line, "progress") {
        Some(t) => t,
        None => {
            return None;
        },
    };
    let p = match parse_decimal_hundredths(pt.as_str()) {
        Some(p) => p,
        None => {
            return None;
        },
    };
    let dt = match extract_token(line, "downloaded") {
        Some(t) => t,
        None => {
            return None;
        },
    };
    let d = match parse_uint(dt.as_str()) {
        Some(d) => d,
        None => {
            return None;
        },
    };
    let tt = match extract_token(line, "total") {
        Some(t) => t,
        None => {
            return None;
        },
    };
    let tot = match parse_uint(tt.as_str()) {
        Some(t) => t,
        None => {
            return None;
        },
    };
    let st = match extract_token(line, "speed") {
        Some(t) => t,
        None => {
            return None;
        },
    };
    let sp = match parse_uint(st.as_str()) {
        Some(s) => s,
        None => {
            return None;
        },
    };
    let id = match parse_quoted_token(idt.as_str()) {
        Some(i) => i,
        None => fallback_id.to_owned(),
    };
    let pc = if p > 10000 {
        10000
    } else {
        p
    };
    Some(ProgressEvent { id, progress: pc, downloaded: d, total: tot, speed: sp })
}

} // verus!

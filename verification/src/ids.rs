//! Job and speed-test identifiers: `{epoch-millis}-{random-suffix}` for
//! downloads, `test_{epoch-secs}_{random-suffix}` for speed tests.

use vstd::prelude::*;
use crate::strutil::{dec_str, u64_to_string, push_char};

verus! {

/// The number of random characters in a generated identifier.
pub const SUFFIX_LEN: usize = 9;

/// Relies on `nanoid::format` with the URL-safe alphabet
/// (`A-Za-z0-9_-`, all ASCII): returns a fresh random identifier of
/// exactly `len` characters.
#[verifier::external_body]
fn random_suffix(len: usize) -> (r: String)
    ensures
        r@.len() == len as nat,
        r.is_ascii(),
{
    nanoid::format(nanoid::rngs::default, &nanoid::alphabet::SAFE, len)
}

/// The identifier text for a download job: millis, `'-'`, suffix.
pub open spec fn job_id_chars(millis: nat, suffix: Seq<char>) -> Seq<char> {
    dec_str(millis).push('-') + suffix
}

/// The identifier text for a speed test: `"test_"`, secs, `'_'`, suffix.
pub open spec fn test_id_chars(secs: nat, suffix: Seq<char>) -> Seq<char> {
    "test_"@ + dec_str(secs).push('_') + suffix
}

/// Formats a download-job identifier from its parts.
pub fn format_job_id(millis: u64, suffix: &str) -> (r: String)
    ensures
        r@ == job_id_chars(millis as nat, suffix@),
{
    let mut s = u64_to_string(millis);
    push_char(&mut s, '-');
    s.append(suffix);
    s
}

/// Formats a speed-test identifier from its parts.
pub fn format_test_id(secs: u64, suffix: &str) -> (r: String)
    ensures
        r@ == test_id_chars(secs as nat, suffix@),
{
    let mut s = "test_".to_owned();
    let num = u64_to_string(secs);
    s.append(num.as_str());
    push_char(&mut s, '_');
    s.append(suffix);
    proof {
        assert(s@ =~= test_id_chars(secs as nat, suffix@));
    }
    s
}

/// A fresh download-job identifier for the given creation instant. The
/// suffix is random, so only the shape is promised: the millis, a dash,
/// and exactly `SUFFIX_LEN` further characters.
pub fn new_job_id(now_millis: u64) -> (r: String)
    ensures
        exists|suffix: Seq<char>|
            suffix.len() == SUFFIX_LEN && r@ == job_id_chars(now_millis as nat, suffix),
{
    let suffix = random_suffix(SUFFIX_LEN);
    let r = format_job_id(now_millis, suffix.as_str());
    proof {
        assert(suffix@.len() == SUFFIX_LEN && r@ == job_id_chars(now_millis as nat, suffix@));
    }
    r
}

/// A fresh speed-test identifier for the given creation instant.
pub fn new_test_id(now_secs: u64) -> (r: String)
    ensures
        exists|suffix: Seq<char>|
            suffix.len() == SUFFIX_LEN && r@ == test_id_chars(now_secs as nat, suffix),
{
    let suffix = random_suffix(SUFFIX_LEN);
    let r = format_test_id(now_secs, suffix.as_str());
    proof {
        assert(suffix@.len() == SUFFIX_LEN && r@ == test_id_chars(now_secs as nat, suffix@));
    }
    r
}

} // verus!

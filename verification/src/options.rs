//! Caller-supplied tuning options for a download job, as a closed set of
//! plain fields: exactly what the engine's command line understands,
//! read out of the caller's free-form options object.

use vstd::prelude::*;
use crate::scalar::{Scalar, SVal};
use crate::strutil::str_eq;

verus! {

/// Tuning options handed to the external engine when a job is spawned.
/// Every field is optional; an absent field emits no flag.
pub struct DownloadOptions {
    pub concurrency: Option<u64>,
    pub chunk_size: Option<String>,
    pub rate_limit: Option<String>,
    pub bt_upload_limit: Option<String>,
    pub bt_sequential: Option<bool>,
    pub bt_keep_seeding: Option<bool>,
    pub bt_port: Option<u64>,
    pub connect_timeout: Option<u64>,
    pub read_timeout: Option<u64>,
    pub retries: Option<u64>,
    pub sha256: Option<String>,
}

/// The pairs as ghost key/value shapes.
pub open spec fn pairs_view(ps: Seq<(String, Scalar)>) -> Seq<(Seq<char>, SVal)> {
    ps.map_values(|e: (String, Scalar)| (e.0@, e.1.view_s()))
}

/// The first value under a key.
pub open spec fn assoc(ps: Seq<(Seq<char>, SVal)>, key: Seq<char>) -> Option<SVal>
    decreases ps.len(),
{
    if ps.len() == 0 {
        None
    } else if ps[0].0 == key {
        Some(ps[0].1)
    } else {
        assoc(ps.drop_first(), key)
    }
}

/// The value under the first of two names that is present at all.
pub open spec fn assoc2(ps: Seq<(Seq<char>, SVal)>, a: Seq<char>, b: Seq<char>) -> Option<SVal> {
    match assoc(ps, a) {
        Some(v) => Some(v),
        None => assoc(ps, b),
    }
}

pub open spec fn as_u64_s(v: SVal) -> Option<u64> {
    match v {
        SVal::Num { neg: false, units, cents: 0 } => Some(units),
        _ => None,
    }
}

pub open spec fn as_str_s(v: SVal) -> Option<Seq<char>> {
    match v {
        SVal::Str(s) => Some(s),
        _ => None,
    }
}

pub open spec fn as_bool_s(v: SVal) -> Option<bool> {
    match v {
        SVal::Bool(b) => Some(b),
        _ => None,
    }
}

pub open spec fn u64_field(ps: Seq<(Seq<char>, SVal)>, a: Seq<char>, b: Seq<char>) -> Option<
    u64,
> {
    match assoc2(ps, a, b) {
        Some(v) => as_u64_s(v),
        None => None,
    }
}

pub open spec fn str_field(ps: Seq<(Seq<char>, SVal)>, a: Seq<char>, b: Seq<char>) -> Option<
    Seq<char>,
> {
    match assoc2(ps, a, b) {
        Some(v) => as_str_s(v),
        None => None,
    }
}

pub open spec fn bool_field(ps: Seq<(Seq<char>, SVal)>, a: Seq<char>, b: Seq<char>) -> Option<
    bool,
> {
    match assoc2(ps, a, b) {
        Some(v) => as_bool_s(v),
        None => None,
    }
}

/// The rate limit reads `rateLimit`/`rate_limit` first and a plain
/// `limit` second.
pub open spec fn rate_limit_field(ps: Seq<(Seq<char>, SVal)>) -> Option<Seq<char>> {
    match str_field(ps, "rateLimit"@, "rate_limit"@) {
        Some(s) => Some(s),
        None => str_field(ps, "limit"@, "limit"@),
    }
}

/// Sequential mode reads `sequentialMode`/`bt_sequential` first and a
/// plain `sequential` second.
pub open spec fn sequential_field(ps: Seq<(Seq<char>, SVal)>) -> Option<bool> {
    match bool_field(ps, "sequentialMode"@, "bt_sequential"@) {
        Some(b) => Some(b),
        None => bool_field(ps, "sequential"@, "sequential"@),
    }
}

/// The first pair under `key`, by linear search.
fn lookup<'a>(pairs: &'a Vec<(String, Scalar)>, key: &str) -> (r: Option<&'a Scalar>)
    ensures
        match r {
            Some(v) => assoc(pairs_view(pairs@), key@) == Some(v.view_s()),
            None => assoc(pairs_view(pairs@), key@) is None,
        },
{
    let n = pairs.len();
    let ghost ps = pairs_view(pairs@);
    proof {
        assert(ps.skip(0) =~= ps);
    }
    let mut i: usize = 0;
    while i < n
        invariant
            i <= n,
            n == pairs@.len(),
            ps == pairs_view(pairs@),
            assoc(ps, key@) == assoc(ps.skip(i as int), key@),
        decreases n - i,
    {
        proof {
            assert(ps.skip(i as int)[0] == ps[i as int]);
            assert(ps.skip(i as int).drop_first() =~= ps.skip(i + 1));
        }
        let e = &pairs[i];
        if str_eq(e.0.as_str(), key) {
            proof {
                assert(ps[i as int].0 == key@);
            }
            return Some(&e.1);
        }
        i += 1;
    }
    proof {
        assert(ps.skip(n as int) =~= Seq::<(Seq<char>, SVal)>::empty());
    }
    None
}

fn lookup2<'a>(pairs: &'a Vec<(String, Scalar)>, a: &str, b: &str) -> (r: Option<&'a Scalar>)
    ensures
        match r {
            Some(v) => assoc2(pairs_view(pairs@), a@, b@) == Some(v.view_s()),
            None => assoc2(pairs_view(pairs@), a@, b@) is None,
        },
{
    match lookup(pairs, a) {
        Some(v) => Some(v),
        None => lookup(pairs, b),
    }
}

fn get_u64_2(pairs: &Vec<(String, Scalar)>, a: &str, b: &str) -> (r: Option<u64>)
    ensures
        r == u64_field(pairs_view(pairs@), a@, b@),
{
    match lookup2(pairs, a, b) {
        Some(Scalar::Num { neg: false, units, cents: 0 }) => Some(*units),
        Some(_) => None,
        None => None,
    }
}

fn get_str_2(pairs: &Vec<(String, Scalar)>, a: &str, b: &str) -> (r: Option<String>)
    ensures
        match r {
            Some(s) => str_field(pairs_view(pairs@), a@, b@) == Some(s@),
            None => str_field(pairs_view(pairs@), a@, b@) is None,
        },
{
    match lookup2(pairs, a, b) {
        Some(Scalar::Str(s)) => Some(s.clone()),
        Some(_) => None,
        None => None,
    }
}

fn get_bool_2(pairs: &Vec<(String, Scalar)>, a: &str, b: &str) -> (r: Option<bool>)
    ensures
        r == bool_field(pairs_view(pairs@), a@, b@),
{
    match lookup2(pairs, a, b) {
        Some(Scalar::Bool(bv)) => Some(*bv),
        Some(_) => None,
        None => None,
    }
}

fn dup_opt_string(o: &Option<String>) -> (r: Option<String>)
    ensures
        r == *o,
{
    match o {
        Some(s) => Some(s.clone()),
        None => None,
    }
}

impl DownloadOptions {
    /// Options with every field absent.
    pub fn none() -> (r: DownloadOptions)
        ensures
            r.concurrency is None,
            r.chunk_size is None,
            r.rate_limit is None,
            r.bt_upload_limit is None,
            r.bt_sequential is None,
            r.bt_keep_seeding is None,
            r.bt_port is None,
            r.connect_timeout is None,
            r.read_timeout is None,
            r.retries is None,
            r.sha256 is None,
    {
        DownloadOptions {
            concurrency: None,
            chunk_size: None,
            rate_limit: None,
            bt_upload_limit: None,
            bt_sequential: None,
            bt_keep_seeding: None,
            bt_port: None,
            connect_timeout: None,
            read_timeout: None,
            retries: None,
            sha256: None,
        }
    }

    /// Reads the options object a caller supplied, as key/value pairs.
    /// Each field tries its usual name first and a spelling variant
    /// second; a present field of the wrong shape yields nothing, it
    /// does not fall through to the variant.
    pub fn from_pairs(pairs: &Vec<(String, Scalar)>) -> (r: DownloadOptions)
        ensures
            r.concurrency == u64_field(pairs_view(pairs@), "concurrency"@, "concurrency"@),
            (match r.chunk_size {
                Some(s) => str_field(pairs_view(pairs@), "chunkSize"@, "chunk_size"@) == Some(s@),
                None => str_field(pairs_view(pairs@), "chunkSize"@, "chunk_size"@) is None,
            }),
            (match r.rate_limit {
                Some(s) => rate_limit_field(pairs_view(pairs@)) == Some(s@),
                None => rate_limit_field(pairs_view(pairs@)) is None,
            }),
            (match r.bt_upload_limit {
                Some(s) => str_field(pairs_view(pairs@), "btUploadLimit"@, "bt_upload_limit"@)
                    == Some(s@),
                None => str_field(pairs_view(pairs@), "btUploadLimit"@, "bt_upload_limit"@)
                    is None,
            }),
            r.bt_sequential == sequential_field(pairs_view(pairs@)),
            r.bt_keep_seeding == bool_field(pairs_view(pairs@), "btKeepSeeding"@,
                "bt_keep_seeding"@),
            r.bt_port == u64_field(pairs_view(pairs@), "btPort"@, "bt_port"@),
            r.connect_timeout == u64_field(pairs_view(pairs@), "connectTimeout"@,
                "connect_timeout"@),
            r.read_timeout == u64_field(pairs_view(pairs@), "readTimeout"@, "read_timeout"@),
            r.retries == u64_field(pairs_view(pairs@), "retries"@, "retries"@),
            (match r.sha256 {
                Some(s) => str_field(pairs_view(pairs@), "sha256"@, "sha256"@) == Some(s@),
                None => str_field(pairs_view(pairs@), "sha256"@, "sha256"@) is None,
            }),
    {
        let rate = match get_str_2(pairs, "rateLimit", "rate_limit") {
            Some(s) => Some(s),
            None => get_str_2(pairs, "limit", "limit"),
        };
        let sequential = match get_bool_2(pairs, "sequentialMode", "bt_sequential") {
            Some(b) => Some(b),
            None => get_bool_2(pairs, "sequential", "sequential"),
        };
        DownloadOptions {
            concurrency: get_u64_2(pairs, "concurrency", "concurrency"),
            chunk_size: get_str_2(pairs, "chunkSize", "chunk_size"),
            rate_limit: rate,
            bt_upload_limit: get_str_2(pairs, "btUploadLimit", "bt_upload_limit"),
            bt_sequential: sequential,
            bt_keep_seeding: get_bool_2(pairs, "btKeepSeeding", "bt_keep_seeding"),
            bt_port: get_u64_2(pairs, "btPort", "bt_port"),
            connect_timeout: get_u64_2(pairs, "connectTimeout", "connect_timeout"),
            read_timeout: get_u64_2(pairs, "readTimeout", "read_timeout"),
            retries: get_u64_2(pairs, "retries", "retries"),
            sha256: get_str_2(pairs, "sha256", "sha256"),
        }
    }

    /// A field-for-field copy.
    pub fn duplicate(&self) -> (r: DownloadOptions)
        ensures
            r == *self,
    {
        DownloadOptions {
            concurrency: self.concurrency,
            chunk_size: dup_opt_string(&self.chunk_size),
            rate_limit: dup_opt_string(&self.rate_limit),
            bt_upload_limit: dup_opt_string(&self.bt_upload_limit),
            bt_sequential: self.bt_sequential,
            bt_keep_seeding: self.bt_keep_seeding,
            bt_port: self.bt_port,
            connect_timeout: self.connect_timeout,
            read_timeout: self.read_timeout,
            retries: self.retries,
            sha256: dup_opt_string(&self.sha256),
        }
    }
}

} // verus!

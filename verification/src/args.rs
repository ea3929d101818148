//! The command line handed to the external download engine. The flag
//! vocabulary is an interface contract with the engine and is pinned
//! down, word for word, by `spec_command_args`.

use vstd::prelude::*;
use crate::options::DownloadOptions;
use crate::strutil::{dec_str, u64_to_string};

verus! {

/// The views of the strings in an argument vector.
pub open spec fn strs(v: Seq<String>) -> Seq<Seq<char>> {
    v.map_values(|s: String| s@)
}

/// The three positional flags every invocation carries.
pub open spec fn base_args(source: Seq<char>, output: Seq<char>, id: Seq<char>) -> Seq<
    Seq<char>,
> {
    seq!["--source"@, source, "--output"@, output, "--download-id"@, id]
}

/// A numeric flag: emitted with its value when present.
pub open spec fn u64_flag(flag: Seq<char>, o: Option<u64>) -> Seq<Seq<char>> {
    match o {
        Some(n) => seq![flag, dec_str(n as nat)],
        None => Seq::empty(),
    }
}

/// A textual flag: emitted with its value when present and non-empty.
pub open spec fn str_flag(flag: Seq<char>, o: Option<String>) -> Seq<Seq<char>> {
    match o {
        Some(s) => if s@.len() == 0 {
            Seq::empty()
        } else {
            seq![flag, s@]
        },
        None => Seq::empty(),
    }
}

/// A boolean flag: emitted alone when set to true.
pub open spec fn bool_flag(flag: Seq<char>, o: Option<bool>) -> Seq<Seq<char>> {
    match o {
        Some(true) => seq![flag],
        _ => Seq::empty(),
    }
}

/// The optional tuning flags, in their fixed order.
pub open spec fn option_args(o: DownloadOptions) -> Seq<Seq<char>> {
    u64_flag("--concurrency"@, o.concurrency) + str_flag("--chunk-size"@, o.chunk_size) + str_flag(
        "--limit"@,
        o.rate_limit,
    ) + str_flag("--bt-upload-limit"@, o.bt_upload_limit) + bool_flag(
        "--bt-sequential"@,
        o.bt_sequential,
    ) + bool_flag("--bt-keep-seeding"@, o.bt_keep_seeding) + u64_flag("--bt-port"@, o.bt_port)
        + u64_flag("--connect-timeout"@, o.connect_timeout) + u64_flag(
        "--read-timeout"@,
        o.read_timeout,
    ) + u64_flag("--retries"@, o.retries) + str_flag("--sha256"@, o.sha256)
}

/// The full argument vector for a monitored download.
pub open spec fn spec_command_args(
    source: Seq<char>,
    output: Seq<char>,
    id: Seq<char>,
    options: Option<DownloadOptions>,
) -> Seq<Seq<char>> {
    match options {
        Some(o) => base_args(source, output, id) + option_args(o),
        None => base_args(source, output, id),
    }
}

fn push_str(args: &mut Vec<String>, s: &str)
    ensures
        strs(final(args)@) == strs(old(args)@).push(s@),
{
    args.push(s.to_owned());
    proof {
        assert(strs(args@) =~= strs(old(args)@).push(s@));
    }
}

fn push_string(args: &mut Vec<String>, s: String)
    ensures
        strs(final(args)@) == strs(old(args)@).push(s@),
{
    args.push(s);
    proof {
        assert(strs(args@) =~= strs(old(args)@).push(s@));
    }
}

fn push_u64_flag(args: &mut Vec<String>, flag: &str, o: Option<u64>)
    ensures
        strs(final(args)@) == strs(old(args)@) + u64_flag(flag@, o),
{
    match o {
        Some(n) => {
            push_str(args, flag);
            push_string(args, u64_to_string(n));
            proof {
                assert(strs(args@) =~= strs(old(args)@) + u64_flag(flag@, o));
            }
        },
        None => {
            proof {
                assert(strs(args@) =~= strs(old(args)@) + u64_flag(flag@, o));
            }
        },
    }
}

fn push_str_flag(args: &mut Vec<String>, flag: &str, o: &Option<String>)
    ensures
        strs(final(args)@) == strs(old(args)@) + str_flag(flag@, *o),
{
    match o {
        Some(s) => {
            if s.as_str().unicode_len() == 0 {
                proof {
                    assert(strs(args@) =~= strs(old(args)@) + str_flag(flag@, *o));
                }
            } else {
                push_str(args, flag);
                push_str(args, s.as_str());
                proof {
                    assert(strs(args@) =~= strs(old(args)@) + str_flag(flag@, *o));
                }
            }
        },
        None => {
            proof {
                assert(strs(args@) =~= strs(old(args)@) + str_flag(flag@, *o));
            }
        },
    }
}

fn push_bool_flag(args: &mut Vec<String>, flag: &str, o: Option<bool>)
    ensures
        strs(final(args)@) == strs(old(args)@) + bool_flag(flag@, o),
{
    match o {
        Some(true) => {
            push_str(args, flag);
            proof {
                assert(strs(args@) =~= strs(old(args)@) + bool_flag(flag@, o));
            }
        },
        _ => {
            proof {
                assert(strs(args@) =~= strs(old(args)@) + bool_flag(flag@, o));
            }
        },
    }
}

/// Builds the engine command line for one download. The output path is
/// taken as already expanded; path expansion is the caller's step.
#[verifier::rlimit(80)]
pub fn build_command_args(
    source: &str,
    output: &str,
    download_id: &str,
    options: &Option<DownloadOptions>,
) -> (r: Vec<String>)
    ensures
        strs(r@) == spec_command_args(source@, output@, download_id@, *options),
{
    let mut args: Vec<String> = Vec::new();
    proof {
        assert(strs(args@) =~= Seq::<Seq<char>>::empty());
    }
    push_str(&mut args, "--source");
    push_str(&mut args, source);
    push_str(&mut args, "--output");
    push_str(&mut args, output);
    push_str(&mut args, "--download-id");
    push_str(&mut args, download_id);
    proof {
        assert(strs(args@) =~= base_args(source@, output@, download_id@));
    }
    match options {
        Some(o) => {
            let ghost base = strs(args@);
            push_u64_flag(&mut args, "--concurrency", o.concurrency);
            let ghost a1 = u64_flag("--concurrency"@, o.concurrency);
            push_str_flag(&mut args, "--chunk-size", &o.chunk_size);
            let ghost a2 = a1 + str_flag("--chunk-size"@, o.chunk_size);
            proof {
                assert(strs(args@) =~= base + a2);
            }
            push_str_flag(&mut args, "--limit", &o.rate_limit);
            let ghost a3 = a2 + str_flag("--limit"@, o.rate_limit);
            proof {
                assert(strs(args@) =~= base + a3);
            }
            push_str_flag(&mut args, "--bt-upload-limit", &o.bt_upload_limit);
            let ghost a4 = a3 + str_flag("--bt-upload-limit"@, o.bt_upload_limit);
            proof {
                assert(strs(args@) =~= base + a4);
            }
            push_bool_flag(&mut args, "--bt-sequential", o.bt_sequential);
            let ghost a5 = a4 + bool_flag("--bt-sequential"@, o.bt_sequential);
            proof {
                assert(strs(args@) =~= base + a5);
            }
            push_bool_flag(&mut args, "--bt-keep-seeding", o.bt_keep_seeding);
            let ghost a6 = a5 + bool_flag("--bt-keep-seeding"@, o.bt_keep_seeding);
            proof {
                assert(strs(args@) =~= base + a6);
            }
            push_u64_flag(&mut args, "--bt-port", o.bt_port);
            let ghost a7 = a6 + u64_flag("--bt-port"@, o.bt_port);
            proof {
                assert(strs(args@) =~= base + a7);
            }
            push_u64_flag(&mut args, "--connect-timeout", o.connect_timeout);
            let ghost a8 = a7 + u64_flag("--connect-timeout"@, o.connect_timeout);
            proof {
                assert(strs(args@) =~= base + a8);
            }
            push_u64_flag(&mut args, "--read-timeout", o.read_timeout);
            let ghost a9 = a8 + u64_flag("--read-timeout"@, o.read_timeout);
            proof {
                assert(strs(args@) =~= base + a9);
            }
            push_u64_flag(&mut args, "--retries", o.retries);
            let ghost a10 = a9 + u64_flag("--retries"@, o.retries);
            proof {
                assert(strs(args@) =~= base + a10);
            }
            push_str_flag(&mut args, "--sha256", &o.sha256);
            let ghost a11 = a10 + str_flag("--sha256"@, o.sha256);
            proof {
                assert(strs(args@) =~= base + a11);
                assert(a11 == option_args(*o));
            }
        },
        None => {},
    }
    args
}

/// The arguments of the engine's torrent-inspection mode.
pub fn inspect_args(source: &str) -> (r: Vec<String>)
    ensures
        strs(r@) == seq!["--inspect"@, "--source"@, source@],
{
    let mut args: Vec<String> = Vec::new();
    push_str(&mut args, "--inspect");
    push_str(&mut args, "--source");
    push_str(&mut args, source);
    proof {
        assert(strs(args@) =~= seq!["--inspect"@, "--source"@, source@]);
    }
    args
}

/// The arguments of the engine's HTTP-probe mode.
pub fn http_info_args(source: &str) -> (r: Vec<String>)
    ensures
        strs(r@) == seq!["--http-info"@, "--source"@, source@],
{
    let mut args: Vec<String> = Vec::new();
    push_str(&mut args, "--http-info");
    push_str(&mut args, "--source");
    push_str(&mut args, source);
    proof {
        assert(strs(args@) =~= seq!["--http-info"@, "--source"@, source@]);
    }
    args
}

/// The arguments of the speed-test engine.
pub fn speed_test_args() -> (r: Vec<String>)
    ensures
        strs(r@) == seq!["--json"@, "--quiet"@],
{
    let mut args: Vec<String> = Vec::new();
    push_str(&mut args, "--json");
    push_str(&mut args, "--quiet");
    proof {
        assert(strs(args@) =~= seq!["--json"@, "--quiet"@]);
    }
    args
}

} // verus!

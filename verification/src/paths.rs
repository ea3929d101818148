//! Path rules: home expansion, the temporary-directory naming scheme
//! of the engine, chunk-file detection, and the fixed search order for
//! the bundled binaries. Probing the file system is the host's step.

use vstd::prelude::*;
use crate::strutil::{starts_with, ends_with, has_sub, str_starts_with, str_ends_with, str_contains};

verus! {

/// The prefix of the engine's per-download temporary directories.
pub open spec fn temp_dir_prefix() -> Seq<char> {
    ".accelara-temp-"@
}

/// `~` alone becomes the home directory; a leading `~/` is replaced by
/// it; anything else is left as it stands.
pub open spec fn spec_expand_home(path: Seq<char>, home: Seq<char>) -> Seq<char> {
    if path == "~"@ {
        home
    } else if starts_with(path, "~/"@) {
        home + path.skip(1)
    } else {
        path
    }
}

/// Expands a leading `~` to the home directory.
pub fn expand_home(path: &str, home: &str) -> (r: String)
    ensures
        r@ == spec_expand_home(path@, home@),
{
    if crate::strutil::str_eq(path, "~") {
        return home.to_owned();
    }
    if str_starts_with(path, "~/") {
        proof {
            reveal_strlit("~/");
        }
        let mut s = home.to_owned();
        let len = path.unicode_len();
        let rest = path.substring_char(1, len);
        s.append(rest);
        proof {
            assert(rest@ =~= path@.skip(1));
        }
        s
    } else {
        path.to_owned()
    }
}

/// The temporary working directory the engine keeps beside an output
/// file of the given name.
pub fn temp_dir_name(file_name: &str) -> (r: String)
    ensures
        r@ == temp_dir_prefix() + file_name@,
{
    let mut s = ".accelara-temp-".to_owned();
    s.append(file_name);
    s
}

/// Whether a directory entry is one of the engine's temporary
/// directories: the pattern `remove` and the junk scans match on.
pub fn is_temp_dir_name(name: &str) -> (r: bool)
    ensures
        r == starts_with(name@, temp_dir_prefix()),
{
    str_starts_with(name, ".accelara-temp-")
}

/// Whether a file inside a temporary directory is an unmerged chunk.
pub fn is_chunk_file_name(name: &str) -> (r: bool)
    ensures
        r == has_sub(name@, ".part."@),
{
    str_contains(name, ".part.")
}

/// Strips a trailing `.part` left by the torrent engine, if present.
pub fn strip_part_suffix(name: &str) -> (r: Option<String>)
    ensures
        match r {
            Some(s) => ends_with(name@, ".part"@) && s@ == name@.take(name@.len() - 5),
            None => !ends_with(name@, ".part"@),
        },
{
    if str_ends_with(name, ".part") {
        proof {
            reveal_strlit(".part");
        }
        let len = name.unicode_len();
        let kept = name.substring_char(0, len - 5);
        proof {
            assert(kept@ =~= name@.take(name@.len() - 5));
        }
        Some(kept.to_owned())
    } else {
        None
    }
}

/// The log file's path under a home directory.
pub fn log_path_for_home(home: &str) -> (r: String)
    ensures
        r@ == home@ + "/.accelara/accelara.log"@,
{
    let mut s = home.to_owned();
    s.append("/.accelara/accelara.log");
    s
}

/// The candidate paths for a bundled binary, in the fixed search
/// order: the bundled resource locations first, then each project
/// directory's `bin`. Looking on `PATH` comes after these and is the
/// host's step.
pub open spec fn spec_candidates(
    resources_dir: Option<Seq<char>>,
    project_dirs: Seq<Seq<char>>,
    name: Seq<char>,
) -> Seq<Seq<char>> {
    let bundled = match resources_dir {
        Some(res) => seq![res + "/bin/"@ + name, res + "/_up_/bin/"@ + name],
        None => Seq::empty(),
    };
    bundled + project_dirs.map_values(|d: Seq<char>| d + "/bin/"@ + name)
}

/// Builds the candidate paths for a binary in the fixed search order.
pub fn binary_candidates(
    resources_dir: &Option<String>,
    project_dirs: &Vec<String>,
    name: &str,
) -> (r: Vec<String>)
    ensures
        r@.map_values(|s: String| s@) == spec_candidates(
            match resources_dir {
                Some(res) => Some(res@),
                None => None,
            },
            project_dirs@.map_values(|d: String| d@),
            name@,
        ),
{
    let ghost dirs = project_dirs@.map_values(|d: String| d@);
    let mut out: Vec<String> = Vec::new();
    let ghost bundled: Seq<Seq<char>> = match resources_dir {
        Some(res) => seq![res@ + "/bin/"@ + name@, res@ + "/_up_/bin/"@ + name@],
        None => Seq::empty(),
    };
    match resources_dir {
        Some(res) => {
            let mut a = res.clone();
            a.append("/bin/");
            a.append(name);
            out.push(a);
            let mut b = res.clone();
            b.append("/_up_/bin/");
            b.append(name);
            out.push(b);
            proof {
                assert(out@.map_values(|s: String| s@) =~= bundled);
            }
        },
        None => {
            proof {
                assert(out@.map_values(|s: String| s@) =~= bundled);
            }
        },
    }
    let n = project_dirs.len();
    let mut i: usize = 0;
    proof {
        assert(bundled + dirs.map_values(|d: Seq<char>| d + "/bin/"@ + name@).take(0) =~= bundled);
    }
    while i < n
        invariant
            i <= n,
            n == project_dirs@.len(),
            dirs == project_dirs@.map_values(|d: String| d@),
            out@.map_values(|s: String| s@) == bundled + dirs.map_values(
                |d: Seq<char>| d + "/bin/"@ + name@,
            ).take(i as int),
        decreases n - i,
    {
        let ghost before = out@.map_values(|s: String| s@);
        let mut p = project_dirs[i].clone();
        p.append("/bin/");
        p.append(name);
        out.push(p);
        proof {
            let mapped = dirs.map_values(|d: Seq<char>| d + "/bin/"@ + name@);
            assert(out@.map_values(|s: String| s@) =~= before.push(dirs[i as int] + "/bin/"@
                + name@));
            assert(bundled + mapped.take(i + 1) =~= (bundled + mapped.take(i as int)).push(
                mapped[i as int],
            ));
        }
        i += 1;
    }
    proof {
        let mapped = dirs.map_values(|d: Seq<char>| d + "/bin/"@ + name@);
        assert(mapped.take(n as int) =~= mapped);
    }
    out
}

/// Classifies a located binary from what the host observed about it:
/// absent, not a plain executable file, or usable.
pub fn classify_binary(exists: bool, is_file: bool, executable: bool) -> (r: Result<
    (),
    crate::errors::DownloadError,
>)
    ensures
        !exists ==> (r matches Err(e) && e is BinaryNotFound),
        exists && (!is_file || !executable) ==> (r matches Err(e) && e is BinaryNotExecutable),
        exists && is_file && executable ==> r is Ok,
{
    if !exists {
        Err(crate::errors::DownloadError::BinaryNotFound)
    } else if !is_file || !executable {
        Err(crate::errors::DownloadError::BinaryNotExecutable)
    } else {
        Ok(())
    }
}

} // verus!

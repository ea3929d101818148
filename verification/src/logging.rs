//! Log-line formatting. Writing the line to its file is the host's
//! step; what the line says is fixed here.

use vstd::prelude::*;

verus! {

pub open spec fn tagged_line(tag: Seq<char>, context: Seq<char>, text: Seq<char>) -> Seq<char> {
    tag + context + ": "@ + text
}

fn format_tagged(tag: &str, context: &str, text: &str) -> (r: String)
    ensures
        r@ == tagged_line(tag@, context@, text@),
{
    let mut s = tag.to_owned();
    s.append(context);
    s.append(": ");
    s.append(text);
    s
}

/// The log line for an error, `[ERROR] context: error`.
pub fn log_error(context: &str, error: &str) -> (r: String)
    ensures
        r@ == tagged_line("[ERROR] "@, context@, error@),
{
    format_tagged("[ERROR] ", context, error)
}

/// The log line for a warning, `[WARN] context: warning`.
pub fn log_warning(context: &str, warning: &str) -> (r: String)
    ensures
        r@ == tagged_line("[WARN] "@, context@, warning@),
{
    format_tagged("[WARN] ", context, warning)
}

/// The log line for information, `[INFO] context: info`.
pub fn log_info(context: &str, info: &str) -> (r: String)
    ensures
        r@ == tagged_line("[INFO] "@, context@, info@),
{
    format_tagged("[INFO] ", context, info)
}

/// The last `n` lines of a log, in order; all of them when there are
/// no more than `n`.
pub fn tail_lines(lines: &Vec<String>, n: usize) -> (r: Vec<String>)
    ensures
        r@.map_values(|s: String| s@) == lines@.map_values(|s: String| s@).subrange(
            if lines@.len() > n {
                lines@.len() - n
            } else {
                0
            },
            lines@.len() as int,
        ),
{
    let len = lines.len();
    let start = if len > n {
        len - n
    } else {
        0
    };
    let mut out: Vec<String> = Vec::new();
    proof {
        assert(out@.map_values(|s: String| s@) =~= lines@.map_values(|s: String| s@).subrange(
            start as int,
            start as int,
        ));
    }
    let mut i: usize = start;
    while i < len
        invariant
            start <= i <= len,
            len == lines@.len(),
            out@.map_values(|s: String| s@) == lines@.map_values(|s: String| s@).subrange(
                start as int,
                i as int,
            ),
        decreases len - i,
    {
        let ghost before = out@.map_values(|s: String| s@);
        out.push(lines[i].clone());
        proof {
            assert(out@.map_values(|s: String| s@) =~= before.push(lines@[i as int]@));
            assert(lines@.map_values(|s: String| s@).subrange(start as int, i + 1) =~= before.push(
                lines@.map_values(|s: String| s@)[i as int],
            ));
        }
        i += 1;
    }
    out
}

} // verus!

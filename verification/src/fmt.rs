//! Human-readable byte counts: `1536` becomes `1.50 KB`. Rounding is
//! to the nearest hundredth with halves rounded up, a deliberate exact
//! integer rule: a tie such as 1152 bytes renders `1.13 KB`, where a
//! float formatter rounding ties to even would print `1.12 KB`. The
//! scale is capped at terabytes.

use vstd::prelude::*;
use crate::strutil::{dec_str, dec_digit, u64_to_string, push_char};

verus! {

pub open spec fn pow1024(i: int) -> nat
    decreases i,
{
    if i <= 0 {
        1
    } else {
        pow1024(i - 1) * 1024
    }
}

/// The scale a byte count is shown in: the largest power of 1024 not
/// above it, capped at terabytes.
pub open spec fn byte_tier(b: nat) -> int {
    if b >= pow1024(4) {
        4
    } else if b >= pow1024(3) {
        3
    } else if b >= pow1024(2) {
        2
    } else if b >= pow1024(1) {
        1
    } else {
        0
    }
}

pub open spec fn tier_unit(i: int) -> Seq<char> {
    if i == 0 {
        " B"@
    } else if i == 1 {
        " KB"@
    } else if i == 2 {
        " MB"@
    } else if i == 3 {
        " GB"@
    } else {
        " TB"@
    }
}

/// The count scaled to its tier, in hundredths, rounded half up.
pub open spec fn scaled_hundredths(b: nat) -> nat {
    let base = pow1024(byte_tier(b));
    (b / base) * 100 + ((b % base) * 100 + base / 2) / base
}

/// The full rendering: value with two decimals, a space, the unit.
pub open spec fn spec_format_bytes(b: nat) -> Seq<char> {
    if b == 0 {
        "0 B"@
    } else {
        let h = scaled_hundredths(b);
        dec_str(h / 100).push('.').push(dec_digit((h % 100) as int / 10)).push(
            dec_digit((h % 100) as int % 10),
        ) + tier_unit(byte_tier(b))
    }
}

/// Renders a byte count for display.
pub fn format_bytes(bytes: u64) -> (r: String)
    ensures
        r@ == spec_format_bytes(bytes as nat),
{
    if bytes == 0 {
        return "0 B".to_owned();
    }
    let base: u64 = if bytes >= 1099511627776 {
        1099511627776
    } else if bytes >= 1073741824 {
        1073741824
    } else if bytes >= 1048576 {
        1048576
    } else if bytes >= 1024 {
        1024
    } else {
        1
    };
    let unit: &str = if bytes >= 1099511627776 {
        " TB"
    } else if bytes >= 1073741824 {
        " GB"
    } else if bytes >= 1048576 {
        " MB"
    } else if bytes >= 1024 {
        " KB"
    } else {
        " B"
    };
    proof {
        reveal_with_fuel(pow1024, 6);
        assert(pow1024(0) == 1);
        assert(pow1024(1) == 1024);
        assert(pow1024(2) == 1048576);
        assert(pow1024(3) == 1073741824);
        assert(pow1024(4) == 1099511627776);
        assert(base == pow1024(byte_tier(bytes as nat)));
        assert(unit@ == tier_unit(byte_tier(bytes as nat)));
    }
    let whole = bytes / base;
    let rem = bytes % base;
    let frac_round = (rem * 100 + base / 2) / base;
    let h = whole * 100 + frac_round;
    proof {
        assert(h == scaled_hundredths(bytes as nat));
    }
    let mut s = u64_to_string(h / 100);
    push_char(&mut s, '.');
    let frac = h % 100;
    push_char(&mut s, crate::strutil::digit_char(frac / 10));
    push_char(&mut s, crate::strutil::digit_char(frac % 10));
    s.append(unit);
    s
}

} // verus!

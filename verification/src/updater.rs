//! Release checking: dotted version numbers, their order, and the
//! verdict on a fetched release. The HTTP fetch lives with the host;
//! every decision about what it fetched is made here.

use vstd::prelude::*;
use core::cmp::Ordering;
use crate::strutil::{is_dec_digit, dec_val};

verus! {

/// A release as the host hands it over after fetching.
pub struct ReleaseInfo {
    pub tag_name: String,
    pub name: String,
    pub body: String,
    pub published_at: String,
    pub html_url: String,
    pub assets: Vec<ReleaseAsset>,
}

pub struct ReleaseAsset {
    pub name: String,
    pub browser_download_url: String,
    pub size: u64,
    pub content_type: String,
}

pub struct UpdateCheckResult {
    pub has_update: bool,
    pub current_version: String,
    pub latest_version: String,
    pub release_info: Option<ReleaseInfo>,
    pub error: Option<String>,
}

/// The digits of a component read as a number (junk digits allowed;
/// `comp_val` guards them).
pub open spec fn component_value(s: Seq<char>) -> nat
    decreases s.len(),
{
    if s.len() == 0 {
        0
    } else {
        component_value(s.drop_last()) * 10 + (
        if 0 <= dec_val(s.last()) < 10 {
            dec_val(s.last()) as nat
        } else {
            0
        })
    }
}

pub open spec fn component_is_numeric(s: Seq<char>) -> bool {
    forall|i: int| 0 <= i < s.len() ==> is_dec_digit(#[trigger] s[i])
}

/// What one dot-separated component counts for: its digits as a
/// number, or zero when it is not a plain `u32` numeral.
pub open spec fn comp_val(s: Seq<char>) -> nat {
    if component_is_numeric(s) && component_value(s) <= u32::MAX {
        component_value(s)
    } else {
        0
    }
}

/// The components of a version string, split on `'.'`.
pub open spec fn version_parts(s: Seq<char>) -> Seq<Seq<char>>
    decreases s.len(),
{
    if s.len() == 0 {
        seq![Seq::<char>::empty()]
    } else if s.last() == '.' {
        version_parts(s.drop_last()).push(Seq::empty())
    } else {
        let parts = version_parts(s.drop_last());
        parts.update(parts.len() - 1, parts.last().push(s.last()))
    }
}

pub open spec fn parts_vals(s: Seq<char>) -> Seq<nat> {
    version_parts(s).map_values(|p: Seq<char>| comp_val(p))
}

pub open spec fn val_or_zero(v: Seq<nat>, i: int) -> nat {
    if 0 <= i < v.len() {
        v[i]
    } else {
        0
    }
}

/// Lexicographic comparison of component values, the shorter side
/// padded with zeros.
pub open spec fn lex_cmp(a: Seq<nat>, b: Seq<nat>, i: int) -> Ordering
    decreases vstd::math::max(a.len() as int, b.len() as int) - i,
{
    if i >= a.len() && i >= b.len() {
        Ordering::Equal
    } else if val_or_zero(a, i) < val_or_zero(b, i) {
        Ordering::Less
    } else if val_or_zero(a, i) > val_or_zero(b, i) {
        Ordering::Greater
    } else if i < 0 {
        Ordering::Equal
    } else {
        lex_cmp(a, b, i + 1)
    }
}

/// The order of two version strings.
pub open spec fn version_cmp(a: Seq<char>, b: Seq<char>) -> Ordering {
    lex_cmp(parts_vals(a), parts_vals(b), 0)
}

/// A version string with its leading `'v'` letters removed.
pub open spec fn strip_v(s: Seq<char>) -> Seq<char>
    decreases s.len(),
{
    if s.len() > 0 && s[0] == 'v' {
        strip_v(s.subrange(1, s.len() as int))
    } else {
        s
    }
}

/// Splits a version string into the `u32` values of its components;
/// a component that is not a plain numeral counts as zero.
fn split_version_values(s: &str) -> (r: Vec<u32>)
    ensures
        r@.map_values(|x: u32| x as nat) == parts_vals(s@),
{
    let len = s.unicode_len();
    let mut vals: Vec<u32> = Vec::new();
    let mut acc: u64 = 0;
    let mut numeric: bool = true;
    let mut big: bool = false;
    let ghost mut cur: Seq<char> = Seq::empty();
    proof {
        assert(s@.subrange(0, 0) =~= Seq::<char>::empty());
        assert(version_parts(Seq::<char>::empty()) == seq![Seq::<char>::empty()]);
        assert(vals@.map_values(|x: u32| x as nat) =~= version_parts(s@.subrange(0, 0)).drop_last()
            .map_values(|p: Seq<char>| comp_val(p)));
    }
    let mut i: usize = 0;
    while i < len
        invariant
            i <= len,
            len == s@.len(),
            version_parts(s@.subrange(0, i as int)).len() >= 1,
            cur == version_parts(s@.subrange(0, i as int)).last(),
            vals@.map_values(|x: u32| x as nat) == version_parts(s@.subrange(0, i as int))
                .drop_last().map_values(|p: Seq<char>| comp_val(p)),
            numeric == component_is_numeric(cur),
            numeric && !big ==> acc == component_value(cur) && acc <= u32::MAX,
            numeric && big ==> component_value(cur) > u32::MAX,
        decreases len - i,
    {
        let c = s.get_char(i);
        let ghost pre = s@.subrange(0, i as int);
        let ghost parts = version_parts(pre);
        proof {
            assert(s@.subrange(0, i + 1).drop_last() =~= pre);
            assert(s@.subrange(0, i + 1).last() == c);
        }
        if c == '.' {
            let v: u32 = if numeric && !big {
                acc as u32
            } else {
                0
            };
            proof {
                assert(v as nat == comp_val(cur));
            }
            let ghost before = vals@.map_values(|x: u32| x as nat);
            vals.push(v);
            proof {
                assert(vals@.map_values(|x: u32| x as nat) =~= before.push(v as nat));
                let parts2 = version_parts(s@.subrange(0, i + 1));
                assert(parts2 == parts.push(Seq::<char>::empty()));
                assert(parts2.drop_last() =~= parts);
                assert(parts.drop_last().map_values(|p: Seq<char>| comp_val(p)).push(
                    comp_val(cur),
                ) =~= parts.map_values(|p: Seq<char>| comp_val(p)));
            }
            acc = 0;
            numeric = true;
            big = false;
            proof {
                cur = Seq::empty();
                assert(component_is_numeric(cur));
                assert(component_value(cur) == 0);
            }
        } else {
            let ghost parts2 = version_parts(s@.subrange(0, i + 1));
            proof {
                assert(parts2 == parts.update(parts.len() - 1, parts.last().push(c)));
                assert(parts2.drop_last() =~= parts.drop_last());
                assert(parts2.last() == cur.push(c));
                assert(cur.push(c).drop_last() =~= cur);
            }
            let is_digit = '0' <= c && c <= '9';
            if is_digit {
                let d = (c as u32) - 48;
                proof {
                    assert(d == dec_val(c));
                    assert(component_is_numeric(cur.push(c)) == component_is_numeric(cur)) by {
                        if component_is_numeric(cur) {
                            assert forall|k: int|
                                0 <= k < cur.push(c).len() implies is_dec_digit(
                                #[trigger] cur.push(c)[k]) by {
                                if k < cur.len() {
                                    assert(cur.push(c)[k] == cur[k]);
                                }
                            }
                        } else {
                            let k = choose|k: int|
                                0 <= k < cur.len() && !is_dec_digit(cur[k]);
                            assert(!is_dec_digit(cur.push(c)[k]));
                        }
                    }
                }
                if numeric {
                    if big {
                        proof {
                            assert(component_value(cur.push(c)) > u32::MAX);
                        }
                    } else {
                        let next = acc * 10 + (d as u64);
                        proof {
                            assert(next == component_value(cur.push(c)));
                        }
                        if next > u32::MAX as u64 {
                            big = true;
                        } else {
                            acc = next;
                        }
                    }
                }
            } else {
                proof {
                    assert(!is_dec_digit(cur.push(c)[cur.len() as int]));
                    assert(!component_is_numeric(cur.push(c)));
                }
                numeric = false;
            }
            proof {
                cur = cur.push(c);
            }
        }
        i += 1;
    }
    proof {
        assert(s@.subrange(0, len as int) =~= s@);
    }
    let v: u32 = if numeric && !big {
        acc as u32
    } else {
        0
    };
    proof {
        assert(v as nat == comp_val(cur));
    }
    let ghost before = vals@.map_values(|x: u32| x as nat);
    vals.push(v);
    proof {
        let parts = version_parts(s@);
        assert(vals@.map_values(|x: u32| x as nat) =~= before.push(v as nat));
        assert(parts.drop_last().map_values(|p: Seq<char>| comp_val(p)).push(comp_val(cur)) =~= parts
            .map_values(|p: Seq<char>| comp_val(p)));
    }
    vals
}

/// Compares two dotted version strings component by component, the
/// shorter one padded with zeros.
pub fn compare_versions(v1: &str, v2: &str) -> (r: Ordering)
    ensures
        r == version_cmp(v1@, v2@),
{
    let a = split_version_values(v1);
    let b = split_version_values(v2);
    let ghost av = parts_vals(v1@);
    let ghost bv = parts_vals(v2@);
    let alen = a.len();
    let blen = b.len();
    proof {
        assert(av.len() == a@.len());
        assert(bv.len() == b@.len());
    }
    let max = if alen > blen {
        alen
    } else {
        blen
    };
    let mut i: usize = 0;
    while i < max
        invariant
            i <= max,
            alen == a@.len(),
            blen == b@.len(),
            max == vstd::math::max(alen as int, blen as int),
            av == parts_vals(v1@),
            bv == parts_vals(v2@),
            av.len() == alen,
            bv.len() == blen,
            forall|k: int| 0 <= k < alen ==> av[k] == a@[k] as nat,
            forall|k: int| 0 <= k < blen ==> bv[k] == b@[k] as nat,
            lex_cmp(av, bv, 0) == lex_cmp(av, bv, i as int),
        decreases max - i,
    {
        let x: u32 = if i < alen {
            a[i]
        } else {
            0
        };
        let y: u32 = if i < blen {
            b[i]
        } else {
            0
        };
        proof {
            assert(x as nat == val_or_zero(av, i as int));
            assert(y as nat == val_or_zero(bv, i as int));
        }
        if x < y {
            proof {
                assert(lex_cmp(av, bv, i as int) == Ordering::Less);
            }
            return Ordering::Less;
        }
        if x > y {
            proof {
                assert(lex_cmp(av, bv, i as int) == Ordering::Greater);
            }
            return Ordering::Greater;
        }
        proof {
            assert(lex_cmp(av, bv, i as int) == lex_cmp(av, bv, i + 1));
        }
        i += 1;
    }
    proof {
        assert(lex_cmp(av, bv, max as int) == Ordering::Equal);
    }
    Ordering::Equal
}

/// The version string with its leading `'v'` letters removed.
pub fn strip_v_prefix(s: &str) -> (r: String)
    ensures
        r@ == strip_v(s@),
{
    let len = s.unicode_len();
    proof {
        assert(s@.subrange(0, len as int) =~= s@);
    }
    let mut i: usize = 0;
    while i < len && s.get_char(i) == 'v'
        invariant
            i <= len,
            len == s@.len(),
            strip_v(s@) == strip_v(s@.subrange(i as int, len as int)),
        decreases len - i,
    {
        proof {
            let t = s@.subrange(i as int, len as int);
            assert(t[0] == 'v');
            assert(t.subrange(1, t.len() as int) =~= s@.subrange(i + 1, len as int));
        }
        i += 1;
    }
    proof {
        let t = s@.subrange(i as int, len as int);
        if t.len() > 0 {
            assert(t[0] != 'v');
        }
        assert(strip_v(t) == t);
    }
    s.substring_char(i, len).to_owned()
}

/// Whether the fetched release is newer than the running build, with
/// leading `'v'` letters ignored on both sides.
pub fn has_newer_version(current: &str, tag: &str) -> (r: bool)
    ensures
        r == (version_cmp(strip_v(current@), strip_v(tag@)) == Ordering::Less),
{
    let c = strip_v_prefix(current);
    let t = strip_v_prefix(tag);
    let ord = compare_versions(c.as_str(), t.as_str());
    matches!(ord, Ordering::Less)
}

/// The verdict on a successfully fetched release.
pub fn evaluate_release(current_version: String, release: ReleaseInfo) -> (r: UpdateCheckResult)
    ensures
        r.has_update == (version_cmp(strip_v(current_version@), strip_v(release.tag_name@))
            == Ordering::Less),
        r.current_version == current_version,
        r.latest_version@ == release.tag_name@,
        r.release_info is Some,
        r.error is None,
{
    let has_update = has_newer_version(current_version.as_str(), release.tag_name.as_str());
    let latest = release.tag_name.clone();
    UpdateCheckResult {
        has_update,
        current_version,
        latest_version: latest,
        release_info: Some(release),
        error: None,
    }
}

/// The result reported when the check itself failed: no update, the
/// current version standing in for the latest, and the error kept.
pub fn failed_check(current_version: String, error: String) -> (r: UpdateCheckResult)
    ensures
        !r.has_update,
        r.current_version@ == current_version@,
        r.latest_version@ == current_version@,
        r.release_info is None,
        r.error matches Some(e) && e@ == error@,
{
    let latest = current_version.clone();
    UpdateCheckResult {
        has_update: false,
        current_version,
        latest_version: latest,
        release_info: None,
        error: Some(error),
    }
}

} // verus!

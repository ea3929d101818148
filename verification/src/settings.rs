//! Settings: fixed defaults, the stored overrides, and reading values
//! back. Values are stored in the canonical codec form, so whatever is
//! written through `save_settings` is read back as the same structured
//! value.

use vstd::prelude::*;
use crate::scalar::{
    Scalar, SVal, sval_wf, encode_sval, encode_scalar, parse_scalar, lemma_encode_injective,
};
use crate::store::{Gateway, gateway_wf};

verus! {

/// The built-in defaults, with the host's download directory filled
/// in.
pub open spec fn spec_default_settings(download_path: Seq<char>) -> Seq<(Seq<char>, SVal)> {
    seq![
        ("concurrency"@, SVal::Num { neg: false, units: 8, cents: 0 }),
        ("chunkSize"@, SVal::Str("4MB"@)),
        ("rateLimit"@, SVal::Null),
        ("uploadLimit"@, SVal::Null),
        ("sequentialMode"@, SVal::Bool(false)),
        ("keepSeeding"@, SVal::Bool(false)),
        ("theme"@, SVal::Str("system"@)),
        ("connectTimeout"@, SVal::Num { neg: false, units: 15, cents: 0 }),
        ("readTimeout"@, SVal::Num { neg: false, units: 60, cents: 0 }),
        ("retries"@, SVal::Num { neg: false, units: 5, cents: 0 }),
        ("torrentPort"@, SVal::Num { neg: false, units: 42069, cents: 0 }),
        ("defaultDownloadPath"@, SVal::Str(download_path)),
    ]
}

/// The defaults as values.
pub fn default_settings(download_path: &str) -> (r: Vec<(String, Scalar)>)
    ensures
        r@.map_values(|e: (String, Scalar)| (e.0@, e.1.view_s())) == spec_default_settings(
            download_path@,
        ),
{
    let mut out: Vec<(String, Scalar)> = Vec::new();
    out.push(("concurrency".to_owned(), Scalar::Num { neg: false, units: 8, cents: 0 }));
    out.push(("chunkSize".to_owned(), Scalar::Str("4MB".to_owned())));
    out.push(("rateLimit".to_owned(), Scalar::Null));
    out.push(("uploadLimit".to_owned(), Scalar::Null));
    out.push(("sequentialMode".to_owned(), Scalar::Bool(false)));
    out.push(("keepSeeding".to_owned(), Scalar::Bool(false)));
    out.push(("theme".to_owned(), Scalar::Str("system".to_owned())));
    out.push(("connectTimeout".to_owned(), Scalar::Num { neg: false, units: 15, cents: 0 }));
    out.push(("readTimeout".to_owned(), Scalar::Num { neg: false, units: 60, cents: 0 }));
    out.push(("retries".to_owned(), Scalar::Num { neg: false, units: 5, cents: 0 }));
    out.push(("torrentPort".to_owned(), Scalar::Num { neg: false, units: 42069, cents: 0 }));
    out.push(("defaultDownloadPath".to_owned(), Scalar::Str(download_path.to_owned())));
    proof {
        assert(out@.map_values(|e: (String, Scalar)| (e.0@, e.1.view_s()))
            =~= spec_default_settings(download_path@));
    }
    out
}

/// Writes each given setting in its canonical form. Keys must be
/// distinct, as they are in a settings object.
pub fn save_settings(gw: &mut Gateway, entries: &Vec<(String, Scalar)>)
    requires
        gateway_wf(*old(gw)),
        forall|i: int| 0 <= i < entries@.len() ==> (#[trigger] entries@[i].1).wf(),
        forall|i: int, j: int|
            0 <= i < j < entries@.len() ==> entries@[i].0@ != entries@[j].0@,
    ensures
        gateway_wf(*final(gw)),
        final(gw).jobs == old(gw).jobs,
        final(gw).history == old(gw).history,
        forall|i: int|
            0 <= i < entries@.len() ==> final(gw).settings.spec_contains(
                (#[trigger] entries@[i]).0@,
            ) && final(gw).settings.value_of(entries@[i].0@)@ == encode_sval(
                entries@[i].1.view_s(),
            ),
        forall|key: Seq<char>|
            (forall|i: int| 0 <= i < entries@.len() ==> (#[trigger] entries@[i]).0@ != key)
                ==> final(gw).settings.spec_contains(key) == old(gw).settings.spec_contains(key)
                && (old(gw).settings.spec_contains(key) ==> final(gw).settings.value_of(key)
                == old(gw).settings.value_of(key)),
{
    let n = entries.len();
    let mut i: usize = 0;
    while i < n
        invariant
            i <= n,
            n == entries@.len(),
            gateway_wf(*gw),
            gw.jobs == old(gw).jobs,
            gw.history == old(gw).history,
            forall|k: int| 0 <= k < entries@.len() ==> (#[trigger] entries@[k].1).wf(),
            forall|k: int, j: int|
                0 <= k < j < entries@.len() ==> entries@[k].0@ != entries@[j].0@,
            forall|k: int|
                0 <= k < i ==> gw.settings.spec_contains((#[trigger] entries@[k]).0@)
                    && gw.settings.value_of(entries@[k].0@)@ == encode_sval(
                    entries@[k].1.view_s(),
                ),
            forall|key: Seq<char>|
                (forall|k: int| 0 <= k < i ==> (#[trigger] entries@[k]).0@ != key)
                    ==> gw.settings.spec_contains(key) == old(gw).settings.spec_contains(key) && (
                old(gw).settings.spec_contains(key) ==> gw.settings.value_of(key) == old(
                    gw,
                ).settings.value_of(key)),
        decreases n - i,
    {
        let e = &entries[i];
        let encoded = encode_scalar(&e.1);
        gw.set_setting(e.0.as_str(), encoded);
        proof {
            assert forall|k: int|
                0 <= k < i + 1 implies gw.settings.spec_contains((#[trigger] entries@[k]).0@)
                && gw.settings.value_of(entries@[k].0@)@ == encode_sval(
                entries@[k].1.view_s(),
            ) by {
                if k < i {
                    assert(entries@[k].0@ != entries@[i as int].0@);
                }
            }
        }
        i += 1;
    }
}

/// Reads one setting back as a structured value. A row written by
/// `save_settings` comes back as exactly the value that was written;
/// a row in any other form comes back whole, as a string.
pub fn get_setting_value(gw: &Gateway, key: &str) -> (r: Option<Scalar>)
    requires
        gateway_wf(*gw),
    ensures
        r is None <==> !gw.settings.spec_contains(key@),
        forall|w: SVal|
            sval_wf(w) && gw.settings.spec_contains(key@) && gw.settings.value_of(key@)@
                == #[trigger] encode_sval(w) ==> (r matches Some(v) && v.view_s() == w),
        r matches Some(v) ==> ((v.wf() && encode_sval(v.view_s()) == gw.settings.value_of(key@)@)
            || v.view_s() == SVal::Str(gw.settings.value_of(key@)@)),
{
    match gw.get_setting(key) {
        Some(raw) => {
            match parse_scalar(raw.as_str()) {
                Some(v) => {
                    proof {
                        assert forall|w: SVal|
                            sval_wf(w) && gw.settings.value_of(key@)@ == encode_sval(w) implies (
                        v.view_s() == w) by {
                            lemma_encode_injective(v.view_s(), w);
                        }
                    }
                    Some(v)
                },
                None => {
                    let fallback = Scalar::Str(raw.clone());
                    proof {
                        assert forall|w: SVal|
                            sval_wf(w) && gw.settings.value_of(key@)@ == encode_sval(w) implies
                        false by {
                        }
                    }
                    Some(fallback)
                },
            }
        },
        None => None,
    }
}

/// The value a key effectively has: the stored override, or the given
/// default. A stored row in any non-canonical form comes back whole,
/// as a string, exactly as `get_setting_value` hands it out.
pub fn effective_setting(gw: &Gateway, key: &str, default: &Scalar) -> (r: Scalar)
    requires
        gateway_wf(*gw),
    ensures
        !gw.settings.spec_contains(key@) ==> r == *default,
        forall|w: SVal|
            sval_wf(w) && gw.settings.spec_contains(key@) && gw.settings.value_of(key@)@
                == #[trigger] encode_sval(w) ==> r.view_s() == w,
        gw.settings.spec_contains(key@) ==> ((r.wf() && encode_sval(r.view_s())
            == gw.settings.value_of(key@)@) || r.view_s() == SVal::Str(
            gw.settings.value_of(key@)@,
        )),
{
    match get_setting_value(gw, key) {
        Some(v) => v,
        None => default.duplicate(),
    }
}

/// Whether the periodic update check is enabled: the stored flag, or
/// on by default.
pub fn auto_check_enabled(gw: &Gateway) -> (r: bool)
    requires
        gateway_wf(*gw),
    ensures
        !gw.settings.spec_contains("autoCheckForUpdates"@) ==> r,
        forall|b: bool|
            gw.settings.spec_contains("autoCheckForUpdates"@) && gw.settings.value_of(
                "autoCheckForUpdates"@,
            )@ == #[trigger] encode_sval(SVal::Bool(b)) ==> r == b,
{
    match get_setting_value(gw, "autoCheckForUpdates") {
        Some(Scalar::Bool(b)) => b,
        Some(_) => true,
        None => true,
    }
}

/// The update-check interval in hours: the stored whole number, or 24.
pub fn check_interval_hours(gw: &Gateway) -> (r: u64)
    requires
        gateway_wf(*gw),
    ensures
        !gw.settings.spec_contains("updateCheckInterval"@) ==> r == 24,
        forall|h: u64|
            gw.settings.spec_contains("updateCheckInterval"@) && gw.settings.value_of(
                "updateCheckInterval"@,
            )@ == #[trigger] encode_sval(SVal::Num { neg: false, units: h, cents: 0 }) ==> r == h,
{
    match get_setting_value(gw, "updateCheckInterval") {
        Some(Scalar::Num { neg: false, units, cents: 0 }) => units,
        Some(_) => 24,
        None => 24,
    }
}

/// The update-check interval in seconds, capped rather than wrapped.
pub fn check_interval_secs(hours: u64) -> (r: u64)
    ensures
        hours <= u64::MAX / 3600 ==> r == hours * 3600,
        hours > u64::MAX / 3600 ==> r == u64::MAX,
{
    if hours <= u64::MAX / 3600 {
        hours * 3600
    } else {
        u64::MAX
    }
}

} // verus!

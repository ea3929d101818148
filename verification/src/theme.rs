//! System-theme classification: turning what the host read from the
//! desktop environment into light or dark, and the poll loop's
//! emit-on-change rule.

use vstd::prelude::*;

verus! {

#[derive(PartialEq, Eq, Structural, Clone, Copy, Debug)]
pub enum Theme {
    Light,
    Dark,
}

/// The word `dark` at position `i` of `s`, without regard to ASCII
/// case.
pub open spec fn dark_at(s: Seq<char>, i: int) -> bool {
    &&& 0 <= i
    &&& i + 4 <= s.len()
    &&& (s[i] == 'd' || s[i] == 'D')
    &&& (s[i + 1] == 'a' || s[i + 1] == 'A')
    &&& (s[i + 2] == 'r' || s[i + 2] == 'R')
    &&& (s[i + 3] == 'k' || s[i + 3] == 'K')
}

/// Whether `dark` occurs anywhere in `s`, without regard to ASCII case.
pub open spec fn mentions_dark(s: Seq<char>) -> bool {
    exists|i: int| dark_at(s, i)
}

/// Whether `s` is exactly the word `dark`, without regard to ASCII
/// case.
pub open spec fn is_dark_word(s: Seq<char>) -> bool {
    s.len() == 4 && dark_at(s, 0)
}

fn contains_dark(s: &str) -> (r: bool)
    ensures
        r == mentions_dark(s@),
{
    let len = s.unicode_len();
    if len < 4 {
        assert(forall|i: int| !dark_at(s@, i));
        return false;
    }
    let mut i: usize = 0;
    while i <= len - 4
        invariant
            4 <= len == s@.len(),
            i <= len - 4 + 1,
            forall|k: int| 0 <= k < i ==> !dark_at(s@, k),
        decreases len - i,
    {
        let c0 = s.get_char(i);
        let c1 = s.get_char(i + 1);
        let c2 = s.get_char(i + 2);
        let c3 = s.get_char(i + 3);
        if (c0 == 'd' || c0 == 'D') && (c1 == 'a' || c1 == 'A') && (c2 == 'r' || c2 == 'R') && (c3
            == 'k' || c3 == 'K') {
            assert(dark_at(s@, i as int));
            return true;
        }
        i += 1;
    }
    assert(forall|k: int| !dark_at(s@, k));
    false
}

/// The theme read from a desktop `gtk-theme` answer: dark exactly when
/// the reply succeeded and its text mentions a dark theme.
pub fn theme_from_gtk_output(ok: bool, output: &str) -> (r: Theme)
    ensures
        r == (if ok && mentions_dark(output@) {
            Theme::Dark
        } else {
            Theme::Light
        }),
{
    if ok && contains_dark(output) {
        Theme::Dark
    } else {
        Theme::Light
    }
}

/// The theme read from the macOS interface-style answer: dark exactly
/// when the query succeeded and answered with the word `dark`. An
/// absent answer means the light style, which sets no value.
pub fn theme_from_interface_style(ok: bool, style: &str) -> (r: Theme)
    ensures
        r == (if ok && is_dark_word(style@) {
            Theme::Dark
        } else {
            Theme::Light
        }),
{
    if !ok {
        return Theme::Light;
    }
    if style.unicode_len() != 4 {
        return Theme::Light;
    }
    let c0 = style.get_char(0);
    let c1 = style.get_char(1);
    let c2 = style.get_char(2);
    let c3 = style.get_char(3);
    if (c0 == 'd' || c0 == 'D') && (c1 == 'a' || c1 == 'A') && (c2 == 'r' || c2 == 'R') && (c3
        == 'k' || c3 == 'K') {
        Theme::Dark
    } else {
        Theme::Light
    }
}

/// The theme read from the windows registry's light-theme flag: zero
/// means dark, any other reading (or none) means light.
pub fn theme_from_light_flag(flag: Option<u32>) -> (r: Theme)
    ensures
        r == (if flag matches Some(v) && v == 0 {
            Theme::Dark
        } else {
            Theme::Light
        }),
{
    match flag {
        Some(0) => Theme::Dark,
        _ => Theme::Light,
    }
}

/// The poll loop's rule: notify observers only when the theme changed.
pub fn should_emit_change(last: Theme, current: Theme) -> (r: bool)
    ensures
        r == (last != current),
{
    !matches!(
        (last, current),
        (Theme::Light, Theme::Light) | (Theme::Dark, Theme::Dark)
    )
}

impl Theme {
    /// The theme's name on the event bus.
    pub fn name(&self) -> (r: &'static str)
        ensures
            self is Dark ==> r@ == "dark"@,
            self is Light ==> r@ == "light"@,
    {
        match self {
            Theme::Dark => "dark",
            Theme::Light => "light",
        }
    }
}

} // verus!

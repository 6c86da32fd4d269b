//! The colour theme: a saved preference overrides the system preference.
use vstd::prelude::*;
use crate::text::str_equal;

verus! {

/// The value kept in storage for a theme: `"light"` or `"dark"`.
pub open spec fn theme_word(light: bool) -> Seq<char> {
    if light {
        seq!['l', 'i', 'g', 'h', 't']
    } else {
        seq!['d', 'a', 'r', 'k']
    }
}

/// Whether the page starts in light mode: a saved `"light"` or `"dark"` decides,
/// anything else (or nothing saved) falls back to the system preference.
pub open spec fn spec_resolve_light_mode(saved: Option<Seq<char>>, system_prefers_light: bool) -> bool {
    match saved {
        Some(w) => if w == theme_word(true) {
            true
        } else if w == theme_word(false) {
            false
        } else {
            system_prefers_light
        },
        None => system_prefers_light,
    }
}

/// Decides the initial theme from the saved preference and the system preference.
pub fn resolve_light_mode(saved_theme: Option<&str>, system_prefers_light: bool) -> (light: bool)
    ensures
        light == spec_resolve_light_mode(
            match saved_theme {
                Some(s) => Some(s@),
                None => None,
            },
            system_prefers_light,
        ),
{
    match saved_theme {
        Some(s) => {
            proof {
                reveal_strlit("light");
                reveal_strlit("dark");
            }
            if str_equal(s, "light") {
                assert("light"@ =~= theme_word(true));
                true
            } else if str_equal(s, "dark") {
                assert("dark"@ =~= theme_word(false));
                false
            } else {
                assert("light"@ =~= theme_word(true));
                assert("dark"@ =~= theme_word(false));
                system_prefers_light
            }
        },
        None => system_prefers_light,
    }
}

/// The storage value that records a theme choice.
pub fn theme_storage_value(light: bool) -> (s: &'static str)
    ensures
        s@ == theme_word(light),
{
    proof {
        reveal_strlit("light");
        reveal_strlit("dark");
    }
    if light {
        "light"
    } else {
        "dark"
    }
}

/// Saving a theme and reading it back gives the saved theme, whatever the system prefers.
pub proof fn law_saved_theme_round_trip(light: bool, system_prefers_light: bool)
    ensures
        spec_resolve_light_mode(Some(theme_word(light)), system_prefers_light) == light,
{
    assert(theme_word(true) != theme_word(false)) by {
        assert(theme_word(true).len() != theme_word(false).len());
    }
}

} // verus!

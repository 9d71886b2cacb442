//! The appearance of the interface, light or dark, and how it is stored.

use vstd::prelude::*;
use crate::text::{chars_eq, chars_of};

verus! {

/// An appearance of the interface.
#[derive(Clone, Copy, Debug, PartialEq, Eq, Structural)]
pub enum Theme {
    Light,
    Dark,
}

/// The stored name of a theme.
pub open spec fn theme_name(t: Theme) -> Seq<char> {
    match t {
        Theme::Light => "light"@,
        Theme::Dark => "dark"@,
    }
}

/// The theme a stored name stands for, if any.
pub open spec fn theme_of(value: Seq<char>) -> Option<Theme> {
    if value == "light"@ {
        Some(Theme::Light)
    } else if value == "dark"@ {
        Some(Theme::Dark)
    } else {
        None
    }
}

impl Theme {
    /// The name the theme is stored and applied under.
    pub fn as_str(self) -> (s: &'static str)
        ensures
            s@ == theme_name(self),
    {
        match self {
            Theme::Light => "light",
            Theme::Dark => "dark",
        }
    }

    /// The theme of a stored name; none for any other text.
    pub fn from_stored(value: &str) -> (t: Option<Theme>)
        ensures
            t == theme_of(value@),
    {
        let v = chars_of(value);
        if chars_eq(&v, &chars_of("light")) {
            Some(Theme::Light)
        } else if chars_eq(&v, &chars_of("dark")) {
            Some(Theme::Dark)
        } else {
            None
        }
    }
}

/// The theme that applies when none is stored: dark when the system
/// prefers a dark color scheme.
pub fn preferred_theme(prefers_dark: bool) -> (t: Theme)
    ensures
        t == (if prefers_dark { Theme::Dark } else { Theme::Light }),
{
    if prefers_dark {
        Theme::Dark
    } else {
        Theme::Light
    }
}

/// A stored theme is read back as the same theme.
pub proof fn law_theme_round_trip(t: Theme)
    ensures
        theme_of(theme_name(t)) == Some(t),
{
    reveal_strlit("light");
    reveal_strlit("dark");
    if t == Theme::Dark {
        assert(theme_name(t) != "light"@) by {
            assert(theme_name(t)[0] != "light"@[0]);
        }
    }
}

/// The themes are stored as `light` and `dark`, each read back as itself;
/// any other text is no theme.
pub proof fn law_themes_are_stored_by_name(other: Seq<char>)
    ensures
        theme_name(Theme::Light) == seq!['l', 'i', 'g', 'h', 't'],
        theme_name(Theme::Dark) == seq!['d', 'a', 'r', 'k'],
        theme_of(seq!['l', 'i', 'g', 'h', 't']) == Some(Theme::Light),
        theme_of(seq!['d', 'a', 'r', 'k']) == Some(Theme::Dark),
        other != seq!['l', 'i', 'g', 'h', 't'] && other != seq!['d', 'a', 'r', 'k'] ==> theme_of(other) is None,
{
    reveal_strlit("light");
    reveal_strlit("dark");
    assert("light"@ =~= seq!['l', 'i', 'g', 'h', 't']);
    assert("dark"@ =~= seq!['d', 'a', 'r', 'k']);
}

} // verus!

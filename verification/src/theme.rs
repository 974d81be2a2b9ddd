//! Theme choices: switching between light and dark, and restoring the saved theme.
use vstd::prelude::*;

verus! {

#[derive(Clone, Copy, PartialEq, Eq, Debug, Structural)]
pub enum ThemeMode {
    Light,
    Dark,
}

pub struct ThemeTransitionManager;

pub open spec fn default_theme() -> Seq<char> {
    "AgentForge Dark"@
}

impl ThemeTransitionManager {
    /// The mode that toggling switches to.
    pub fn toggled_mode(is_dark: bool) -> (r: ThemeMode)
        ensures
            r == toggle_of(if is_dark {
                ThemeMode::Dark
            } else {
                ThemeMode::Light
            }),
    {
        if is_dark {
            ThemeMode::Light
        } else {
            ThemeMode::Dark
        }
    }

    /// The name of the theme to restore: the saved one, or the default dark theme.
    pub fn restored_theme_name(saved: Option<String>) -> (r: String)
        ensures
            r@ == match saved {
                Some(s) => s@,
                None => default_theme(),
            },
    {
        match saved {
            Some(s) => s,
            None => crate::text::string_from("AgentForge Dark"),
        }
    }

    /// The mode to restore from the saved mode setting: `light` is light, anything else is
    /// dark; nothing is restored when no mode was saved.
    pub fn restored_mode(saved_mode: &Option<String>) -> (r: Option<ThemeMode>)
        ensures
            r == match saved_mode {
                Some(m) => Some(
                    if m@ == "light"@ {
                        ThemeMode::Light
                    } else {
                        ThemeMode::Dark
                    },
                ),
                None => None,
            },
    {
        match saved_mode {
            Some(m) => Some(
                if crate::text::str_eq(m.as_str(), "light") {
                    ThemeMode::Light
                } else {
                    ThemeMode::Dark
                },
            ),
            None => None,
        }
    }

    /// The mode setting saved for a theme of the given darkness.
    pub fn mode_setting(is_dark: bool) -> (r: &'static str)
        ensures
            r@ == if is_dark {
                "dark"@
            } else {
                "light"@
            },
    {
        if is_dark {
            "dark"
        } else {
            "light"
        }
    }
}

/// The mode after a toggle from `m`.
pub open spec fn toggle_of(m: ThemeMode) -> ThemeMode {
    if m == ThemeMode::Dark {
        ThemeMode::Light
    } else {
        ThemeMode::Dark
    }
}

/// Toggling twice returns to the mode one started from.
pub proof fn law_toggle_twice(m: ThemeMode)
    ensures
        toggle_of(toggle_of(m)) == m,
{
}

} // verus!

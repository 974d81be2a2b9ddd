//! Settings as the settings and profile pages show them: a stored value, else one
//! from the environment, else a default.
use crate::text::{chars_of, string_from, trim, trim_chars};
use vstd::prelude::*;

verus! {

/// A text that is not blank.
pub open spec fn filled(o: Option<Seq<char>>) -> Option<Seq<char>> {
    match o {
        Some(s) => if trim(s).len() > 0 {
            Some(s)
        } else {
            None
        },
        None => None,
    }
}

/// The value shown for a setting: the stored one where it is not blank, else the
/// environment's where that is not blank, else the default; none is trimmed.
pub open spec fn setting_value_of(
    stored: Option<Seq<char>>,
    env: Option<Seq<char>>,
    default: Seq<char>,
) -> Seq<char> {
    match filled(stored) {
        Some(s) => s,
        None => match filled(env) {
            Some(e) => e,
            None => default,
        },
    }
}

pub open spec fn opt_str(o: Option<&str>) -> Option<Seq<char>> {
    match o {
        Some(s) => Some(s@),
        None => None,
    }
}

fn is_filled(s: &str) -> (r: bool)
    ensures
        r == (trim(s@).len() > 0),
{
    trim_chars(&chars_of(s)).len() > 0
}

/// The value shown for a setting, from the stored value and the environment's.
pub fn setting_value(stored: Option<&str>, env: Option<&str>, default: &str) -> (r: String)
    ensures
        r@ == setting_value_of(opt_str(stored), opt_str(env), default@),
{
    if let Some(s) = stored {
        if is_filled(s) {
            return string_from(s);
        }
    }
    if let Some(e) = env {
        if is_filled(e) {
            return string_from(e);
        }
    }
    string_from(default)
}

/// The workspace shown on the profile page: the most recent one, else the one stored
/// for the local user, else a note that none is set.
pub fn workspace_label(recent: &Vec<String>, stored: Option<&str>) -> (r: String)
    ensures
        recent.len() > 0 ==> r@ == recent@[0]@,
        recent.len() == 0 ==> r@ == match stored {
            Some(s) => s@,
            None => "No workspace configured"@,
        },
{
    if recent.len() > 0 {
        recent[0].clone()
    } else {
        match stored {
            Some(s) => string_from(s),
            None => "No workspace configured".to_string(),
        }
    }
}

/// The theme shown on the profile page: the stored one, else `Default`.
pub fn theme_label(stored: Option<&str>) -> (r: String)
    ensures
        r@ == match stored {
            Some(s) => s@,
            None => "Default"@,
        },
{
    match stored {
        Some(s) => string_from(s),
        None => "Default".to_string(),
    }
}

} // verus!

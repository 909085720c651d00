//! Launch options read from the environment.
use vstd::prelude::*;

use crate::text::{chars_of, eq_lit, string_between, trim, trim_bounds};

verus! {

/// How the app is launched.
pub struct RunOptions {
    /// Directory for `profiles.toml` (default: the app config directory).
    /// Environment: `DRIFT_CONFIG_DIR`.
    pub config_dir: Option<String>,
    /// Keep passwords in memory instead of the Keychain (tests only; not settable from the
    /// environment).
    pub memory_secrets: bool,
    /// Connect the saved profile with this name in the first tab at launch.
    /// Environment: `DRIFT_AUTOCONNECT`.
    pub autoconnect: Option<String>,
}

/// The value of the last variable called `name` in `vars` whose value is not blank, trimmed.
pub open spec fn setting(vars: Seq<(String, String)>, name: Seq<char>) -> Option<Seq<char>>
    decreases vars.len(),
{
    if vars.len() == 0 {
        None
    } else if vars.last().0@ == name && trim(vars.last().1@).len() > 0 {
        Some(trim(vars.last().1@))
    } else {
        setting(vars.drop_last(), name)
    }
}

/// The characters of an optional string.
pub open spec fn opt_view(s: Option<String>) -> Option<Seq<char>> {
    match s {
        Some(t) => Some(t@),
        None => None,
    }
}

impl RunOptions {
    /// Options from `(name, value)` pairs (blank values are ignored).
    ///
    /// Only `DRIFT_CONFIG_DIR` and `DRIFT_AUTOCONNECT` are read; the Keychain can never be
    /// switched off from the environment.
    pub fn from_vars(vars: &[(String, String)]) -> (r: RunOptions)
        ensures
            opt_view(r.config_dir) == setting(vars@, "DRIFT_CONFIG_DIR"@),
            opt_view(r.autoconnect) == setting(vars@, "DRIFT_AUTOCONNECT"@),
            !r.memory_secrets,
    {
        let mut config_dir: Option<String> = None;
        let mut autoconnect: Option<String> = None;
        let mut i: usize = 0;
        while i < vars.len()
            invariant
                i <= vars@.len(),
                opt_view(config_dir) == setting(vars@.subrange(0, i as int), "DRIFT_CONFIG_DIR"@),
                opt_view(autoconnect) == setting(vars@.subrange(0, i as int), "DRIFT_AUTOCONNECT"@),
            decreases vars@.len() - i,
        {
            let ghost pre = vars@.subrange(0, i as int);
            let ghost next = vars@.subrange(0, i + 1);
            proof {
                assert(next.drop_last() =~= pre);
                assert(next.last() == vars@[i as int]);
            }
            let name = chars_of(vars[i].0.as_str());
            let value = chars_of(vars[i].1.as_str());
            let (a, b) = trim_bounds(&value, 0, value.len());
            proof {
                assert(value@.subrange(0, value@.len() as int) =~= value@);
            }
            if a < b {
                let is_dir = eq_lit(&name, 0, name.len(), "DRIFT_CONFIG_DIR");
                let is_auto = eq_lit(&name, 0, name.len(), "DRIFT_AUTOCONNECT");
                proof {
                    assert(name@.subrange(0, name@.len() as int) =~= name@);
                }
                if is_dir {
                    config_dir = Some(string_between(&value, a, b));
                }
                if is_auto {
                    autoconnect = Some(string_between(&value, a, b));
                }
            }
            i = i + 1;
        }
        proof {
            assert(vars@.subrange(0, vars@.len() as int) =~= vars@);
        }
        RunOptions { config_dir, memory_secrets: false, autoconnect }
    }
}

} // verus!

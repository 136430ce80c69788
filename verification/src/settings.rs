//! Settings read from the environment.

use vstd::prelude::*;

use crate::specifier::opt_str_view;
use crate::text::{chars_of, str_eq};

verus! {

/// A flag value that switches a setting on: `1`, or `true` in any mix of
/// upper and lower case.
pub open spec fn spec_flag_enabled(v: Seq<char>) -> bool {
    ||| v == "1"@
    ||| (v.len() == 4 && (v[0] == 't' || v[0] == 'T') && (v[1] == 'r' || v[1] == 'R') && (v[2] == 'u'
        || v[2] == 'U') && (v[3] == 'e' || v[3] == 'E'))
}

/// Whether the value of a flag variable (such as `ESPM_REQUIRE_ESM`) switches
/// it on; an unset variable does not.
pub fn env_flag_enabled(value: Option<&str>) -> (r: bool)
    ensures
        r == match opt_str_view(value) {
            Some(v) => spec_flag_enabled(v),
            None => false,
        },
{
    match value {
        None => false,
        Some(v) => {
            if str_eq(v, "1") {
                return true;
            }
            let c = chars_of(v);
            c.len() == 4 && (c[0] == 't' || c[0] == 'T') && (c[1] == 'r' || c[1] == 'R') && (c[2] == 'u'
                || c[2] == 'U') && (c[3] == 'e' || c[3] == 'E')
        },
    }
}

} // verus!

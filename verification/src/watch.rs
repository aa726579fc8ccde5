//! When a watched file counts as changed.

use vstd::prelude::*;

use crate::theme::str_is;

verus! {

/// Changes are reported at most this often, in milliseconds.
pub const RELOAD_INTERVAL_MILLIS: u64 = 200;

/// Whether to report a change now: an event touched the file, and the last
/// report is at least the interval old.
pub fn should_reload(changed: bool, millis_since_last: u64) -> (r: bool)
    ensures
        r == (changed && millis_since_last >= RELOAD_INTERVAL_MILLIS),
{
    changed && millis_since_last >= RELOAD_INTERVAL_MILLIS
}

/// Whether an event's path is the watched file: it is the same path, or the
/// same file once both are resolved, or else it has the same file name.
pub fn is_target(
    same_path: bool,
    same_resolved: bool,
    file_name: Option<&str>,
    target_name: Option<&str>,
) -> (r: bool)
    ensures
        r == (same_path || same_resolved || (file_name is Some && target_name is Some
            && file_name->0@ == target_name->0@)),
{
    if same_path || same_resolved {
        return true;
    }
    match (file_name, target_name) {
        (Some(a), Some(b)) => str_is(a, b),
        _ => false,
    }
}

} // verus!

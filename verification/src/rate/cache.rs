//! Whether a report is made anew, and where it goes.

use crate::paths::{parent, parent_of};
use crate::text::chars_of;
use vstd::prelude::*;

verus! {

/// Whether a report that is there will do: it is there, and kept reports may be used.
pub fn should_skip_cached(exists_already: bool, no_cache: bool) -> (r: bool)
    ensures
        r == (exists_already && !no_cache),
{
    if no_cache {
        return false;
    }
    exists_already
}

/// The directory that a report needs: the one it lies in, where it names one.
pub fn report_dir(report_path: &str) -> (r: Option<String>)
    ensures
        r.deep_view() == (match parent_of(report_path@) {
            Some(dir) => if dir.len() > 0 {
                Some(dir)
            } else {
                None
            },
            None => None,
        }),
{
    match parent(report_path) {
        Some(dir) => {
            if chars_of(dir.as_str()).len() > 0 {
                Some(dir)
            } else {
                None
            }
        },
        None => None,
    }
}

} // verus!

//! The states of a tape: whether it takes more data, and whether it is sound.
use vstd::prelude::*;

use crate::text;

verus! {

/// Takes more data.
pub const APPENDABLE: &'static str = "appendable";

/// Has reached its file limit: there is space, but no new file is taken.
pub const DATA_FULL: &'static str = "data_full";

/// Has no space left beyond the reserve.
pub const FULL: &'static str = "full";

/// The pool mark on the volume disagrees with the assignment, or the tape holds other data.
pub const LABEL_MISMATCH: &'static str = "label_mismatch";

/// Loading, mounting or formatting failed.
pub const CHECK: &'static str = "check";

/// Being reclaimed: its live files are moving to other tapes of the pool.
pub const RECLAIMING: &'static str = "reclaiming";

/// One of the states.
pub open spec fn known(s: Seq<char>) -> bool {
    s == APPENDABLE@ || s == DATA_FULL@ || s == FULL@ || s == LABEL_MISMATCH@ || s == CHECK@ || s
        == RECLAIMING@
}

/// Whether `s` is one of the states.
pub fn is_known(s: &str) -> (r: bool)
    ensures
        r == known(s@),
{
    text::same(s, APPENDABLE) || text::same(s, DATA_FULL) || text::same(s, FULL) || text::same(
        s,
        LABEL_MISMATCH,
    ) || text::same(s, CHECK) || text::same(s, RECLAIMING)
}

} // verus!

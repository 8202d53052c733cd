//! How far a report of elements reaches, and what is wrong with one that cannot be read.
use vstd::prelude::*;

use crate::changer::commands;

verus! {

/// A report ends where its header says, and never behind the bytes that there are.
pub proof fn law_report_ends_with_its_bytes(data: Seq<u8>)
    requires
        data.len() >= 8,
    ensures
        ({
            let said = 8 + (data[5] * 0x1_0000 + data[6] * 0x100 + data[7]);
            &&& commands::report_end(data) <= data.len() && commands::report_end(data) <= said
            &&& commands::report_end(data) == said || commands::report_end(data) == data.len()
        }),
{
}

proof fn lemma_page_stop(off: int, len: int, end: int)
    requires
        len > 0,
        off <= end,
    ensures
        commands::page_stop(off, len, end) == off + ((end - off) / len) * len,
    decreases end - off,
{
    if off + len <= end {
        lemma_page_stop(off + len, len, end);
        assert((end - off) / len == (end - off - len) / len + 1) by (nonlinear_arith)
            requires
                len > 0,
                off + len <= end,
        ;
        assert(((end - off - len) / len + 1) * len == ((end - off - len) / len) * len + len)
            by (nonlinear_arith);
        assert(end - (off + len) == end - off - len);
    } else {
        assert((end - off) / len == 0) by (nonlinear_arith)
            requires
                len > 0,
                off <= end,
                off + len > end,
        ;
        assert(0 * len == 0);
    }
}

/// A report is found to be broken by the first page with a descriptor that is too short, where the
/// page has room for one; a page with long enough ones is passed over, and the next follows where
/// its last descriptor ends.
pub proof fn law_short_descriptors_are_found(data: Seq<u8>, off: int, end: int)
    requires
        0 <= off,
        off + 8 <= end <= data.len(),
    ensures
        ({
            let len = data[off + 2] * 0x100 + data[off + 3];
            let own = off + 8 + (data[off + 5] * 0x1_0000 + data[off + 6] * 0x100 + data[off + 7]);
            let stop = if own <= end {
                own
            } else {
                end
            };
            let found = commands::short_descriptor(data, off, end);
            &&& len == 0 ==> found is None
            &&& 0 < len < commands::MIN_DESCRIPTOR && off + 8 + len <= stop ==> found == Some(len)
            &&& len >= commands::MIN_DESCRIPTOR ==> found == commands::short_descriptor(
                data,
                off + 8 + ((stop - off - 8) / len) * len,
                end,
            )
        }),
{
    let len = data[off + 2] * 0x100 + data[off + 3];
    let stop = commands::page_end(data, off, end);
    if len > 0 {
        lemma_page_stop(off + 8, len, stop);
        assert(stop - (off + 8) == stop - off - 8);
    }
}

} // verus!

//! Core of a live memory inspector for a running POSIX process: it validates
//! a textual target address against the process's mapped regions, reads a
//! bounded window of the target's memory, and renders a deterministic
//! hex dump sized to the terminal, driven by a cancellable refresh loop.

pub mod memory;
pub mod process_info;
pub mod render;
pub mod text;

use vstd::prelude::*;

verus! {

/// How many bytes one refresh cycle requests: sixteen per terminal row,
/// with one row reserved for the status header; with no rows at all,
/// nothing is read.
pub open spec fn spec_bytes_to_request(rows: u16) -> nat {
    if rows == 0 {
        0
    } else {
        ((rows - 1) * 16) as nat
    }
}

/// Computes the byte count to request for a terminal with `rows` rows.
pub fn bytes_to_request(rows: u16) -> (r: usize)
    ensures
        r == spec_bytes_to_request(rows),
{
    if rows == 0 {
        0
    } else {
        ((rows as usize) - 1) * 16
    }
}

} // verus!

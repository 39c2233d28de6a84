//! The core substrate of a multi-system hardware emulator: a component
//! store assembled by a machine builder, a memory translation table that
//! routes bus accesses across the registered components with bus-width
//! masking, per-range denials and budgeted redirects, and the components
//! that exercise it — a chunked RAM/ROM backing store, a read-only image,
//! an address mirror, and a CHIP-8 display with sprite XOR and collision
//! detection. Every stateful component snapshots to a self-describing
//! value and restores from it exactly.

pub mod access;
pub mod chip8_display;
pub mod chip8_input;
pub mod component;
pub mod input;
pub mod machine;
pub mod memory;
pub mod mirror_memory;
pub mod range_table;
pub mod rom_memory;
pub mod snapshot;
pub mod standard_memory;

use vstd::prelude::*;

verus! {

/// Largest buffer length a single memory access may use.
pub const MAX_ACCESS_SIZE: usize = 8;

/// The bus accepts accesses whose buffer length is 1, 2, 4 or 8 bytes.
pub open spec fn valid_access_size(n: int) -> bool {
    n == 1 || n == 2 || n == 4 || n == 8
}

/// Runtime check for a valid access size.
pub fn is_valid_access_size(n: usize) -> (r: bool)
    ensures
        r == valid_access_size(n as int),
{
    n == 1 || n == 2 || n == 4 || n == 8
}

} // verus!

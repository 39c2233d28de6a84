use vstd::prelude::*;
use crate::range_table::RangeTable;

verus! {

/// Tag of one routing namespace; a machine may declare up to 256 of them.
pub type AddressSpaceId = u8;

/// How a component answers a read request on a sub-range it owns.
#[derive(Copy, Clone, Debug, PartialEq, Eq, PartialOrd, Ord, Hash)]
pub enum ReadMemoryRecord {
    /// Memory could not be read.
    Denied,
    /// Memory redirects somewhere else.
    Redirect { address: usize },
}

/// How a component answers a write request on a sub-range it owns.
#[derive(Copy, Clone, Debug, PartialEq, Eq, PartialOrd, Ord, Hash)]
pub enum WriteMemoryRecord {
    /// Memory could not be written.
    Denied,
    /// Memory redirects somewhere else.
    Redirect { address: usize },
}

/// How a component answers a preview request on a sub-range it owns.
#[derive(Copy, Clone, Debug, PartialEq, Eq, PartialOrd, Ord, Hash)]
pub enum PreviewMemoryRecord {
    /// Memory denied.
    Denied,
    /// Memory redirects somewhere else.
    Redirect { address: usize },
    /// Memory here cannot be previewed without a state change.
    Impossible,
}

/// A component's answer for a sub-range, with the operation kind erased:
/// the translation table treats all three operations through this shape.
#[derive(Copy, Clone, Debug, PartialEq, Eq)]
pub enum AccessRecord {
    Denied,
    Redirect { address: usize },
    Impossible,
}

/// What a failed sub-range of an operation is reported as to the caller.
#[derive(Copy, Clone, Debug, PartialEq, Eq)]
pub enum AccessFailure {
    Denied,
    OutOfBus,
    Impossible,
}

/// The operation kinds the translation table routes.
#[derive(Copy, Clone, Debug, PartialEq, Eq)]
pub enum MemoryOperation {
    Read,
    Write,
    Preview,
}

#[derive(Debug, PartialEq, Eq, Clone, Copy)]
pub enum ReadMemoryOperationErrorFailureType {
    Denied,
    OutOfBus,
}

#[derive(Debug, PartialEq, Eq, Clone, Copy)]
pub enum WriteMemoryOperationErrorFailureType {
    Denied,
    OutOfBus,
}

#[derive(Debug, PartialEq, Eq, Clone, Copy)]
pub enum PreviewMemoryOperationErrorFailureType {
    Denied,
    OutOfBus,
    Impossible,
}

/// Error of a read operation: every failed sub-range with its failure kind.
#[derive(Debug)]
pub struct ReadMemoryOperationError(pub RangeTable<ReadMemoryOperationErrorFailureType>);

/// Error of a write operation: every failed sub-range with its failure kind.
#[derive(Debug)]
pub struct WriteMemoryOperationError(pub RangeTable<WriteMemoryOperationErrorFailureType>);

/// Error of a preview operation: every failed sub-range with its failure kind.
#[derive(Debug)]
pub struct PreviewMemoryOperationError(pub RangeTable<PreviewMemoryOperationErrorFailureType>);

pub open spec fn read_rec_as_access(r: ReadMemoryRecord) -> AccessRecord {
    match r {
        ReadMemoryRecord::Denied => AccessRecord::Denied,
        ReadMemoryRecord::Redirect { address } => AccessRecord::Redirect { address },
    }
}

pub open spec fn write_rec_as_access(r: WriteMemoryRecord) -> AccessRecord {
    match r {
        WriteMemoryRecord::Denied => AccessRecord::Denied,
        WriteMemoryRecord::Redirect { address } => AccessRecord::Redirect { address },
    }
}

pub open spec fn preview_rec_as_access(r: PreviewMemoryRecord) -> AccessRecord {
    match r {
        PreviewMemoryRecord::Denied => AccessRecord::Denied,
        PreviewMemoryRecord::Redirect { address } => AccessRecord::Redirect { address },
        PreviewMemoryRecord::Impossible => AccessRecord::Impossible,
    }
}

pub open spec fn read_entries_as_access(s: Seq<(usize, usize, ReadMemoryRecord)>) -> Seq<
    (usize, usize, AccessRecord),
> {
    s.map_values(|e: (usize, usize, ReadMemoryRecord)| (e.0, e.1, read_rec_as_access(e.2)))
}

pub open spec fn write_entries_as_access(s: Seq<(usize, usize, WriteMemoryRecord)>) -> Seq<
    (usize, usize, AccessRecord),
> {
    s.map_values(|e: (usize, usize, WriteMemoryRecord)| (e.0, e.1, write_rec_as_access(e.2)))
}

pub open spec fn preview_entries_as_access(s: Seq<(usize, usize, PreviewMemoryRecord)>) -> Seq<
    (usize, usize, AccessRecord),
> {
    s.map_values(|e: (usize, usize, PreviewMemoryRecord)| (e.0, e.1, preview_rec_as_access(e.2)))
}

/// How a unified failure is reported for a read operation.
pub open spec fn fail_as_read(f: AccessFailure) -> ReadMemoryOperationErrorFailureType {
    match f {
        AccessFailure::OutOfBus => ReadMemoryOperationErrorFailureType::OutOfBus,
        _ => ReadMemoryOperationErrorFailureType::Denied,
    }
}

/// How a unified failure is reported for a write operation.
pub open spec fn fail_as_write(f: AccessFailure) -> WriteMemoryOperationErrorFailureType {
    match f {
        AccessFailure::OutOfBus => WriteMemoryOperationErrorFailureType::OutOfBus,
        _ => WriteMemoryOperationErrorFailureType::Denied,
    }
}

/// How a unified failure is reported for a preview operation.
pub open spec fn fail_as_preview(f: AccessFailure) -> PreviewMemoryOperationErrorFailureType {
    match f {
        AccessFailure::OutOfBus => PreviewMemoryOperationErrorFailureType::OutOfBus,
        AccessFailure::Impossible => PreviewMemoryOperationErrorFailureType::Impossible,
        AccessFailure::Denied => PreviewMemoryOperationErrorFailureType::Denied,
    }
}

pub open spec fn fails_as_read(s: Seq<(usize, usize, AccessFailure)>) -> Seq<
    (usize, usize, ReadMemoryOperationErrorFailureType),
> {
    s.map_values(|e: (usize, usize, AccessFailure)| (e.0, e.1, fail_as_read(e.2)))
}

pub open spec fn fails_as_write(s: Seq<(usize, usize, AccessFailure)>) -> Seq<
    (usize, usize, WriteMemoryOperationErrorFailureType),
> {
    s.map_values(|e: (usize, usize, AccessFailure)| (e.0, e.1, fail_as_write(e.2)))
}

pub open spec fn fails_as_preview(s: Seq<(usize, usize, AccessFailure)>) -> Seq<
    (usize, usize, PreviewMemoryOperationErrorFailureType),
> {
    s.map_values(|e: (usize, usize, AccessFailure)| (e.0, e.1, fail_as_preview(e.2)))
}

} // verus!

use vstd::prelude::*;
use std::ops::Range;
use crate::access::{
    AccessRecord, AddressSpaceId, PreviewMemoryRecord, ReadMemoryRecord, WriteMemoryRecord,
};
use crate::range_table::RangeTable;

verus! {

#[derive(Debug)]
pub struct MirrorMemoryConfig {
    /// Memory region this mirror will be mapped to.
    pub assigned_range: Range<usize>,
    /// Start of the region the mirrored addresses resolve to.
    pub target_base: usize,
    /// Address space this exists on.
    pub assigned_address_space: AddressSpaceId,
}

/// A stateless component that redirects every access on its range to the
/// matching offset of a target region: the mirror-addressing device of
/// narrow address decoders. The target region must be disjoint from the
/// mirror's own range; redirecting into oneself is a programmer error the
/// configuration invariant rules out.
#[derive(Debug)]
pub struct MirrorMemory {
    config: MirrorMemoryConfig,
}

pub open spec fn mirror_config_wf(c: MirrorMemoryConfig) -> bool {
    &&& c.assigned_range.start < c.assigned_range.end
    &&& c.target_base + (c.assigned_range.end - c.assigned_range.start) <= usize::MAX
    &&& (c.target_base + (c.assigned_range.end - c.assigned_range.start)
        <= c.assigned_range.start || c.assigned_range.end <= c.target_base)
}

/// The redirect target for an access arriving at `addr`: the same offset
/// from the target base; an access below the range start keeps offset zero,
/// and a target that would overflow the address type is denied.
pub open spec fn mirror_target(c: MirrorMemoryConfig, addr: int) -> int {
    let off = if addr >= c.assigned_range.start {
        addr - c.assigned_range.start
    } else {
        0int
    };
    c.target_base + off
}

/// The one record a mirror reports for any operation.
pub open spec fn mirror_record(c: MirrorMemoryConfig, addr: int, len: int) -> (usize, usize, AccessRecord) {
    if mirror_target(c, addr) > usize::MAX {
        (addr as usize, (addr + len) as usize, AccessRecord::Denied)
    } else {
        (
            addr as usize,
            (addr + len) as usize,
            AccessRecord::Redirect { address: mirror_target(c, addr) as usize },
        )
    }
}

impl MirrorMemory {
    pub closed spec fn cfg(&self) -> MirrorMemoryConfig {
        self.config
    }

    pub open spec fn wf(&self) -> bool {
        mirror_config_wf(self.cfg())
    }

    pub fn from_config(config: MirrorMemoryConfig) -> (r: Self)
        requires
            mirror_config_wf(config),
        ensures
            r.wf(),
            r.cfg() == config,
    {
        MirrorMemory { config }
    }

    /// A mirror holds no state.
    pub fn reset(&self) {
    }

    fn target_for(&self, address: usize) -> (r: Option<usize>)
        ensures
            r == if mirror_target(self.cfg(), address as int) > usize::MAX {
                Option::<usize>::None
            } else {
                Some(mirror_target(self.cfg(), address as int) as usize)
            },
    {
        let off = if address >= self.config.assigned_range.start {
            address - self.config.assigned_range.start
        } else {
            0
        };
        if off > usize::MAX - self.config.target_base {
            None
        } else {
            Some(self.config.target_base + off)
        }
    }

    /// Redirect a read to the mirrored region.
    pub fn read_memory(
        &self,
        address: usize,
        buffer: &mut Vec<u8>,
        _address_space: AddressSpaceId,
        errors: &mut RangeTable<ReadMemoryRecord>,
    )
        requires
            old(errors)@.len() == 0,
            old(buffer)@.len() >= 1,
            address + old(buffer)@.len() <= usize::MAX,
        ensures
            final(buffer)@ == old(buffer)@,
            final(errors)@ == seq![
                (
                    mirror_record(self.cfg(), address as int, old(buffer)@.len() as int).0,
                    mirror_record(self.cfg(), address as int, old(buffer)@.len() as int).1,
                    match mirror_record(self.cfg(), address as int, old(buffer)@.len() as int).2 {
                        AccessRecord::Denied => ReadMemoryRecord::Denied,
                        AccessRecord::Redirect { address } => ReadMemoryRecord::Redirect {
                            address,
                        },
                        AccessRecord::Impossible => ReadMemoryRecord::Denied,
                    },
                ),
            ],
    {
        match self.target_for(address) {
            Some(t) => errors.push_entry(
                address,
                address + buffer.len(),
                ReadMemoryRecord::Redirect { address: t },
            ),
            None => errors.push_entry(address, address + buffer.len(), ReadMemoryRecord::Denied),
        }
    }

    /// Redirect a write to the mirrored region.
    pub fn write_memory(
        &self,
        address: usize,
        buffer: &Vec<u8>,
        _address_space: AddressSpaceId,
        errors: &mut RangeTable<WriteMemoryRecord>,
    )
        requires
            old(errors)@.len() == 0,
            buffer@.len() >= 1,
            address + buffer@.len() <= usize::MAX,
        ensures
            final(errors)@ == seq![
                (
                    mirror_record(self.cfg(), address as int, buffer@.len() as int).0,
                    mirror_record(self.cfg(), address as int, buffer@.len() as int).1,
                    match mirror_record(self.cfg(), address as int, buffer@.len() as int).2 {
                        AccessRecord::Denied => WriteMemoryRecord::Denied,
                        AccessRecord::Redirect { address } => WriteMemoryRecord::Redirect {
                            address,
                        },
                        AccessRecord::Impossible => WriteMemoryRecord::Denied,
                    },
                ),
            ],
    {
        match self.target_for(address) {
            Some(t) => errors.push_entry(
                address,
                address + buffer.len(),
                WriteMemoryRecord::Redirect { address: t },
            ),
            None => errors.push_entry(address, address + buffer.len(), WriteMemoryRecord::Denied),
        }
    }

    /// Redirect a preview to the mirrored region.
    pub fn preview_memory(
        &self,
        address: usize,
        buffer: &mut Vec<u8>,
        _address_space: AddressSpaceId,
        errors: &mut RangeTable<PreviewMemoryRecord>,
    )
        requires
            old(errors)@.len() == 0,
            old(buffer)@.len() >= 1,
            address + old(buffer)@.len() <= usize::MAX,
        ensures
            final(buffer)@ == old(buffer)@,
            final(errors)@ == seq![
                (
                    mirror_record(self.cfg(), address as int, old(buffer)@.len() as int).0,
                    mirror_record(self.cfg(), address as int, old(buffer)@.len() as int).1,
                    match mirror_record(self.cfg(), address as int, old(buffer)@.len() as int).2 {
                        AccessRecord::Denied => PreviewMemoryRecord::Denied,
                        AccessRecord::Redirect { address } => PreviewMemoryRecord::Redirect {
                            address,
                        },
                        AccessRecord::Impossible => PreviewMemoryRecord::Impossible,
                    },
                ),
            ],
    {
        match self.target_for(address) {
            Some(t) => errors.push_entry(
                address,
                address + buffer.len(),
                PreviewMemoryRecord::Redirect { address: t },
            ),
            None => errors.push_entry(
                address,
                address + buffer.len(),
                PreviewMemoryRecord::Denied,
            ),
        }
    }
}

} // verus!

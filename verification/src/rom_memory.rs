use vstd::prelude::*;
use std::ops::Range;
use crate::access::{PreviewMemoryRecord, ReadMemoryRecord, WriteMemoryRecord};
use crate::range_table::RangeTable;

verus! {

/// Identifier of a ROM image held by the surrounding ROM store.
#[derive(Copy, Clone, Debug, PartialEq, Eq, Hash)]
pub struct RomId(pub u64);

#[derive(Debug)]
pub struct RomMemoryConfig {
    pub rom: RomId,
    /// The maximum word size.
    pub max_word_size: u8,
    /// Memory region this buffer will be mapped to.
    pub assigned_range: Range<usize>,
}

impl Default for RomMemoryConfig {
    fn default() -> (r: Self)
        ensures
            r.rom == RomId(0u64),
            r.max_word_size == 8,
            r.assigned_range.start == 0 && r.assigned_range.end == 0,
    {
        RomMemoryConfig { rom: RomId(0), max_word_size: 8, assigned_range: 0..0 }
    }
}

/// Read-only memory backed by a ROM image's bytes, mapped at a fixed range.
/// Reading the image and re-reading it on reset is the surrounding program's
/// task; the component holds the bytes it was given.
#[derive(Debug)]
pub struct RomMemory {
    config: RomMemoryConfig,
    rom: Vec<u8>,
}

/// End of the readable part: where the mapped image runs out. The image is
/// addressed from the range start for as long as it has bytes, also past the
/// assigned range's end: ownership of bus ranges is the translation table's
/// concern, not the component's.
pub open spec fn rom_image_end(c: RomMemoryConfig, rom_len: int) -> int {
    c.assigned_range.start + rom_len
}

/// A ROM fill succeeds exactly when the access lies inside the readable part.
pub open spec fn rom_read_ok(c: RomMemoryConfig, rom_len: int, addr: int, len: int) -> bool {
    c.assigned_range.start <= addr && addr + len <= rom_image_end(c, rom_len)
}

/// Start of the single denied range covering a refused access.
pub open spec fn rom_denied_lo(c: RomMemoryConfig, rom_len: int, addr: int, len: int) -> int {
    if addr + len > rom_image_end(c, rom_len) && rom_image_end(c, rom_len) < addr {
        rom_image_end(c, rom_len)
    } else {
        addr
    }
}

/// End of the single denied range covering a refused access.
pub open spec fn rom_denied_hi(c: RomMemoryConfig, rom_len: int, addr: int, len: int) -> int {
    if addr < c.assigned_range.start && c.assigned_range.start > addr + len {
        c.assigned_range.start as int
    } else {
        addr + len
    }
}

/// The records a ROM read reports: requests longer than the maximum word
/// size deny the whole access; otherwise the parts before the range start
/// or past the image's bytes are denied.
pub open spec fn rom_read_records(c: RomMemoryConfig, rom_len: int, addr: int, len: int) -> Seq<
    (usize, usize, ReadMemoryRecord),
> {
    if len > c.max_word_size as int {
        seq![
            (
                rom_denied_lo(c, rom_len, addr, len) as usize,
                rom_denied_hi(c, rom_len, addr, len) as usize,
                ReadMemoryRecord::Denied,
            ),
        ]
    } else {
        let before: Seq<(usize, usize, ReadMemoryRecord)> = if addr < c.assigned_range.start {
            seq![(addr as usize, c.assigned_range.start, ReadMemoryRecord::Denied)]
        } else {
            Seq::empty()
        };
        let after: Seq<(usize, usize, ReadMemoryRecord)> = if addr + len > rom_image_end(
            c,
            rom_len,
        ) {
            seq![(rom_image_end(c, rom_len) as usize, (addr + len) as usize, ReadMemoryRecord::Denied)]
        } else {
            Seq::empty()
        };
        before + after
    }
}

/// A ROM denies every write over the whole requested range.
pub open spec fn rom_write_records(addr: int, len: int) -> Seq<(usize, usize, WriteMemoryRecord)> {
    seq![(addr as usize, (addr + len) as usize, WriteMemoryRecord::Denied)]
}

/// The records a ROM preview reports: like a read, but without the maximum
/// word size check.
pub open spec fn rom_preview_records(c: RomMemoryConfig, rom_len: int, addr: int, len: int) -> Seq<
    (usize, usize, PreviewMemoryRecord),
> {
    let before: Seq<(usize, usize, PreviewMemoryRecord)> = if addr < c.assigned_range.start {
        seq![(addr as usize, c.assigned_range.start, PreviewMemoryRecord::Denied)]
    } else {
        Seq::empty()
    };
    let after: Seq<(usize, usize, PreviewMemoryRecord)> = if addr + len > rom_image_end(
        c,
        rom_len,
    ) {
        seq![(rom_image_end(c, rom_len) as usize, (addr + len) as usize, PreviewMemoryRecord::Denied)]
    } else {
        Seq::empty()
    };
    before + after
}

/// What a read or preview hands back when the access is inside the readable
/// part; reads fill even when the word size check denied the access.
pub open spec fn rom_fill(c: RomMemoryConfig, rom: Seq<u8>, addr: int, len: int) -> Option<
    Seq<u8>,
> {
    if rom_read_ok(c, rom.len() as int, addr, len) {
        Some(
            rom.subrange(addr - c.assigned_range.start, addr - c.assigned_range.start + len),
        )
    } else {
        None
    }
}

impl RomMemory {
    pub open spec fn start(&self) -> int {
        self.cfg().assigned_range.start as int
    }

    pub open spec fn end(&self) -> int {
        self.cfg().assigned_range.end as int
    }

    pub closed spec fn cfg(&self) -> RomMemoryConfig {
        self.config
    }

    pub closed spec fn rom(&self) -> Seq<u8> {
        self.rom@
    }

    pub open spec fn wf(&self) -> bool {
        &&& self.start() <= self.end()
        &&& self.start() + self.rom().len() <= usize::MAX
    }

    /// Build a ROM memory over the image bytes the surrounding program read.
    pub fn from_config(config: RomMemoryConfig, rom: Vec<u8>) -> (r: Self)
        requires
            config.assigned_range.start <= config.assigned_range.end,
            config.assigned_range.start + rom@.len() <= usize::MAX,
        ensures
            r.wf(),
            r.cfg() == config,
            r.rom() == rom@,
    {
        RomMemory { config, rom }
    }

    /// The component holds the image bytes themselves, so there is no file
    /// handle to re-open: reset leaves it as constructed.
    pub fn reset(&self) {
    }

    /// Serve a read of the mapped image.
    pub fn read_memory(
        &self,
        address: usize,
        buffer: &mut Vec<u8>,
        errors: &mut RangeTable<ReadMemoryRecord>,
    )
        requires
            self.wf(),
            old(errors)@.len() == 0,
            old(buffer)@.len() >= 1,
            address + old(buffer)@.len() <= usize::MAX,
        ensures
            final(errors)@ == rom_read_records(
                self.cfg(),
                self.rom().len() as int,
                address as int,
                old(buffer)@.len() as int,
            ),
            final(buffer)@ == match rom_fill(
                self.cfg(),
                self.rom(),
                address as int,
                old(buffer)@.len() as int,
            ) {
                Some(d) => d,
                None => old(buffer)@,
            },
            final(buffer)@.len() == old(buffer)@.len(),
    {
        let len = buffer.len();
        let start = self.config.assigned_range.start;
        let image_end = start + self.rom.len();
        if len > self.config.max_word_size as usize {
            let lo = if address + len > image_end && image_end < address {
                image_end
            } else {
                address
            };
            let hi = if address < start && start > address + len {
                start
            } else {
                address + len
            };
            errors.push_entry(lo, hi, ReadMemoryRecord::Denied);
            proof {
                assert(errors@ =~= rom_read_records(
                    self.cfg(),
                    self.rom().len() as int,
                    address as int,
                    len as int,
                ));
            }
        } else {
            let mut any = false;
            if address < start {
                errors.push_entry(address, start, ReadMemoryRecord::Denied);
                any = true;
            }
            if address + len > image_end {
                errors.push_entry(image_end, address + len, ReadMemoryRecord::Denied);
                any = true;
            }
            proof {
                assert(errors@ =~= rom_read_records(
                    self.cfg(),
                    self.rom().len() as int,
                    address as int,
                    len as int,
                ));
            }
        }
        if address >= start && address + len <= image_end {
            self.read_into(address, buffer);
        }
    }

    /// Copy bytes out of the image; the access must lie in the readable part.
    fn read_into(&self, address: usize, buffer: &mut Vec<u8>)
        requires
            self.wf(),
            self.start() <= address,
            address + old(buffer)@.len() <= rom_image_end(self.cfg(), self.rom().len() as int),
        ensures
            final(buffer)@ == self.rom().subrange(
                address - self.start(),
                address - self.start() + old(buffer)@.len(),
            ),
            final(buffer)@.len() == old(buffer)@.len(),
    {
        let len = buffer.len();
        let local = address - self.config.assigned_range.start;
        let mut i: usize = 0;
        while i < len
            invariant
                0 <= i <= len,
                len == buffer@.len(),
                self.wf(),
                local == address - self.start(),
                self.start() <= address,
                address + len <= rom_image_end(self.cfg(), self.rom().len() as int),
                forall|j: int| 0 <= j < i ==> buffer@[j] == self.rom()[local + j],
            decreases len - i,
        {
            let b = self.rom[local + i];
            buffer[i] = b;
            i = i + 1;
        }
        proof {
            assert(buffer@ =~= self.rom().subrange(local as int, local + len));
        }
    }

    /// A ROM denies every write; the image is untouched.
    pub fn write_memory(
        &self,
        address: usize,
        buffer: &Vec<u8>,
        errors: &mut RangeTable<WriteMemoryRecord>,
    )
        requires
            old(errors)@.len() == 0,
            buffer@.len() >= 1,
            address + buffer@.len() <= usize::MAX,
        ensures
            final(errors)@ == rom_write_records(address as int, buffer@.len() as int),
    {
        errors.push_entry(address, address + buffer.len(), WriteMemoryRecord::Denied);
        proof {
            assert(errors@ =~= rom_write_records(address as int, buffer@.len() as int));
        }
    }

    /// Serve a preview: like a read, without the maximum word size check.
    pub fn preview_memory(
        &self,
        address: usize,
        buffer: &mut Vec<u8>,
        errors: &mut RangeTable<PreviewMemoryRecord>,
    )
        requires
            self.wf(),
            old(errors)@.len() == 0,
            old(buffer)@.len() >= 1,
            address + old(buffer)@.len() <= usize::MAX,
        ensures
            final(errors)@ == rom_preview_records(
                self.cfg(),
                self.rom().len() as int,
                address as int,
                old(buffer)@.len() as int,
            ),
            final(buffer)@ == match rom_fill(
                self.cfg(),
                self.rom(),
                address as int,
                old(buffer)@.len() as int,
            ) {
                Some(d) => d,
                None => old(buffer)@,
            },
            final(buffer)@.len() == old(buffer)@.len(),
    {
        let len = buffer.len();
        let start = self.config.assigned_range.start;
        let image_end = start + self.rom.len();
        if address < start {
            errors.push_entry(address, start, PreviewMemoryRecord::Denied);
        }
        if address + len > image_end {
            errors.push_entry(image_end, address + len, PreviewMemoryRecord::Denied);
        }
        proof {
            assert(errors@ =~= rom_preview_records(
                self.cfg(),
                self.rom().len() as int,
                address as int,
                len as int,
            ));
        }
        if address >= start && address + len <= image_end {
            self.read_into(address, buffer);
        }
    }
}

} // verus!

use vstd::prelude::*;
use vstd::arithmetic::div_mod::lemma_fundamental_div_mod;
use std::ops::Range;
use rand::Rng;
use crate::access::{AddressSpaceId, PreviewMemoryRecord, ReadMemoryRecord, WriteMemoryRecord};
use crate::range_table::RangeTable;
use crate::rom_memory::RomId;
use crate::snapshot::{
    SnapshotValue, bin_map_payload, is_bin_map_snapshot, make_bin_map_snapshot,
    take_bin_map_payload,
};

verus! {

/// Size of one backing chunk; internal, never observable through the bus.
pub const CHUNK_SIZE: usize = 4096;

/// Where a standard memory's bytes come from at construction and on reset.
#[allow(inconsistent_fields)]
#[derive(Debug)]
pub enum StandardMemoryInitialContents {
    Value { value: u8 },
    Array { offset: usize, value: Vec<u8> },
    Rom { rom_id: RomId, offset: usize },
    Random,
}

#[derive(Debug)]
pub struct StandardMemoryConfig {
    /// If the buffer is readable.
    pub readable: bool,
    /// If the buffer is writable.
    pub writable: bool,
    /// The maximum word size.
    pub max_word_size: usize,
    /// Memory region this buffer will be mapped to.
    pub assigned_range: Range<usize>,
    /// Address space this exists on.
    pub assigned_address_space: AddressSpaceId,
    /// Initial contents.
    pub initial_contents: StandardMemoryInitialContents,
}

#[derive(Debug)]
pub struct StandardMemorySnapshot {
    pub memory: Vec<u8>,
}

/// A RAM/ROM backing store: a chunk-aligned byte buffer mapped at a fixed
/// address range of one address space. The final chunk may be over-allocated;
/// accesses past the assigned range are refused, not trimmed.
///
/// A write that fails part-way is not rolled back: bytes of the denied
/// sub-ranges are untouched, but a caller must treat the buffer as
/// best-effort undefined on every range the error names.
#[derive(Debug)]
pub struct StandardMemory {
    config: StandardMemoryConfig,
    buffer: Vec<u8>,
    rom_data: Vec<u8>,
}

/// The configuration invariant that `from_config` demands and every method
/// preserves: a valid word size, a non-empty assigned range that leaves room
/// for chunk rounding, and initial contents that fit the range.
pub open spec fn config_wf(c: StandardMemoryConfig) -> bool {
    &&& crate::valid_access_size(c.max_word_size as int)
    &&& c.assigned_range.start < c.assigned_range.end
    &&& c.assigned_range.end - c.assigned_range.start <= usize::MAX - CHUNK_SIZE
    &&& match c.initial_contents {
        StandardMemoryInitialContents::Array { offset, value } => c.assigned_range.start <= offset
            && offset + value@.len() <= c.assigned_range.end,
        StandardMemoryInitialContents::Rom { rom_id: _, offset } => c.assigned_range.start <= offset
            && offset <= c.assigned_range.end,
        _ => true,
    }
}

/// Length of the backing buffer: the assigned length rounded up to whole chunks.
pub open spec fn chunked_len(len: int) -> int {
    (len / (CHUNK_SIZE as int)) * (CHUNK_SIZE as int) + if len % (CHUNK_SIZE as int) == 0 {
        0int
    } else {
        CHUNK_SIZE as int
    }
}

pub proof fn lemma_chunked_len_bounds(len: int)
    requires
        0 <= len,
    ensures
        len <= chunked_len(len) <= len + CHUNK_SIZE,
{
    lemma_fundamental_div_mod(len, CHUNK_SIZE as int);
}

/// A read succeeds exactly when the memory is readable and the access lies
/// inside the assigned range.
pub open spec fn std_read_ok(c: StandardMemoryConfig, addr: int, len: int) -> bool {
    c.readable && c.assigned_range.start <= addr && addr + len <= c.assigned_range.end
}

/// A write succeeds exactly when the memory is writable and the access lies
/// inside the assigned range.
pub open spec fn std_write_ok(c: StandardMemoryConfig, addr: int, len: int) -> bool {
    c.writable && c.assigned_range.start <= addr && addr + len <= c.assigned_range.end
}

/// Start of the single denied range reported when the whole access is refused.
pub open spec fn std_denied_lo(c: StandardMemoryConfig, addr: int, len: int) -> int {
    if addr + len > c.assigned_range.end && c.assigned_range.end < addr {
        c.assigned_range.end as int
    } else {
        addr
    }
}

/// End of the single denied range reported when the whole access is refused.
pub open spec fn std_denied_hi(c: StandardMemoryConfig, addr: int, len: int) -> int {
    if addr < c.assigned_range.start && c.assigned_range.start > addr + len {
        c.assigned_range.start as int
    } else {
        addr + len
    }
}

/// The records a read reports: one denial covering the access when the
/// memory is not readable, else denials for the parts before and after the
/// assigned range.
pub open spec fn std_read_records(c: StandardMemoryConfig, addr: int, len: int) -> Seq<
    (usize, usize, ReadMemoryRecord),
> {
    if !c.readable {
        seq![
            (
                std_denied_lo(c, addr, len) as usize,
                std_denied_hi(c, addr, len) as usize,
                ReadMemoryRecord::Denied,
            ),
        ]
    } else {
        let before: Seq<(usize, usize, ReadMemoryRecord)> = if addr < c.assigned_range.start {
            seq![(addr as usize, c.assigned_range.start, ReadMemoryRecord::Denied)]
        } else {
            Seq::empty()
        };
        let after: Seq<(usize, usize, ReadMemoryRecord)> = if addr + len > c.assigned_range.end {
            seq![(c.assigned_range.end, (addr + len) as usize, ReadMemoryRecord::Denied)]
        } else {
            Seq::empty()
        };
        before + after
    }
}

/// The records a write reports, in the same shape as a read's.
pub open spec fn std_write_records(c: StandardMemoryConfig, addr: int, len: int) -> Seq<
    (usize, usize, WriteMemoryRecord),
> {
    if !c.writable {
        seq![
            (
                std_denied_lo(c, addr, len) as usize,
                std_denied_hi(c, addr, len) as usize,
                WriteMemoryRecord::Denied,
            ),
        ]
    } else {
        let before: Seq<(usize, usize, WriteMemoryRecord)> = if addr < c.assigned_range.start {
            seq![(addr as usize, c.assigned_range.start, WriteMemoryRecord::Denied)]
        } else {
            Seq::empty()
        };
        let after: Seq<(usize, usize, WriteMemoryRecord)> = if addr + len > c.assigned_range.end {
            seq![(c.assigned_range.end, (addr + len) as usize, WriteMemoryRecord::Denied)]
        } else {
            Seq::empty()
        };
        before + after
    }
}

/// The records a preview reports: a preview is a side-effect-free read.
pub open spec fn std_preview_records(c: StandardMemoryConfig, addr: int, len: int) -> Seq<
    (usize, usize, PreviewMemoryRecord),
> {
    if !c.readable {
        seq![
            (
                std_denied_lo(c, addr, len) as usize,
                std_denied_hi(c, addr, len) as usize,
                PreviewMemoryRecord::Denied,
            ),
        ]
    } else {
        let before: Seq<(usize, usize, PreviewMemoryRecord)> = if addr < c.assigned_range.start {
            seq![(addr as usize, c.assigned_range.start, PreviewMemoryRecord::Denied)]
        } else {
            Seq::empty()
        };
        let after: Seq<(usize, usize, PreviewMemoryRecord)> = if addr + len > c.assigned_range.end {
            seq![(c.assigned_range.end, (addr + len) as usize, PreviewMemoryRecord::Denied)]
        } else {
            Seq::empty()
        };
        before + after
    }
}

/// What a successful read hands back out of the backing bytes `mem`.
pub open spec fn std_fill(c: StandardMemoryConfig, mem: Seq<u8>, addr: int, len: int) -> Option<
    Seq<u8>,
> {
    if std_read_ok(c, addr, len) {
        Some(
            mem.subrange(
                addr - c.assigned_range.start,
                addr - c.assigned_range.start + len,
            ),
        )
    } else {
        None
    }
}

/// The backing bytes after a write: spliced in on success, untouched on denial.
pub open spec fn std_mem_after_write(
    c: StandardMemoryConfig,
    mem: Seq<u8>,
    addr: int,
    data: Seq<u8>,
) -> Seq<u8> {
    if std_write_ok(c, addr, data.len() as int) {
        mem.update_subrange_with(addr - c.assigned_range.start, data)
    } else {
        mem
    }
}

/// The backing bytes right after initialization over base bytes `base`
/// (zeroes at construction and on reset). Random contents have no
/// deterministic description and are not covered here.
pub open spec fn init_effect(c: StandardMemoryConfig, rom: Seq<u8>, base: Seq<u8>) -> Seq<u8> {
    match c.initial_contents {
        StandardMemoryInitialContents::Value { value } => Seq::new(base.len(), |i: int| value),
        StandardMemoryInitialContents::Array { offset, value } => base.update_subrange_with(
            offset - c.assigned_range.start,
            value@,
        ),
        StandardMemoryInitialContents::Rom { rom_id: _, offset } => {
            let room = c.assigned_range.end - offset;
            let take_n = if rom.len() <= room {
                rom.len() as int
            } else {
                room
            };
            base.update_subrange_with(offset - c.assigned_range.start, rom.take(take_n))
        },
        StandardMemoryInitialContents::Random => base,
    }
}

/// The all-zero backing buffer a fresh memory starts from.
pub open spec fn fresh_base(c: StandardMemoryConfig) -> Seq<u8> {
    Seq::new(chunked_len(c.assigned_range.end - c.assigned_range.start) as nat, |i: int| 0u8)
}

/// The deterministic backing bytes after construction or reset, for every
/// initial contents kind but `Random`.
pub open spec fn fresh_buffer_bytes(c: StandardMemoryConfig, rom: Seq<u8>) -> Seq<u8> {
    init_effect(c, rom, fresh_base(c))
}

/// Key under which the snapshot stores the memory bytes: the text "memory".
pub open spec fn key_memory() -> Seq<u8> {
    seq![0x6du8, 0x65u8, 0x6du8, 0x6fu8, 0x72u8, 0x79u8]
}

fn memory_key() -> (r: Vec<u8>)
    ensures
        r@ == key_memory(),
{
    let mut r: Vec<u8> = Vec::new();
    r.push(0x6d);
    r.push(0x65);
    r.push(0x6d);
    r.push(0x6f);
    r.push(0x72);
    r.push(0x79);
    proof {
        assert(r@ =~= key_memory());
    }
    r
}

/// Overwrite every byte of `buf` with `value`.
fn fill_vec(buf: &mut Vec<u8>, value: u8)
    ensures
        final(buf)@ == Seq::new(old(buf)@.len(), |i: int| value),
{
    let n = buf.len();
    let mut i: usize = 0;
    while i < n
        invariant
            0 <= i <= n,
            n == buf@.len(),
            forall|j: int| 0 <= j < i ==> buf@[j] == value,
        decreases n - i,
    {
        buf[i] = value;
        i = i + 1;
    }
    proof {
        assert(buf@ =~= Seq::new(buf@.len(), |j: int| value));
    }
}

/// Copy the first `count` bytes of `data` into `buf` starting at `at`.
fn copy_into(buf: &mut Vec<u8>, at: usize, data: &Vec<u8>, count: usize)
    requires
        count <= data@.len(),
        at + count <= old(buf)@.len(),
    ensures
        final(buf)@ == old(buf)@.update_subrange_with(at as int, data@.take(count as int)),
{
    let total = buf.len();
    let mut i: usize = 0;
    while i < count
        invariant
            0 <= i <= count,
            count <= data@.len(),
            at + count <= total,
            total == buf@.len(),
            buf@.len() == old(buf)@.len(),
            forall|j: int| at <= j < at + i ==> buf@[j] == data@[j - at],
            forall|j: int| 0 <= j < buf@.len() && !(at <= j < at + i) ==> buf@[j] == old(buf)@[j],
        decreases count - i,
    {
        buf[at + i] = data[i];
        i = i + 1;
    }
    proof {
        assert(buf@ =~= old(buf)@.update_subrange_with(at as int, data@.take(count as int)));
    }
}

/// Relies on rand::rng and rand::Rng::fill_bytes: fills the buffer with
/// bytes from the thread-local generator. Nothing is promised of the bytes
/// themselves; the buffer keeps its length.
#[verifier::external_body]
fn fill_random(buf: &mut Vec<u8>)
    ensures
        final(buf)@.len() == old(buf)@.len(),
{
    rand::rng().fill_bytes(buf.as_mut_slice());
}

impl StandardMemory {
    pub open spec fn start(&self) -> int {
        self.cfg().assigned_range.start as int
    }

    pub open spec fn end(&self) -> int {
        self.cfg().assigned_range.end as int
    }

    pub open spec fn range_len(&self) -> int {
        self.end() - self.start()
    }

    pub closed spec fn cfg(&self) -> StandardMemoryConfig {
        self.config
    }

    pub closed spec fn mem(&self) -> Seq<u8> {
        self.buffer@
    }

    pub closed spec fn rom(&self) -> Seq<u8> {
        self.rom_data@
    }

    /// The observable bytes: the backing buffer cut to the assigned length.
    pub open spec fn contents(&self) -> Seq<u8> {
        self.mem().take(self.range_len())
    }

    pub open spec fn wf(&self) -> bool {
        &&& config_wf(self.cfg())
        &&& self.mem().len() == chunked_len(self.range_len())
        &&& self.range_len() <= self.mem().len()
    }

    /// Build a memory from its configuration; `rom_data` carries the ROM
    /// bytes when the initial contents name a ROM, and is ignored otherwise.
    pub fn from_config(config: StandardMemoryConfig, rom_data: Vec<u8>) -> (r: Self)
        requires
            config_wf(config),
        ensures
            r.wf(),
            r.cfg() == config,
            r.rom() == rom_data@,
            !(config.initial_contents is Random) ==> r.mem() == fresh_buffer_bytes(
                config,
                rom_data@,
            ),
    {
        let len = config.assigned_range.end - config.assigned_range.start;
        let chunks = len / CHUNK_SIZE + if len % CHUNK_SIZE == 0 {
            0
        } else {
            1
        };
        proof {
            lemma_chunked_len_bounds(len as int);
        }
        let total = chunks * CHUNK_SIZE;
        let buffer = vec![0u8; total];
        let mut r = StandardMemory { config, buffer, rom_data };
        proof {
            assert(r.mem() =~= fresh_base(r.cfg()));
        }
        r.initialize_buffer();
        r
    }

    /// Run the configured initialization over the current backing bytes.
    fn initialize_buffer(&mut self)
        requires
            old(self).wf(),
        ensures
            final(self).wf(),
            final(self).cfg() == old(self).cfg(),
            final(self).rom() == old(self).rom(),
            final(self).mem().len() == old(self).mem().len(),
            !(old(self).cfg().initial_contents is Random) ==> final(self).mem() == init_effect(
                old(self).cfg(),
                old(self).rom(),
                old(self).mem(),
            ),
    {
        let start = self.config.assigned_range.start;
        let end = self.config.assigned_range.end;
        match &self.config.initial_contents {
            StandardMemoryInitialContents::Value { value } => {
                fill_vec(&mut self.buffer, *value);
            },
            StandardMemoryInitialContents::Random => {
                fill_random(&mut self.buffer);
            },
            StandardMemoryInitialContents::Array { offset, value } => {
                let at = *offset - start;
                let count = value.len();
                proof {
                    assert(value@.take(value@.len() as int) =~= value@);
                }
                copy_into(&mut self.buffer, at, value, count);
            },
            StandardMemoryInitialContents::Rom { rom_id: _, offset } => {
                let at = *offset - start;
                let room = end - *offset;
                let count = if self.rom_data.len() <= room {
                    self.rom_data.len()
                } else {
                    room
                };
                copy_into(&mut self.buffer, at, &self.rom_data, count);
            },
        }
    }

    /// Leave the memory in its just-constructed observable state: zero the
    /// backing bytes, then run the configured initialization again.
    pub fn reset(&mut self)
        requires
            old(self).wf(),
        ensures
            final(self).wf(),
            final(self).cfg() == old(self).cfg(),
            final(self).rom() == old(self).rom(),
            !(old(self).cfg().initial_contents is Random) ==> final(self).mem()
                == fresh_buffer_bytes(old(self).cfg(), old(self).rom()),
    {
        fill_vec(&mut self.buffer, 0);
        proof {
            assert(self.mem() =~= fresh_base(self.cfg()));
        }
        self.initialize_buffer();
    }

    /// Write without the capability and range checks; the caller must stay
    /// inside the assigned range.
    pub fn write_internal(&mut self, address: usize, buffer: &Vec<u8>)
        requires
            old(self).wf(),
            old(self).start() <= address,
            address + buffer@.len() <= old(self).end(),
        ensures
            final(self).wf(),
            final(self).cfg() == old(self).cfg(),
            final(self).rom() == old(self).rom(),
            final(self).mem() == old(self).mem().update_subrange_with(
                address - old(self).start(),
                buffer@,
            ),
    {
        let at = address - self.config.assigned_range.start;
        let count = buffer.len();
        proof {
            assert(buffer@.take(buffer@.len() as int) =~= buffer@);
        }
        copy_into(&mut self.buffer, at, buffer, count);
    }

    /// Serve a read: report the denied sub-ranges, and fill the buffer when
    /// the whole access is readable and in range.
    pub fn read_memory(
        &self,
        address: usize,
        buffer: &mut Vec<u8>,
        _address_space: AddressSpaceId,
        errors: &mut RangeTable<ReadMemoryRecord>,
    )
        requires
            self.wf(),
            old(errors)@.len() == 0,
            old(buffer)@.len() >= 1,
            address + old(buffer)@.len() <= usize::MAX,
        ensures
            final(errors)@ == std_read_records(
                self.cfg(),
                address as int,
                old(buffer)@.len() as int,
            ),
            final(buffer)@ == match std_fill(
                self.cfg(),
                self.mem(),
                address as int,
                old(buffer)@.len() as int,
            ) {
                Some(d) => d,
                None => old(buffer)@,
            },
            final(buffer)@.len() == old(buffer)@.len(),
    {
        let len = buffer.len();
        let start = self.config.assigned_range.start;
        let end = self.config.assigned_range.end;
        if !self.config.readable {
            let lo = if address + len > end && end < address {
                end
            } else {
                address
            };
            let hi = if address < start && start > address + len {
                start
            } else {
                address + len
            };
            errors.push_entry(lo, hi, ReadMemoryRecord::Denied);
            proof {
                assert(errors@ =~= std_read_records(self.cfg(), address as int, len as int));
            }
            return ;
        }
        let mut any = false;
        if address < start {
            errors.push_entry(address, start, ReadMemoryRecord::Denied);
            any = true;
        }
        if address + len > end {
            errors.push_entry(end, address + len, ReadMemoryRecord::Denied);
            any = true;
        }
        if any {
            proof {
                assert(errors@ =~= std_read_records(self.cfg(), address as int, len as int));
            }
            return ;
        }
        proof {
            assert(errors@ =~= std_read_records(self.cfg(), address as int, len as int));
        }
        self.read_into(address, buffer);
    }

    /// Copy `buffer.len()` bytes out of the backing store; the access must
    /// lie inside the assigned range.
    fn read_into(&self, address: usize, buffer: &mut Vec<u8>)
        requires
            self.wf(),
            self.start() <= address,
            address + old(buffer)@.len() <= self.end(),
        ensures
            final(buffer)@ == self.mem().subrange(
                address - self.start(),
                address - self.start() + old(buffer)@.len(),
            ),
            final(buffer)@.len() == old(buffer)@.len(),
    {
        let len = buffer.len();
        let local = address - self.config.assigned_range.start;
        let mut i: usize = 0;
        while i < len
            invariant
                0 <= i <= len,
                len == buffer@.len(),
                self.wf(),
                local == address - self.start(),
                self.start() <= address,
                address + len <= self.end(),
                forall|j: int| 0 <= j < i ==> buffer@[j] == self.mem()[local + j],
            decreases len - i,
        {
            let b = self.buffer[local + i];
            buffer[i] = b;
            i = i + 1;
        }
        proof {
            assert(buffer@ =~= self.mem().subrange(local as int, local + len));
        }
    }

    /// Serve a write: report the denied sub-ranges, and splice the bytes in
    /// when the whole access is writable and in range.
    pub fn write_memory(
        &mut self,
        address: usize,
        buffer: &Vec<u8>,
        _address_space: AddressSpaceId,
        errors: &mut RangeTable<WriteMemoryRecord>,
    )
        requires
            old(self).wf(),
            old(errors)@.len() == 0,
            buffer@.len() >= 1,
            address + buffer@.len() <= usize::MAX,
        ensures
            final(self).wf(),
            final(self).cfg() == old(self).cfg(),
            final(self).rom() == old(self).rom(),
            final(errors)@ == std_write_records(
                old(self).cfg(),
                address as int,
                buffer@.len() as int,
            ),
            final(self).mem() == std_mem_after_write(
                old(self).cfg(),
                old(self).mem(),
                address as int,
                buffer@,
            ),
    {
        let len = buffer.len();
        let start = self.config.assigned_range.start;
        let end = self.config.assigned_range.end;
        if !self.config.writable {
            let lo = if address + len > end && end < address {
                end
            } else {
                address
            };
            let hi = if address < start && start > address + len {
                start
            } else {
                address + len
            };
            errors.push_entry(lo, hi, WriteMemoryRecord::Denied);
            proof {
                assert(errors@ =~= std_write_records(self.cfg(), address as int, len as int));
            }
            return ;
        }
        let mut any = false;
        if address < start {
            errors.push_entry(address, start, WriteMemoryRecord::Denied);
            any = true;
        }
        if address + len > end {
            errors.push_entry(end, address + len, WriteMemoryRecord::Denied);
            any = true;
        }
        if any {
            proof {
                assert(errors@ =~= std_write_records(self.cfg(), address as int, len as int));
            }
            return ;
        }
        proof {
            assert(errors@ =~= std_write_records(self.cfg(), address as int, len as int));
        }
        self.write_internal(address, buffer);
    }

    /// Serve a preview: a side-effect-free read with the same denial rules.
    pub fn preview_memory(
        &self,
        address: usize,
        buffer: &mut Vec<u8>,
        _address_space: AddressSpaceId,
        errors: &mut RangeTable<PreviewMemoryRecord>,
    )
        requires
            self.wf(),
            old(errors)@.len() == 0,
            old(buffer)@.len() >= 1,
            address + old(buffer)@.len() <= usize::MAX,
        ensures
            final(errors)@ == std_preview_records(
                self.cfg(),
                address as int,
                old(buffer)@.len() as int,
            ),
            final(buffer)@ == match std_fill(
                self.cfg(),
                self.mem(),
                address as int,
                old(buffer)@.len() as int,
            ) {
                Some(d) => d,
                None => old(buffer)@,
            },
            final(buffer)@.len() == old(buffer)@.len(),
    {
        let len = buffer.len();
        let start = self.config.assigned_range.start;
        let end = self.config.assigned_range.end;
        if !self.config.readable {
            let lo = if address + len > end && end < address {
                end
            } else {
                address
            };
            let hi = if address < start && start > address + len {
                start
            } else {
                address + len
            };
            errors.push_entry(lo, hi, PreviewMemoryRecord::Denied);
            proof {
                assert(errors@ =~= std_preview_records(self.cfg(), address as int, len as int));
            }
            return ;
        }
        let mut any = false;
        if address < start {
            errors.push_entry(address, start, PreviewMemoryRecord::Denied);
            any = true;
        }
        if address + len > end {
            errors.push_entry(end, address + len, PreviewMemoryRecord::Denied);
            any = true;
        }
        if any {
            proof {
                assert(errors@ =~= std_preview_records(self.cfg(), address as int, len as int));
            }
            return ;
        }
        proof {
            assert(errors@ =~= std_preview_records(self.cfg(), address as int, len as int));
        }
        self.read_into(address, buffer);
    }

    /// Capture the observable bytes as a one-entry map snapshot.
    pub fn save_snapshot(&self) -> (r: SnapshotValue)
        requires
            self.wf(),
        ensures
            is_bin_map_snapshot(r, key_memory(), self.contents()),
    {
        let len = self.config.assigned_range.end - self.config.assigned_range.start;
        let mut memory: Vec<u8> = Vec::new();
        let mut i: usize = 0;
        while i < len
            invariant
                0 <= i <= len,
                self.wf(),
                len == self.range_len(),
                memory@.len() == i,
                forall|j: int| 0 <= j < i ==> memory@[j] == self.mem()[j],
            decreases len - i,
        {
            let b = self.buffer[i];
            memory.push(b);
            i = i + 1;
        }
        proof {
            assert(memory@ =~= self.contents());
        }
        let state = StandardMemorySnapshot { memory };
        make_bin_map_snapshot(memory_key(), state.memory)
    }

    /// Restore from a snapshot. Succeeds exactly when the value has the
    /// snapshot shape and carries as many bytes as the assigned range holds;
    /// on failure the memory is untouched.
    pub fn load_snapshot(&mut self, state: SnapshotValue) -> (r: bool)
        requires
            old(self).wf(),
        ensures
            final(self).wf(),
            final(self).cfg() == old(self).cfg(),
            final(self).rom() == old(self).rom(),
            match bin_map_payload(state, key_memory()) {
                Some(m) => if m.len() == old(self).range_len() {
                    r && final(self).contents() == m
                } else {
                    !r && *final(self) == *old(self)
                },
                None => !r && *final(self) == *old(self),
            },
    {
        let key = memory_key();
        match take_bin_map_payload(state, &key) {
            Some(memory) => {
                let len = self.config.assigned_range.end - self.config.assigned_range.start;
                if memory.len() != len {
                    return false;
                }
                let count = memory.len();
                proof {
                    assert(memory@.take(count as int) =~= memory@);
                }
                copy_into(&mut self.buffer, 0, &memory, count);
                proof {
                    assert(self.contents() =~= memory@);
                }
                true
            },
            None => false,
        }
    }
}

/// Law: writing `data` and then reading the same addresses returns `data`,
/// for every access size the bus accepts, in a readable and writable memory
/// whose assigned range covers the access.
pub proof fn lemma_read_after_write(
    c: StandardMemoryConfig,
    mem: Seq<u8>,
    addr: int,
    data: Seq<u8>,
)
    requires
        config_wf(c),
        c.readable,
        c.writable,
        crate::valid_access_size(data.len() as int),
        c.assigned_range.start <= addr,
        addr + data.len() <= c.assigned_range.end,
        c.assigned_range.end - c.assigned_range.start <= mem.len(),
    ensures
        std_fill(c, std_mem_after_write(c, mem, addr, data), addr, data.len() as int) == Some(
            data,
        ),
{
    let local = addr - c.assigned_range.start;
    let written = std_mem_after_write(c, mem, addr, data);
    assert(written.subrange(local, local + data.len()) =~= data);
}

/// Law: a write to a non-writable memory leaves every byte unchanged and is
/// reported as a denial of the whole access.
pub proof fn lemma_denial_preservation(
    c: StandardMemoryConfig,
    mem: Seq<u8>,
    addr: int,
    data: Seq<u8>,
)
    requires
        !c.writable,
    ensures
        std_mem_after_write(c, mem, addr, data) == mem,
        std_write_records(c, addr, data.len() as int).len() == 1,
{
}

/// Law: reset is deterministic: two memories with equal configuration and
/// equal ROM bytes hold equal bytes after reset, except when the initial
/// contents are random.
pub proof fn lemma_reset_determinism(
    c1: StandardMemoryConfig,
    rom1: Seq<u8>,
    c2: StandardMemoryConfig,
    rom2: Seq<u8>,
)
    requires
        c1 == c2,
        rom1 == rom2,
        !(c1.initial_contents is Random),
    ensures
        fresh_buffer_bytes(c1, rom1) == fresh_buffer_bytes(c2, rom2),
{
}

/// Law: the snapshot a memory saves restores it exactly: the saved value
/// carries the full observable contents under the "memory" key, and a load
/// of that value succeeds and installs those very bytes.
pub proof fn lemma_standard_snapshot_roundtrip(m: StandardMemory, v: SnapshotValue)
    requires
        m.wf(),
        is_bin_map_snapshot(v, key_memory(), m.contents()),
    ensures
        bin_map_payload(v, key_memory()) == Some(m.contents()),
        m.contents().len() == m.range_len(),
{
}

} // verus!


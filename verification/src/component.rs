use vstd::prelude::*;
use crate::access::{
    AccessRecord, AddressSpaceId, MemoryOperation, PreviewMemoryRecord, ReadMemoryRecord,
    WriteMemoryRecord, preview_entries_as_access, preview_rec_as_access, read_entries_as_access,
    read_rec_as_access, write_entries_as_access, write_rec_as_access,
};
use crate::chip8_display::Chip8Display;
use crate::mirror_memory::{MirrorMemory, mirror_record};
use crate::range_table::RangeTable;
use crate::rom_memory::{
    RomMemory, rom_fill, rom_preview_records, rom_read_records, rom_write_records,
};
use crate::standard_memory::{
    StandardMemory, std_fill, std_mem_after_write, std_preview_records, std_read_records,
    std_write_records,
};

verus! {

/// Opaque dense handle of a component, assigned at build time and stable for
/// the machine's lifetime.
#[derive(Copy, Clone, Debug, PartialEq, Eq, PartialOrd, Ord, Hash)]
pub struct ComponentId(pub usize);

/// Rational frequency, in Hz, at which a schedulable component runs.
#[derive(Copy, Clone, Debug, PartialEq, Eq)]
pub struct Frequency {
    pub numerator: u64,
    pub denominator: u64,
}

/// The component behind a record: capability dispatch is a match on this
/// variant.
#[derive(Debug)]
pub enum ComponentKind {
    Standard(StandardMemory),
    Rom(RomMemory),
    Mirror(MirrorMemory),
    Display(Chip8Display),
}

/// What the store keeps per component: the component itself and the
/// capabilities declared at build time.
#[derive(Debug)]
pub struct ComponentRecord {
    pub component: ComponentKind,
    /// Reachable through the memory translation table.
    pub memory_capable: bool,
    /// Invoked by the scheduler at this frequency, when set.
    pub schedulable: Option<Frequency>,
    /// Offers a framebuffer to the presenter.
    pub display_capable: bool,
}

pub open spec fn kind_wf(k: ComponentKind) -> bool {
    match k {
        ComponentKind::Standard(m) => m.wf(),
        ComponentKind::Rom(m) => m.wf(),
        ComponentKind::Mirror(m) => m.wf(),
        ComponentKind::Display(d) => d.wf(),
    }
}

/// The records a component answers an access with; a component without the
/// memory capability denies, though a well-formed table never routes to one.
pub open spec fn comp_records(k: ComponentKind, op: MemoryOperation, addr: int, len: int) -> Seq<
    (usize, usize, AccessRecord),
> {
    match k {
        ComponentKind::Standard(m) => match op {
            MemoryOperation::Read => read_entries_as_access(std_read_records(m.cfg(), addr, len)),
            MemoryOperation::Write => write_entries_as_access(
                std_write_records(m.cfg(), addr, len),
            ),
            MemoryOperation::Preview => preview_entries_as_access(
                std_preview_records(m.cfg(), addr, len),
            ),
        },
        ComponentKind::Rom(m) => match op {
            MemoryOperation::Read => read_entries_as_access(
                rom_read_records(m.cfg(), m.rom().len() as int, addr, len),
            ),
            MemoryOperation::Write => write_entries_as_access(rom_write_records(addr, len)),
            MemoryOperation::Preview => preview_entries_as_access(
                rom_preview_records(m.cfg(), m.rom().len() as int, addr, len),
            ),
        },
        ComponentKind::Mirror(m) => seq![mirror_record(m.cfg(), addr, len)],
        ComponentKind::Display(_) => seq![
            (addr as usize, (addr + len) as usize, AccessRecord::Denied),
        ],
    }
}

/// What a component writes into the handed buffer: `Some` bytes replacing it
/// whole, or `None` for untouched.
pub open spec fn comp_fill(k: ComponentKind, op: MemoryOperation, addr: int, len: int) -> Option<
    Seq<u8>,
> {
    match k {
        ComponentKind::Standard(m) => match op {
            MemoryOperation::Write => None,
            _ => std_fill(m.cfg(), m.mem(), addr, len),
        },
        ComponentKind::Rom(m) => match op {
            MemoryOperation::Write => None,
            _ => rom_fill(m.cfg(), m.rom(), addr, len),
        },
        _ => None,
    }
}

/// A component's mutable byte state, as the dispatch model threads it.
pub open spec fn comp_mem(k: ComponentKind) -> Seq<u8> {
    match k {
        ComponentKind::Standard(m) => m.mem(),
        _ => Seq::empty(),
    }
}

/// The mutable byte state after an access: only a write to a standard
/// memory changes it.
pub open spec fn comp_mem_after(
    k: ComponentKind,
    mem: Seq<u8>,
    op: MemoryOperation,
    addr: int,
    data: Seq<u8>,
) -> Seq<u8> {
    match k {
        ComponentKind::Standard(m) => match op {
            MemoryOperation::Write => std_mem_after_write(m.cfg(), mem, addr, data),
            _ => mem,
        },
        _ => mem,
    }
}

/// The mutable byte state of every component in store order: what the
/// dispatch model threads through a write.
pub open spec fn store_mems(s: Seq<ComponentRecord>) -> Seq<Seq<u8>> {
    s.map_values(|r: ComponentRecord| comp_mem(r.component))
}

/// Everything of a component record a bus access leaves alone: the
/// capability flags, the configuration, and every component state but a
/// standard memory's bytes.
pub open spec fn same_static(a: ComponentRecord, b: ComponentRecord) -> bool {
    &&& b.memory_capable == a.memory_capable
    &&& b.schedulable == a.schedulable
    &&& b.display_capable == a.display_capable
    &&& match (a.component, b.component) {
        (ComponentKind::Standard(x), ComponentKind::Standard(y)) => y.cfg() == x.cfg() && y.rom()
            == x.rom() && y.mem().len() == x.mem().len(),
        (ComponentKind::Rom(x), ComponentKind::Rom(y)) => y == x,
        (ComponentKind::Mirror(x), ComponentKind::Mirror(y)) => y == x,
        (ComponentKind::Display(x), ComponentKind::Display(y)) => y == x,
        _ => false,
    }
}

pub open spec fn stores_match(a: Seq<ComponentRecord>, b: Seq<ComponentRecord>) -> bool {
    &&& b.len() == a.len()
    &&& forall|i: int| 0 <= i < a.len() ==> same_static(a[i], #[trigger] b[i])
}

pub proof fn lemma_stores_match_trans(
    a: Seq<ComponentRecord>,
    b: Seq<ComponentRecord>,
    c: Seq<ComponentRecord>,
)
    requires
        stores_match(a, b),
        stores_match(b, c),
    ensures
        stores_match(a, c),
{
    assert forall|i: int| 0 <= i < a.len() implies same_static(a[i], #[trigger] c[i]) by {
        assert(same_static(a[i], b[i]));
        assert(same_static(b[i], c[i]));
    }
}

/// Records and write effects depend only on what `same_static` preserves.
pub proof fn lemma_access_static(
    a: ComponentRecord,
    b: ComponentRecord,
    op: MemoryOperation,
    addr: int,
    len: int,
    mem: Seq<u8>,
    data: Seq<u8>,
)
    requires
        same_static(a, b),
    ensures
        comp_records(b.component, op, addr, len) == comp_records(a.component, op, addr, len),
        comp_mem_after(b.component, mem, op, addr, data) == comp_mem_after(
            a.component,
            mem,
            op,
            addr,
            data,
        ),
{
}

fn read_table_as_access(t: RangeTable<ReadMemoryRecord>) -> (r: Vec<(usize, usize, AccessRecord)>)
    ensures
        r@ == read_entries_as_access(t@),
{
    let ghost entries = t@;
    let items = t.into_entries();
    let n = items.len();
    let mut r: Vec<(usize, usize, AccessRecord)> = Vec::new();
    let mut i: usize = 0;
    while i < n
        invariant
            0 <= i <= n,
            n == items@.len(),
            items@ == entries,
            r@.len() == i,
            forall|j: int|
                0 <= j < i ==> r@[j] == (entries[j].0, entries[j].1, read_rec_as_access(
                    entries[j].2,
                )),
        decreases n - i,
    {
        let (s, e, rec) = items[i];
        let a = match rec {
            ReadMemoryRecord::Denied => AccessRecord::Denied,
            ReadMemoryRecord::Redirect { address } => AccessRecord::Redirect { address },
        };
        r.push((s, e, a));
        i = i + 1;
    }
    proof {
        assert(r@ =~= read_entries_as_access(entries));
    }
    r
}

fn write_table_as_access(t: RangeTable<WriteMemoryRecord>) -> (r: Vec<(usize, usize, AccessRecord)>)
    ensures
        r@ == write_entries_as_access(t@),
{
    let ghost entries = t@;
    let items = t.into_entries();
    let n = items.len();
    let mut r: Vec<(usize, usize, AccessRecord)> = Vec::new();
    let mut i: usize = 0;
    while i < n
        invariant
            0 <= i <= n,
            n == items@.len(),
            items@ == entries,
            r@.len() == i,
            forall|j: int|
                0 <= j < i ==> r@[j] == (entries[j].0, entries[j].1, write_rec_as_access(
                    entries[j].2,
                )),
        decreases n - i,
    {
        let (s, e, rec) = items[i];
        let a = match rec {
            WriteMemoryRecord::Denied => AccessRecord::Denied,
            WriteMemoryRecord::Redirect { address } => AccessRecord::Redirect { address },
        };
        r.push((s, e, a));
        i = i + 1;
    }
    proof {
        assert(r@ =~= write_entries_as_access(entries));
    }
    r
}

fn preview_table_as_access(t: RangeTable<PreviewMemoryRecord>) -> (r: Vec<
    (usize, usize, AccessRecord),
>)
    ensures
        r@ == preview_entries_as_access(t@),
{
    let ghost entries = t@;
    let items = t.into_entries();
    let n = items.len();
    let mut r: Vec<(usize, usize, AccessRecord)> = Vec::new();
    let mut i: usize = 0;
    while i < n
        invariant
            0 <= i <= n,
            n == items@.len(),
            items@ == entries,
            r@.len() == i,
            forall|j: int|
                0 <= j < i ==> r@[j] == (entries[j].0, entries[j].1, preview_rec_as_access(
                    entries[j].2,
                )),
        decreases n - i,
    {
        let (s, e, rec) = items[i];
        let a = match rec {
            PreviewMemoryRecord::Denied => AccessRecord::Denied,
            PreviewMemoryRecord::Redirect { address } => AccessRecord::Redirect { address },
            PreviewMemoryRecord::Impossible => AccessRecord::Impossible,
        };
        r.push((s, e, a));
        i = i + 1;
    }
    proof {
        assert(r@ =~= preview_entries_as_access(entries));
    }
    r
}

/// The dense component store: owns every component by value, keyed by
/// `ComponentId`, frozen once the machine is built.
#[derive(Debug)]
pub struct ComponentStore {
    components: Vec<ComponentRecord>,
}

impl View for ComponentStore {
    type V = Seq<ComponentRecord>;

    closed spec fn view(&self) -> Seq<ComponentRecord> {
        self.components@
    }
}

impl ComponentStore {
    pub open spec fn wf(&self) -> bool {
        forall|i: int| 0 <= i < self@.len() ==> kind_wf((#[trigger] self@[i]).component)
    }

    pub fn new() -> (r: Self)
        ensures
            r@ == Seq::<ComponentRecord>::empty(),
            r.wf(),
    {
        let r = ComponentStore { components: Vec::new() };
        proof {
            assert(r@ =~= Seq::<ComponentRecord>::empty());
        }
        r
    }

    pub fn len(&self) -> (n: usize)
        ensures
            n == self@.len(),
    {
        self.components.len()
    }

    /// Add a component at build time; its id is its position.
    pub fn add(&mut self, record: ComponentRecord) -> (id: ComponentId)
        requires
            old(self).wf(),
            kind_wf(record.component),
        ensures
            final(self).wf(),
            final(self)@ == old(self)@.push(record),
            id.0 == old(self)@.len(),
    {
        let id = ComponentId(self.components.len());
        self.components.push(record);
        id
    }

    /// Deliver one access to the component `cid`, returning its records with
    /// the operation kind erased. The component fills or reads the buffer
    /// whole; only a write to a standard memory changes any state.
    pub fn access(
        &mut self,
        cid: usize,
        op: MemoryOperation,
        address: usize,
        buffer: &mut Vec<u8>,
        space: AddressSpaceId,
    ) -> (records: Vec<(usize, usize, AccessRecord)>)
        requires
            old(self).wf(),
            cid < old(self)@.len(),
            old(buffer)@.len() >= 1,
            address + old(buffer)@.len() <= usize::MAX,
        ensures
            final(self).wf(),
            final(self)@.len() == old(self)@.len(),
            stores_match(old(self)@, final(self)@),
            forall|i: int|
                0 <= i < old(self)@.len() && i != cid ==> final(self)@[i] == old(self)@[i],
            records@ == comp_records(
                old(self)@[cid as int].component,
                op,
                address as int,
                old(buffer)@.len() as int,
            ),
            final(buffer)@ == match comp_fill(
                old(self)@[cid as int].component,
                op,
                address as int,
                old(buffer)@.len() as int,
            ) {
                Some(d) => d,
                None => old(buffer)@,
            },
            final(buffer)@.len() == old(buffer)@.len(),
            comp_mem(final(self)@[cid as int].component) == comp_mem_after(
                old(self)@[cid as int].component,
                comp_mem(old(self)@[cid as int].component),
                op,
                address as int,
                old(buffer)@,
            ),
            (op is Read || op is Preview) ==> final(self)@ == old(self)@,
    {
        let ghost old_components = self@;
        let record = self.components.remove(cid);
        let ComponentRecord { component, memory_capable, schedulable, display_capable } = record;
        let len = buffer.len();
        let (component, records): (ComponentKind, Vec<(usize, usize, AccessRecord)>) =
            match component {
            ComponentKind::Standard(mut m) => {
                let recs = match op {
                    MemoryOperation::Read => {
                        let mut errs: RangeTable<ReadMemoryRecord> = RangeTable::new();
                        m.read_memory(address, buffer, space, &mut errs);
                        read_table_as_access(errs)
                    },
                    MemoryOperation::Write => {
                        let mut errs: RangeTable<WriteMemoryRecord> = RangeTable::new();
                        m.write_memory(address, buffer, space, &mut errs);
                        write_table_as_access(errs)
                    },
                    MemoryOperation::Preview => {
                        let mut errs: RangeTable<PreviewMemoryRecord> = RangeTable::new();
                        m.preview_memory(address, buffer, space, &mut errs);
                        preview_table_as_access(errs)
                    },
                };
                (ComponentKind::Standard(m), recs)
            },
            ComponentKind::Rom(m) => {
                let recs = match op {
                    MemoryOperation::Read => {
                        let mut errs: RangeTable<ReadMemoryRecord> = RangeTable::new();
                        m.read_memory(address, buffer, &mut errs);
                        read_table_as_access(errs)
                    },
                    MemoryOperation::Write => {
                        let mut errs: RangeTable<WriteMemoryRecord> = RangeTable::new();
                        m.write_memory(address, buffer, &mut errs);
                        write_table_as_access(errs)
                    },
                    MemoryOperation::Preview => {
                        let mut errs: RangeTable<PreviewMemoryRecord> = RangeTable::new();
                        m.preview_memory(address, buffer, &mut errs);
                        preview_table_as_access(errs)
                    },
                };
                (ComponentKind::Rom(m), recs)
            },
            ComponentKind::Mirror(m) => {
                let recs = match op {
                    MemoryOperation::Read => {
                        let mut errs: RangeTable<ReadMemoryRecord> = RangeTable::new();
                        m.read_memory(address, buffer, space, &mut errs);
                        read_table_as_access(errs)
                    },
                    MemoryOperation::Write => {
                        let mut errs: RangeTable<WriteMemoryRecord> = RangeTable::new();
                        m.write_memory(address, buffer, space, &mut errs);
                        write_table_as_access(errs)
                    },
                    MemoryOperation::Preview => {
                        let mut errs: RangeTable<PreviewMemoryRecord> = RangeTable::new();
                        m.preview_memory(address, buffer, space, &mut errs);
                        preview_table_as_access(errs)
                    },
                };
                (ComponentKind::Mirror(m), recs)
            },
            ComponentKind::Display(d) => {
                let mut recs: Vec<(usize, usize, AccessRecord)> = Vec::new();
                recs.push((address, address + len, AccessRecord::Denied));
                (ComponentKind::Display(d), recs)
            },
        };
        let rebuilt = ComponentRecord { component, memory_capable, schedulable, display_capable };
        self.components.insert(cid, rebuilt);
        proof {
            assert(self@ =~= old_components.update(cid as int, self@[cid as int]));
            if op is Read || op is Preview {
                assert(self@ =~= old_components);
            }
        }
        records
    }

    /// One scheduler tick for component `cid`: a display commits its frame
    /// when it was modified; other components have no scheduled work here.
    pub fn run_schedulable(&mut self, cid: usize, period_ns: u64)
        requires
            old(self).wf(),
            cid < old(self)@.len(),
        ensures
            final(self).wf(),
            final(self)@.len() == old(self)@.len(),
            forall|i: int|
                0 <= i < old(self)@.len() && i != cid ==> final(self)@[i] == old(self)@[i],
            final(self)@[cid as int].memory_capable == old(self)@[cid as int].memory_capable,
            final(self)@[cid as int].schedulable == old(self)@[cid as int].schedulable,
            final(self)@[cid as int].display_capable == old(self)@[cid as int].display_capable,
            match (old(self)@[cid as int].component, final(self)@[cid as int].component) {
                (ComponentKind::Display(a), ComponentKind::Display(b)) => b.fb() == a.fb()
                    && b.cfg() == a.cfg() && !b.is_modified(),
                (a, b) => b == a,
            },
    {
        let ghost old_components = self@;
        let record = self.components.remove(cid);
        let ComponentRecord { component, memory_capable, schedulable, display_capable } = record;
        let component = match component {
            ComponentKind::Display(mut d) => {
                d.run(period_ns);
                ComponentKind::Display(d)
            },
            other => other,
        };
        let rebuilt = ComponentRecord { component, memory_capable, schedulable, display_capable };
        self.components.insert(cid, rebuilt);
        proof {
            assert(self@ =~= old_components.update(cid as int, self@[cid as int]));
        }
    }
}

} // verus!

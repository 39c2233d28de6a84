use vstd::prelude::*;
use crate::access::AddressSpaceId;
use crate::chip8_display::{Chip8Display, Chip8DisplayConfig, DISPLAY_PIXELS};
use crate::component::{
    ComponentId, ComponentKind, ComponentRecord, ComponentStore, Frequency, kind_wf,
};
use crate::memory::{
    MemoryTranslationTable, find_bus_spec, lemma_find_bus_spec_in_range,
    lemma_find_bus_spec_same_ids, pop_tied, pop_valid, ranges_insertable,
};
use crate::mirror_memory::{MirrorMemory, MirrorMemoryConfig, mirror_config_wf};
use crate::range_table::range_overlaps;
use crate::rom_memory::{RomMemory, RomMemoryConfig};
use crate::standard_memory::{
    StandardMemory, StandardMemoryConfig, config_wf, fresh_buffer_bytes,
};

verus! {

/// An assembled machine: its translation table routes every bus access to
/// the components frozen inside it.
#[derive(Debug)]
pub struct Machine {
    pub memory_translation_table: MemoryTranslationTable,
}

/// The fluent assembler: declare the address spaces, add components with
/// their capabilities, then freeze everything with `build`.
#[derive(Debug)]
pub struct MachineBuilder {
    memory_translation_table: MemoryTranslationTable,
    component_store: ComponentStore,
}

impl MachineBuilder {
    pub closed spec fn mtt(&self) -> MemoryTranslationTable {
        self.memory_translation_table
    }

    pub closed spec fn store(&self) -> Seq<ComponentRecord> {
        self.component_store@
    }

    pub open spec fn has_bus(&self, id: AddressSpaceId) -> bool {
        self.mtt().has_bus(id)
    }

    /// The registrations of bus `id` so far.
    pub open spec fn bus_population(&self, id: AddressSpaceId) -> Seq<(usize, usize, ComponentId)> {
        self.mtt().bus_view(id).population@
    }

    /// No registered range of bus `id` touches `[a, b)`.
    pub open spec fn range_free(&self, id: AddressSpaceId, a: int, b: int) -> bool {
        forall|i: int, k: int|
            0 <= i < self.mtt().busses_seq().len() && (#[trigger] self.mtt().busses_seq()[i]).0
                == id && 0 <= k < self.mtt().busses_seq()[i].1.population@.len() ==> {
                let x = #[trigger] self.mtt().busses_seq()[i].1.population@[k];
                b <= x.0 || x.1 <= a
            }
    }

    pub open spec fn wf(&self) -> bool {
        &&& self.mtt().topology_wf()
        &&& forall|i: int|
            0 <= i < self.store().len() ==> kind_wf((#[trigger] self.store()[i]).component)
        &&& forall|i: int|
            0 <= i < self.mtt().busses_seq().len() ==> pop_valid(
                (#[trigger] self.mtt().busses_seq()[i]).1.population@,
                self.store(),
            )
        &&& forall|i: int|
            0 <= i < self.mtt().busses_seq().len() ==> pop_tied(
                (#[trigger] self.mtt().busses_seq()[i]).1.population@,
                self.store(),
            )
    }

    /// Declare an address space with the given width in bits; a tag declared
    /// before keeps its first width.
    pub fn insert_bus(self, id: AddressSpaceId, width: u8) -> (r: Self)
        requires
            self.wf(),
            1 <= width <= 64,
        ensures
            r.wf(),
            r.has_bus(id),
            r.store() == self.store(),
            forall|other: AddressSpaceId| self.has_bus(other) ==> r.has_bus(other),
            self.has_bus(id) ==> r.mtt().busses_seq() == self.mtt().busses_seq(),
            !self.has_bus(id) ==> (r.bus_population(id) == Seq::<
                (usize, usize, ComponentId),
            >::empty() && r.mtt().bus_view(id).width == width),
            forall|other: AddressSpaceId|
                self.has_bus(other) ==> r.bus_population(other) == self.bus_population(other),
    {
        let MachineBuilder { mut memory_translation_table, component_store } = self;
        memory_translation_table.insert_bus(id, width);
        let r = MachineBuilder { memory_translation_table, component_store };
        proof {
            assert forall|i: int| 0 <= i < r.mtt().busses_seq().len() implies pop_valid(
                (#[trigger] r.mtt().busses_seq()[i]).1.population@,
                r.store(),
            ) && pop_tied((#[trigger] r.mtt().busses_seq()[i]).1.population@, r.store()) by {
                if i < self.mtt().busses_seq().len() {
                    assert(r.mtt().busses_seq()[i] == self.mtt().busses_seq()[i]);
                }
            }
            if !self.has_bus(id) {
                lemma_find_bus_spec_in_range(r.mtt().busses_seq(), id);
            }
            assert forall|other: AddressSpaceId| self.has_bus(other) implies r.bus_population(
                other,
            ) == self.bus_population(other) by {
                if self.has_bus(id) {
                } else {
                    lemma_find_bus_spec_in_range(self.mtt().busses_seq(), other);
                    lemma_find_bus_spec_in_range(r.mtt().busses_seq(), other);
                    let i0 = find_bus_spec(self.mtt().busses_seq(), other)->0;
                    assert(r.mtt().busses_seq()[i0] == self.mtt().busses_seq()[i0]);
                    assert(find_bus_spec(r.mtt().busses_seq(), other) == Some(i0)) by {
                        lemma_find_prefix(self.mtt().busses_seq(), r.mtt().busses_seq(), other);
                    }
                }
            }
        }
        r
    }

    fn add_component(&mut self, record: ComponentRecord) -> (id: ComponentId)
        requires
            old(self).wf(),
            kind_wf(record.component),
        ensures
            final(self).wf(),
            final(self).mtt() == old(self).mtt(),
            final(self).store() == old(self).store().push(record),
            id.0 == old(self).store().len(),
    {
        let id = self.component_store.add(record);
        proof {
            assert forall|i: int| 0 <= i < self.mtt().busses_seq().len() implies pop_valid(
                (#[trigger] self.mtt().busses_seq()[i]).1.population@,
                self.store(),
            ) && pop_tied((#[trigger] self.mtt().busses_seq()[i]).1.population@, self.store()) by {
                let pop = self.mtt().busses_seq()[i].1.population@;
                assert(pop_valid(pop, old(self).store()));
                assert(pop_tied(pop, old(self).store()));
                assert forall|k: int| 0 <= k < pop.len() implies ((#[trigger] pop[k]).2.0
                    < self.store().len() && self.store()[pop[k].2.0 as int].memory_capable) by {
                    assert(self.store()[pop[k].2.0 as int] == old(self).store()[pop[k].2.0 as int]);
                }
                assert forall|k: int| 0 <= k < pop.len() implies {
                    let x = #[trigger] pop[k];
                    x.2.0 < self.store().len() ==> match self.store()[x.2.0 as int].component {
                        ComponentKind::Mirror(m) => m.cfg().assigned_range.start <= x.0 && x.1
                            <= m.cfg().assigned_range.end,
                        _ => true,
                    }
                } by {
                    let x = pop[k];
                    if x.2.0 < old(self).store().len() {
                        assert(self.store()[x.2.0 as int] == old(self).store()[x.2.0 as int]);
                    }
                }
            }
        }
        id
    }

    /// Register `[a, b)` on bus `space` as owned by component `id`.
    fn register_range(&mut self, space: AddressSpaceId, id: ComponentId, a: usize, b: usize)
        requires
            old(self).wf(),
            old(self).has_bus(space),
            id.0 < old(self).store().len(),
            old(self).store()[id.0 as int].memory_capable,
            a < b,
            old(self).range_free(space, a as int, b as int),
            match old(self).store()[id.0 as int].component {
                ComponentKind::Mirror(m) => m.cfg().assigned_range.start <= a && b
                    <= m.cfg().assigned_range.end,
                _ => true,
            },
        ensures
            final(self).wf(),
            final(self).store() == old(self).store(),
            forall|other: AddressSpaceId| old(self).has_bus(other) == final(self).has_bus(other),
            final(self).bus_population(space).contains((a, b, id)),
            // every registration is an old one or the new one
            forall|other: AddressSpaceId, k: int|
                old(self).has_bus(other) && 0 <= k < final(self).bus_population(other).len()
                    ==> {
                    let x = #[trigger] final(self).bus_population(other)[k];
                    old(self).bus_population(other).contains(x) || x == (a, b, id)
                },
            // no old registration is lost
            forall|other: AddressSpaceId, k: int|
                old(self).has_bus(other) && 0 <= k < old(self).bus_population(other).len()
                    ==> final(self).bus_population(other).contains(
                    #[trigger] old(self).bus_population(other)[k],
                ),
            final(self).bus_population(space).len() == old(self).bus_population(space).len() + 1,
    {
        let ghost old_busses = self.mtt().busses_seq();
        proof {
            lemma_find_bus_spec_in_range(old_busses, space);
        }
        let mut ranges: Vec<(usize, usize)> = Vec::new();
        ranges.push((a, b));
        proof {
            assert(ranges@ =~= seq![(a, b)]);
            // the single given range is registrable: it is non-empty and the
            // bus is free over it
            let pop = old(self).bus_population(space);
            let i0 = find_bus_spec(old_busses, space)->0;
            assert(old_busses[i0].0 == space);
            assert forall|k: int| 0 <= k < pop.len() implies !range_overlaps(
                (#[trigger] pop[k]).0 as int,
                pop[k].1 as int,
                a as int,
                b as int,
            ) by {
                assert(old_busses[i0].1.population@[k] == pop[k]);
            }
            assert(ranges_insertable(pop, ranges@)) by {
                assert forall|j: int| 0 <= j < ranges@.len() implies {
                    let r = #[trigger] ranges@[j];
                    &&& r.0 < r.1
                    &&& forall|k: int|
                        0 <= k < pop.len() ==> !range_overlaps(
                            (#[trigger] pop[k]).0 as int,
                            pop[k].1 as int,
                            r.0 as int,
                            r.1 as int,
                        )
                    &&& forall|j2: int|
                        0 <= j2 < ranges@.len() && j2 != j ==> !range_overlaps(
                            (#[trigger] ranges@[j2]).0 as int,
                            ranges@[j2].1 as int,
                            r.0 as int,
                            r.1 as int,
                        )
                } by {
                    assert(ranges@[j] == (a, b));
                }
            }
        }
        let registered = self.memory_translation_table.insert_component(space, id, ranges);
        proof {
            let new_busses = self.mtt().busses_seq();
            assert(registered);
            lemma_find_bus_spec_same_ids(old_busses, new_busses, space);
            let i0 = find_bus_spec(old_busses, space)->0;
            lemma_find_bus_spec_in_range(old_busses, space);
            assert(ranges@[0] == (a, b));
            assert(new_busses[i0].1.population@.contains(
                ((ranges@[0]).0, ranges@[0].1, id),
            ));
            assert(new_busses[i0].1.population@.contains((a, b, id)));
            assert forall|other: AddressSpaceId|
                find_bus_spec(old_busses, other) == find_bus_spec(new_busses, other) by {
                lemma_find_bus_spec_same_ids(old_busses, new_busses, other);
            }
            // per-bus view of the positional clauses
            assert forall|other: AddressSpaceId, k: int|
                old(self).has_bus(other) && 0 <= k < self.bus_population(other).len() implies {
                let x = #[trigger] self.bus_population(other)[k];
                old(self).bus_population(other).contains(x) || x == (a, b, id)
            } by {
                lemma_find_bus_spec_in_range(old_busses, other);
                let io = find_bus_spec(old_busses, other)->0;
                let x = new_busses[io].1.population@[k];
                assert(old_busses[io].1.population@.contains(x) || (x.2 == id
                    && ranges@.contains((x.0, x.1))));
                if !old_busses[io].1.population@.contains(x) {
                    let j = choose|j: int| 0 <= j < ranges@.len() && ranges@[j] == (x.0, x.1);
                    assert(ranges@[j] == (a, b));
                }
            }
            assert forall|other: AddressSpaceId, k: int|
                old(self).has_bus(other) && 0 <= k < old(self).bus_population(other).len()
                    implies self.bus_population(other).contains(
                #[trigger] old(self).bus_population(other)[k],
            ) by {
                lemma_find_bus_spec_in_range(old_busses, other);
                let io = find_bus_spec(old_busses, other)->0;
                assert(new_busses[io].1.population@.contains(
                    old_busses[io].1.population@[k],
                ));
            }
            // well-formedness of the grown populations
            assert forall|i: int| 0 <= i < new_busses.len() implies pop_valid(
                (#[trigger] new_busses[i]).1.population@,
                self.store(),
            ) && pop_tied((#[trigger] new_busses[i]).1.population@, self.store()) by {
                let pop = new_busses[i].1.population@;
                let old_pop = old_busses[i].1.population@;
                assert(pop_valid(old_pop, old(self).store()));
                assert(pop_tied(old_pop, old(self).store()));
                assert forall|k: int| 0 <= k < pop.len() implies ((#[trigger] pop[k]).2.0
                    < self.store().len() && self.store()[pop[k].2.0 as int].memory_capable && {
                    let x = pop[k];
                    match self.store()[x.2.0 as int].component {
                        ComponentKind::Mirror(m) => m.cfg().assigned_range.start <= x.0 && x.1
                            <= m.cfg().assigned_range.end,
                        _ => true,
                    }
                }) by {
                    let x = pop[k];
                    if old_pop.contains(x) {
                        let kk = choose|kk: int| 0 <= kk < old_pop.len() && old_pop[kk] == x;
                        assert(old_pop[kk].2.0 < old(self).store().len());
                    } else {
                        assert(x.2 == id && (x.0, x.1) == (a, b));
                    }
                }
            }
        }
    }

    /// Add a standard RAM/ROM backing store and register it over its
    /// assigned range. `rom_data` carries the ROM image when the initial
    /// contents name one.
    pub fn build_standard_memory(self, config: StandardMemoryConfig, rom_data: Vec<u8>) -> (r: (
        Self,
        ComponentId,
    ))
        requires
            self.wf(),
            config_wf(config),
            self.has_bus(config.assigned_address_space),
            self.range_free(
                config.assigned_address_space,
                config.assigned_range.start as int,
                config.assigned_range.end as int,
            ),
        ensures
            r.0.wf(),
            r.1.0 == self.store().len(),
            r.0.store().len() == self.store().len() + 1,
            forall|i: int| 0 <= i < self.store().len() ==> r.0.store()[i] == self.store()[i],
            ({
                let rec = r.0.store()[r.1.0 as int];
                &&& rec.memory_capable
                &&& rec.schedulable is None
                &&& !rec.display_capable
                &&& match rec.component {
                    ComponentKind::Standard(m) => m.wf() && m.cfg() == config && m.rom()
                        == rom_data@ && (!(config.initial_contents is Random) ==> m.mem()
                        == fresh_buffer_bytes(config, rom_data@)),
                    _ => false,
                }
            }),
            r.0.bus_population(config.assigned_address_space).contains(
                (config.assigned_range.start, config.assigned_range.end, r.1),
            ),
            forall|other: AddressSpaceId, k: int|
                self.has_bus(other) && 0 <= k < r.0.bus_population(other).len() ==> {
                    let x = #[trigger] r.0.bus_population(other)[k];
                    self.bus_population(other).contains(x) || x == (
                        config.assigned_range.start,
                        config.assigned_range.end,
                        r.1,
                    )
                },
            forall|other: AddressSpaceId, k: int|
                self.has_bus(other) && 0 <= k < self.bus_population(other).len() ==> r.0.bus_population(
                    other,
                ).contains(#[trigger] self.bus_population(other)[k]),
            forall|other: AddressSpaceId| self.has_bus(other) == r.0.has_bus(other),
    {
        let mut b = self;
        let space = config.assigned_address_space;
        let lo = config.assigned_range.start;
        let hi = config.assigned_range.end;
        let m = StandardMemory::from_config(config, rom_data);
        let record = ComponentRecord {
            component: ComponentKind::Standard(m),
            memory_capable: true,
            schedulable: None,
            display_capable: false,
        };
        let id = b.add_component(record);
        let ghost mid = b;
        b.register_range(space, id, lo, hi);
        proof {
            assert(mid.mtt() == self.mtt());
            assert forall|other: AddressSpaceId, k: int|
                self.has_bus(other) && 0 <= k < b.bus_population(other).len() implies {
                let x = #[trigger] b.bus_population(other)[k];
                self.bus_population(other).contains(x) || x == (lo, hi, id)
            } by {
                assert(mid.bus_population(other) == self.bus_population(other));
                assert(mid.has_bus(other) == self.has_bus(other));
                let x = b.bus_population(other)[k];
                assert(mid.bus_population(other).contains(x) || x == (lo, hi, id));
            }
            assert forall|other: AddressSpaceId, k: int|
                self.has_bus(other) && 0 <= k < self.bus_population(other).len()
                    implies b.bus_population(other).contains(
                #[trigger] self.bus_population(other)[k],
            ) by {
                assert(mid.bus_population(other) == self.bus_population(other));
                assert(mid.has_bus(other) == self.has_bus(other));
                assert(b.bus_population(other).contains(mid.bus_population(other)[k]));
            }
        }
        (b, id)
    }

    /// Add a read-only memory over the image bytes the program read; as in
    /// the surrounding design, a ROM does not register bus ranges itself.
    pub fn build_rom_memory(self, config: RomMemoryConfig, rom: Vec<u8>) -> (r: (Self, ComponentId))
        requires
            self.wf(),
            config.assigned_range.start <= config.assigned_range.end,
            config.assigned_range.start + rom@.len() <= usize::MAX,
        ensures
            r.0.wf(),
            r.1.0 == self.store().len(),
            r.0.store().len() == self.store().len() + 1,
            forall|i: int| 0 <= i < self.store().len() ==> r.0.store()[i] == self.store()[i],
            ({
                let rec = r.0.store()[r.1.0 as int];
                &&& rec.memory_capable
                &&& rec.schedulable is None
                &&& !rec.display_capable
                &&& match rec.component {
                    ComponentKind::Rom(m) => m.wf() && m.cfg() == config && m.rom() == rom@,
                    _ => false,
                }
            }),
            r.0.mtt() == self.mtt(),
            forall|other: AddressSpaceId| self.has_bus(other) ==> r.0.has_bus(other),
    {
        let mut b = self;
        let m = RomMemory::from_config(config, rom);
        let record = ComponentRecord {
            component: ComponentKind::Rom(m),
            memory_capable: true,
            schedulable: None,
            display_capable: false,
        };
        let id = b.add_component(record);
        (b, id)
    }

    /// Add a mirror that redirects its range onto a disjoint target region,
    /// and register it over its configured range.
    pub fn build_mirror_memory(self, config: MirrorMemoryConfig) -> (r: (Self, ComponentId))
        requires
            self.wf(),
            mirror_config_wf(config),
            self.has_bus(config.assigned_address_space),
            self.range_free(
                config.assigned_address_space,
                config.assigned_range.start as int,
                config.assigned_range.end as int,
            ),
        ensures
            r.0.wf(),
            r.1.0 == self.store().len(),
            r.0.store().len() == self.store().len() + 1,
            forall|i: int| 0 <= i < self.store().len() ==> r.0.store()[i] == self.store()[i],
            ({
                let rec = r.0.store()[r.1.0 as int];
                &&& rec.memory_capable
                &&& rec.schedulable is None
                &&& !rec.display_capable
                &&& match rec.component {
                    ComponentKind::Mirror(m) => m.wf() && m.cfg() == config,
                    _ => false,
                }
            }),
            r.0.bus_population(config.assigned_address_space).contains(
                (config.assigned_range.start, config.assigned_range.end, r.1),
            ),
            forall|other: AddressSpaceId, k: int|
                self.has_bus(other) && 0 <= k < r.0.bus_population(other).len() ==> {
                    let x = #[trigger] r.0.bus_population(other)[k];
                    self.bus_population(other).contains(x) || x == (
                        config.assigned_range.start,
                        config.assigned_range.end,
                        r.1,
                    )
                },
            forall|other: AddressSpaceId, k: int|
                self.has_bus(other) && 0 <= k < self.bus_population(other).len() ==> r.0.bus_population(
                    other,
                ).contains(#[trigger] self.bus_population(other)[k]),
            forall|other: AddressSpaceId| self.has_bus(other) == r.0.has_bus(other),
    {
        let mut b = self;
        let space = config.assigned_address_space;
        let lo = config.assigned_range.start;
        let hi = config.assigned_range.end;
        let m = MirrorMemory::from_config(config);
        let record = ComponentRecord {
            component: ComponentKind::Mirror(m),
            memory_capable: true,
            schedulable: None,
            display_capable: false,
        };
        let id = b.add_component(record);
        let ghost mid = b;
        b.register_range(space, id, lo, hi);
        proof {
            assert(mid.mtt() == self.mtt());
            assert forall|other: AddressSpaceId, k: int|
                self.has_bus(other) && 0 <= k < b.bus_population(other).len() implies {
                let x = #[trigger] b.bus_population(other)[k];
                self.bus_population(other).contains(x) || x == (lo, hi, id)
            } by {
                assert(mid.bus_population(other) == self.bus_population(other));
                assert(mid.has_bus(other) == self.has_bus(other));
                let x = b.bus_population(other)[k];
                assert(mid.bus_population(other).contains(x) || x == (lo, hi, id));
            }
            assert forall|other: AddressSpaceId, k: int|
                self.has_bus(other) && 0 <= k < self.bus_population(other).len()
                    implies b.bus_population(other).contains(
                #[trigger] self.bus_population(other)[k],
            ) by {
                assert(mid.bus_population(other) == self.bus_population(other));
                assert(mid.has_bus(other) == self.has_bus(other));
                assert(b.bus_population(other).contains(mid.bus_population(other)[k]));
            }
        }
        (b, id)
    }

    /// Add a CHIP-8 display: schedulable at 60 Hz for its frame commits, and
    /// a display for the presenter; it owns no bus ranges.
    pub fn build_chip8_display(self, config: Chip8DisplayConfig) -> (r: (Self, ComponentId))
        requires
            self.wf(),
        ensures
            r.0.wf(),
            r.1.0 == self.store().len(),
            r.0.store().len() == self.store().len() + 1,
            forall|i: int| 0 <= i < self.store().len() ==> r.0.store()[i] == self.store()[i],
            ({
                let rec = r.0.store()[r.1.0 as int];
                &&& !rec.memory_capable
                &&& rec.schedulable == Some(Frequency { numerator: 60u64, denominator: 1u64 })
                &&& rec.display_capable
                &&& match rec.component {
                    ComponentKind::Display(d) => d.wf() && d.cfg() == config && !d.is_initialized()
                        && !d.is_modified() && d.fb() == Seq::new(
                        DISPLAY_PIXELS as nat,
                        |k: int| false,
                    ),
                    _ => false,
                }
            }),
            r.0.mtt() == self.mtt(),
            forall|other: AddressSpaceId| self.has_bus(other) ==> r.0.has_bus(other),
    {
        let mut b = self;
        let d = Chip8Display::from_config(config);
        let record = ComponentRecord {
            component: ComponentKind::Display(d),
            memory_capable: false,
            schedulable: Some(Frequency { numerator: 60, denominator: 1 }),
            display_capable: true,
        };
        let id = b.add_component(record);
        (b, id)
    }

    /// Freeze the store and install it into the translation table; the
    /// topology is immutable afterwards.
    pub fn build(self) -> (r: Machine)
        requires
            self.wf(),
        ensures
            r.memory_translation_table.wf(),
            r.memory_translation_table.store_seq() == self.store(),
            r.memory_translation_table.busses_seq() == self.mtt().busses_seq(),
            forall|other: AddressSpaceId|
                self.has_bus(other) ==> r.memory_translation_table.has_bus(other),
    {
        let MachineBuilder { mut memory_translation_table, component_store } = self;
        memory_translation_table.set_component_store(component_store);
        Machine { memory_translation_table }
    }
}

/// Appending busses does not move the ones already found.
proof fn lemma_find_prefix(
    s1: Seq<(AddressSpaceId, crate::memory::BusInfo)>,
    s2: Seq<(AddressSpaceId, crate::memory::BusInfo)>,
    id: AddressSpaceId,
)
    requires
        s1.len() <= s2.len(),
        forall|i: int| 0 <= i < s1.len() ==> #[trigger] s2[i] == s1[i],
        find_bus_spec(s1, id) is Some,
    ensures
        find_bus_spec(s2, id) == find_bus_spec(s1, id),
    decreases s1.len(),
{
    if s1.len() > 0 {
        assert(s2[0] == s1[0]);
        if s1[0].0 != id {
            assert forall|i: int| 0 <= i < s1.drop_first().len() implies #[trigger] s2.drop_first()[i]
                == s1.drop_first()[i] by {
                assert(s2.drop_first()[i] == s2[i + 1]);
                assert(s1.drop_first()[i] == s1[i + 1]);
            }
            lemma_find_prefix(s1.drop_first(), s2.drop_first(), id);
        }
    }
}

impl Machine {
    /// Start assembling a machine.
    pub fn build() -> (r: MachineBuilder)
        ensures
            r.wf(),
            r.store().len() == 0,
            r.mtt().busses_seq().len() == 0,
    {
        MachineBuilder {
            memory_translation_table: MemoryTranslationTable::new(),
            component_store: ComponentStore::new(),
        }
    }
}

} // verus!

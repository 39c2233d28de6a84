use vstd::prelude::*;
use vstd::arithmetic::power2::{pow2, lemma_pow2_pos, lemma2_to64};
use vstd::arithmetic::div_mod::{lemma_mod_twice, lemma_small_mod};
use vstd::bits::{
    lemma_u64_low_bits_mask_is_mod, lemma_u64_pow2_no_overflow, lemma_u64_shl_is_mul,
    low_bits_mask,
};
use crate::access::{
    AccessFailure, AccessRecord, AddressSpaceId, MemoryOperation, PreviewMemoryOperationError,
    PreviewMemoryOperationErrorFailureType, ReadMemoryOperationError,
    ReadMemoryOperationErrorFailureType, WriteMemoryOperationError,
    WriteMemoryOperationErrorFailureType, fails_as_preview, fails_as_read, fails_as_write,
};
use crate::component::{
    ComponentId, ComponentKind, ComponentRecord, ComponentStore, comp_fill, comp_mem,
    comp_mem_after, comp_records, kind_wf, lemma_access_static, lemma_stores_match_trans,
    same_static, store_mems, stores_match,
};
use crate::range_table::{
    RangeTable, entries_wf, lemma_seq_overlapping_elems, lemma_seq_overlapping_empty,
    lemma_seq_overlapping_len, range_overlaps, seq_overlapping,
};
use crate::access::{ReadMemoryRecord, WriteMemoryRecord};
use crate::mirror_memory::{MirrorMemory, mirror_config_wf, mirror_record, mirror_target};
use crate::standard_memory::{StandardMemory, std_read_records, std_write_records, std_mem_after_write};

verus! {

/// One address space of the machine: its bit width and which component owns
/// which address range.
#[derive(Debug)]
pub struct BusInfo {
    /// The registered owners: disjoint half-open ranges, each mapping to a
    /// component id.
    pub population: RangeTable<ComponentId>,
    /// Bus width in bits, 1 through 64; addresses are truncated to it.
    pub width: u8,
}

/// Routes every bus access: truncates the address to the bus width, delivers
/// the access to each component whose registered range overlaps it, resolves
/// redirects transitively under a hop budget, and reports every failed
/// sub-range.
#[derive(Debug)]
pub struct MemoryTranslationTable {
    busses: Vec<(AddressSpaceId, BusInfo)>,
    component_store: ComponentStore,
    store_installed: bool,
}

/// Every registered owner is a component the store holds, with the memory
/// capability declared.
pub open spec fn pop_valid(
    pop: Seq<(usize, usize, ComponentId)>,
    store: Seq<ComponentRecord>,
) -> bool {
    forall|i: int|
        0 <= i < pop.len() ==> ((#[trigger] pop[i]).2.0 < store.len()
            && store[pop[i].2.0 as int].memory_capable)
}

/// Every registered range of a mirror lies inside the mirror's configured
/// range. Together with the mirror's own invariant — its target region is
/// disjoint from its configured range — no component of a well-formed table
/// can redirect into its own registration: a redirect to self is a
/// programmer error the invariant rules out, never a machine error the
/// caller could see.
pub open spec fn pop_tied(
    pop: Seq<(usize, usize, ComponentId)>,
    store: Seq<ComponentRecord>,
) -> bool {
    forall|k: int|
        0 <= k < pop.len() ==> {
            let x = #[trigger] pop[k];
            x.2.0 < store.len() ==> match store[x.2.0 as int].component {
                ComponentKind::Mirror(m) => m.cfg().assigned_range.start <= x.0 && x.1
                    <= m.cfg().assigned_range.end,
                _ => true,
            }
        }
}

/// No given range is empty, touches an existing registration, or touches
/// another given range: the condition under which a registration call
/// succeeds in full.
pub open spec fn ranges_insertable(
    pop: Seq<(usize, usize, ComponentId)>,
    ranges: Seq<(usize, usize)>,
) -> bool {
    forall|j: int|
        0 <= j < ranges.len() ==> {
            let r = #[trigger] ranges[j];
            &&& r.0 < r.1
            &&& forall|k: int|
                0 <= k < pop.len() ==> !range_overlaps(
                    (#[trigger] pop[k]).0 as int,
                    pop[k].1 as int,
                    r.0 as int,
                    r.1 as int,
                )
            &&& forall|j2: int|
                0 <= j2 < ranges.len() && j2 != j ==> !range_overlaps(
                    (#[trigger] ranges[j2]).0 as int,
                    ranges[j2].1 as int,
                    r.0 as int,
                    r.1 as int,
                )
        }
}

/// What dispatch relies on for each overlapping entry it processes.
pub open spec fn entry_ok(
    x: (usize, usize, ComponentId),
    store: Seq<ComponentRecord>,
    lo: int,
    hi: int,
) -> bool {
    &&& x.0 < x.1
    &&& range_overlaps(x.0 as int, x.1 as int, lo, hi)
    &&& x.2.0 < store.len()
}

/// The address an access uses once truncated to the bus width.
pub open spec fn spec_mask(addr: int, width: int) -> int {
    addr % (pow2(width as nat) as int)
}

/// Truncate an address to the bus width by clearing the higher bits.
fn mask_address(address: usize, width: u8) -> (r: usize)
    requires
        1 <= width <= 64,
    ensures
        r as int == spec_mask(address as int, width as int),
        r <= address,
{
    let a64 = address as u64;
    if width >= 64 {
        proof {
            lemma2_to64();
            assert(pow2(64) == 0x10000000000000000);
            lemma_small_mod(address as nat, pow2(64));
        }
        address
    } else {
        proof {
            lemma_u64_pow2_no_overflow(width as nat);
            lemma_u64_shl_is_mul(1u64, width as u64);
            lemma_u64_low_bits_mask_is_mod(a64, width as nat);
            lemma_pow2_pos(width as nat);
        }
        let m = (1u64 << (width as u64)) - 1;
        let masked = a64 & m;
        proof {
            assert(m == low_bits_mask(width as nat) as u64);
            assert(masked == a64 % (pow2(width as nat) as u64));
            assert(a64 & m <= a64) by (bit_vector);
        }
        masked as usize
    }
}

/// The failing sub-ranges one component's records contribute: denials and
/// impossibilities as reported, and a redirect pointing back into the
/// component's own registered range as a denial.
pub open spec fn hard_failures(
    records: Seq<(usize, usize, AccessRecord)>,
    cs: int,
    ce: int,
) -> Seq<(usize, usize, AccessFailure)>
    decreases records.len(),
{
    if records.len() == 0 {
        Seq::empty()
    } else {
        let rest = hard_failures(records.drop_first(), cs, ce);
        let r = records[0];
        match r.2 {
            AccessRecord::Denied => seq![(r.0, r.1, AccessFailure::Denied)] + rest,
            AccessRecord::Impossible => seq![(r.0, r.1, AccessFailure::Impossible)] + rest,
            AccessRecord::Redirect { address } => if cs <= address < ce {
                seq![(r.0, r.1, AccessFailure::Denied)] + rest
            } else {
                rest
            },
        }
    }
}

/// The redirects one component's records ask for, own-range redirects
/// excluded (those are hard failures).
pub open spec fn redirect_list(
    records: Seq<(usize, usize, AccessRecord)>,
    cs: int,
    ce: int,
) -> Seq<(usize, usize, usize)>
    decreases records.len(),
{
    if records.len() == 0 {
        Seq::empty()
    } else {
        let rest = redirect_list(records.drop_first(), cs, ce);
        let r = records[0];
        match r.2 {
            AccessRecord::Redirect { address } => if cs <= address < ce {
                rest
            } else {
                seq![(r.0, r.1, address)] + rest
            },
            _ => rest,
        }
    }
}

pub proof fn lemma_hard_failures_push(
    s: Seq<(usize, usize, AccessRecord)>,
    x: (usize, usize, AccessRecord),
    cs: int,
    ce: int,
)
    ensures
        hard_failures(s.push(x), cs, ce) == (match x.2 {
            AccessRecord::Denied => hard_failures(s, cs, ce).push((x.0, x.1, AccessFailure::Denied)),
            AccessRecord::Impossible => hard_failures(s, cs, ce).push(
                (x.0, x.1, AccessFailure::Impossible),
            ),
            AccessRecord::Redirect { address } => if cs <= address < ce {
                hard_failures(s, cs, ce).push((x.0, x.1, AccessFailure::Denied))
            } else {
                hard_failures(s, cs, ce)
            },
        }),
        redirect_list(s.push(x), cs, ce) == (match x.2 {
            AccessRecord::Redirect { address } => if cs <= address < ce {
                redirect_list(s, cs, ce)
            } else {
                redirect_list(s, cs, ce).push((x.0, x.1, address))
            },
            _ => redirect_list(s, cs, ce),
        }),
    decreases s.len(),
{
    if s.len() == 0 {
        assert(s.push(x)[0] == x);
        assert(s.push(x).drop_first() =~= Seq::<(usize, usize, AccessRecord)>::empty());
        assert(hard_failures(s.push(x).drop_first(), cs, ce) =~= Seq::<
            (usize, usize, AccessFailure),
        >::empty());
        assert(redirect_list(s.push(x).drop_first(), cs, ce) =~= Seq::<
            (usize, usize, usize),
        >::empty());
        match x.2 {
            AccessRecord::Denied => {
                assert(hard_failures(s.push(x), cs, ce) =~= hard_failures(s, cs, ce).push(
                    (x.0, x.1, AccessFailure::Denied),
                ));
                assert(redirect_list(s.push(x), cs, ce) =~= redirect_list(s, cs, ce));
            },
            AccessRecord::Impossible => {
                assert(hard_failures(s.push(x), cs, ce) =~= hard_failures(s, cs, ce).push(
                    (x.0, x.1, AccessFailure::Impossible),
                ));
                assert(redirect_list(s.push(x), cs, ce) =~= redirect_list(s, cs, ce));
            },
            AccessRecord::Redirect { address } => {
                if cs <= address < ce {
                    assert(hard_failures(s.push(x), cs, ce) =~= hard_failures(s, cs, ce).push(
                        (x.0, x.1, AccessFailure::Denied),
                    ));
                    assert(redirect_list(s.push(x), cs, ce) =~= redirect_list(s, cs, ce));
                } else {
                    assert(hard_failures(s.push(x), cs, ce) =~= hard_failures(s, cs, ce));
                    assert(redirect_list(s.push(x), cs, ce) =~= redirect_list(s, cs, ce).push(
                        (x.0, x.1, address),
                    ));
                }
            },
        }
    } else {
        assert(s.push(x).drop_first() =~= s.drop_first().push(x));
        lemma_hard_failures_push(s.drop_first(), x, cs, ce);
        assert(s.push(x)[0] == s[0]);
        match x.2 {
            AccessRecord::Denied => {
                assert(hard_failures(s.push(x), cs, ce) =~= hard_failures(s, cs, ce).push(
                    (x.0, x.1, AccessFailure::Denied),
                ));
                assert(redirect_list(s.push(x), cs, ce) =~= redirect_list(s, cs, ce));
            },
            AccessRecord::Impossible => {
                assert(hard_failures(s.push(x), cs, ce) =~= hard_failures(s, cs, ce).push(
                    (x.0, x.1, AccessFailure::Impossible),
                ));
                assert(redirect_list(s.push(x), cs, ce) =~= redirect_list(s, cs, ce));
            },
            AccessRecord::Redirect { address } => {
                if cs <= address < ce {
                    assert(hard_failures(s.push(x), cs, ce) =~= hard_failures(s, cs, ce).push(
                        (x.0, x.1, AccessFailure::Denied),
                    ));
                    assert(redirect_list(s.push(x), cs, ce) =~= redirect_list(s, cs, ce));
                } else {
                    assert(hard_failures(s.push(x), cs, ce) =~= hard_failures(s, cs, ce));
                    assert(redirect_list(s.push(x), cs, ce) =~= redirect_list(s, cs, ce).push(
                        (x.0, x.1, address),
                    ));
                }
            },
        }
    }
}

/// The failures a component itself reports: its denials and
/// impossibilities, with redirects left aside.
pub open spec fn reported_failures(records: Seq<(usize, usize, AccessRecord)>) -> Seq<
    (usize, usize, AccessFailure),
>
    decreases records.len(),
{
    if records.len() == 0 {
        Seq::empty()
    } else {
        let rest = reported_failures(records.drop_first());
        let r = records[0];
        match r.2 {
            AccessRecord::Denied => seq![(r.0, r.1, AccessFailure::Denied)] + rest,
            AccessRecord::Impossible => seq![(r.0, r.1, AccessFailure::Impossible)] + rest,
            AccessRecord::Redirect { address: _ } => rest,
        }
    }
}

/// When no record redirects into the owner's own range `[cs, ce)`, the hard
/// failures are exactly what the component itself reported.
pub proof fn lemma_hard_failures_no_self_redirect(
    records: Seq<(usize, usize, AccessRecord)>,
    cs: int,
    ce: int,
)
    requires
        forall|i: int|
            0 <= i < records.len() ==> match (#[trigger] records[i]).2 {
                AccessRecord::Redirect { address } => !(cs <= address < ce),
                _ => true,
            },
    ensures
        hard_failures(records, cs, ce) == reported_failures(records),
    decreases records.len(),
{
    if records.len() > 0 {
        assert forall|i: int|
            0 <= i < records.drop_first().len() implies match (#[trigger] records.drop_first()[i]).2 {
            AccessRecord::Redirect { address } => !(cs <= address < ce),
            _ => true,
        } by {
            assert(records.drop_first()[i] == records[i + 1]);
        }
        lemma_hard_failures_no_self_redirect(records.drop_first(), cs, ce);
    }
}

/// The records component `cid` answers with; an owner the store does not
/// hold answers nothing (a well-formed table has none).
pub open spec fn op_records(
    store: Seq<ComponentRecord>,
    cid: int,
    op: MemoryOperation,
    addr: int,
    len: int,
) -> Seq<(usize, usize, AccessRecord)> {
    if 0 <= cid < store.len() {
        comp_records(store[cid].component, op, addr, len)
    } else {
        Seq::empty()
    }
}

/// What component `cid` puts into the handed buffer.
pub open spec fn op_fill(
    store: Seq<ComponentRecord>,
    cid: int,
    op: MemoryOperation,
    addr: int,
    len: int,
) -> Option<Seq<u8>> {
    if 0 <= cid < store.len() {
        comp_fill(store[cid].component, op, addr, len)
    } else {
        None
    }
}

/// The threaded byte states after component `cid` served the access.
pub open spec fn mems_updated(
    mems: Seq<Seq<u8>>,
    store: Seq<ComponentRecord>,
    cid: int,
    op: MemoryOperation,
    addr: int,
    data: Seq<u8>,
) -> Seq<Seq<u8>> {
    if 0 <= cid < store.len() && 0 <= cid < mems.len() {
        mems.update(cid, comp_mem_after(store[cid].component, mems[cid], op, addr, data))
    } else {
        mems
    }
}

/// Outcome of a dispatch step: the buffer bytes, the threaded component
/// byte states, and the failure map if the operation aborted.
pub type DispatchOutcome = (Seq<u8>, Seq<Seq<u8>>, Option<Seq<(usize, usize, AccessFailure)>>);

/// One sub-access at `base` over buffer positions `s..e`: deliver it to
/// every overlapping owner in address order.
pub open spec fn spec_dispatch(
    store: Seq<ComponentRecord>,
    mems: Seq<Seq<u8>>,
    pop: Seq<(usize, usize, ComponentId)>,
    op: MemoryOperation,
    base: int,
    s: int,
    e: int,
    buf: Seq<u8>,
    budget: nat,
) -> DispatchOutcome
    decreases budget, pop.len() + 1, 1int, 0int,
        via spec_dispatch_decreases
{
    spec_dispatch_comps(
        store,
        mems,
        pop,
        op,
        base,
        s,
        e,
        buf,
        budget,
        seq_overlapping(pop, base + s, base + e),
    )
}

#[via_fn]
proof fn spec_dispatch_decreases(
    store: Seq<ComponentRecord>,
    mems: Seq<Seq<u8>>,
    pop: Seq<(usize, usize, ComponentId)>,
    op: MemoryOperation,
    base: int,
    s: int,
    e: int,
    buf: Seq<u8>,
    budget: nat,
) {
    lemma_seq_overlapping_len(pop, base + s, base + e);
}

/// Serve the overlapping owners one by one: fill or write through the
/// component, abort on its hard failures, then follow its redirects before
/// moving to the next owner.
pub open spec fn spec_dispatch_comps(
    store: Seq<ComponentRecord>,
    mems: Seq<Seq<u8>>,
    pop: Seq<(usize, usize, ComponentId)>,
    op: MemoryOperation,
    base: int,
    s: int,
    e: int,
    buf: Seq<u8>,
    budget: nat,
    comps: Seq<(usize, usize, ComponentId)>,
) -> DispatchOutcome
    decreases budget, comps.len(), 1int, 0int,
{
    if comps.len() == 0 {
        (buf, mems, None)
    } else {
        let entry = comps[0];
        let cs = entry.0 as int;
        let ce = entry.1 as int;
        let cid = entry.2.0 as int;
        let addr = if base + s >= cs {
            base + s
        } else {
            cs
        };
        let len = e - s;
        let records = op_records(store, cid, op, addr, len);
        let buf1 = match op_fill(store, cid, op, addr, len) {
            Some(d) => buf.update_subrange_with(s, d),
            None => buf,
        };
        let mems1 = mems_updated(mems, store, cid, op, addr, buf.subrange(s, e));
        let hard = hard_failures(records, cs, ce);
        if hard.len() > 0 {
            (buf1, mems1, Some(hard))
        } else {
            spec_dispatch_redirects(
                store,
                mems1,
                pop,
                op,
                base,
                s,
                e,
                buf1,
                budget,
                redirect_list(records, cs, ce),
                comps.drop_first(),
            )
        }
    }
}

/// Follow one owner's redirects in record order: each consumes a hop of the
/// budget and re-dispatches its sub-range at the redirect base; a spent
/// budget refuses the redirect as out-of-bus.
pub open spec fn spec_dispatch_redirects(
    store: Seq<ComponentRecord>,
    mems: Seq<Seq<u8>>,
    pop: Seq<(usize, usize, ComponentId)>,
    op: MemoryOperation,
    base: int,
    s: int,
    e: int,
    buf: Seq<u8>,
    budget: nat,
    redirects: Seq<(usize, usize, usize)>,
    rest: Seq<(usize, usize, ComponentId)>,
) -> DispatchOutcome
    decreases budget, rest.len() + 1, 0int, redirects.len(),
{
    if redirects.len() == 0 {
        spec_dispatch_comps(store, mems, pop, op, base, s, e, buf, budget, rest)
    } else {
        let rd = redirects[0];
        let rs = rd.0 as int;
        let re = rd.1 as int;
        let a = rd.2 as int;
        if budget == 0 {
            (buf, mems, Some(seq![(rd.0, rd.1, AccessFailure::OutOfBus)]))
        } else if !(base <= rs && rs < re && re - base <= buf.len()) {
            (buf, mems, Some(seq![(rd.0, rd.1, AccessFailure::Denied)]))
        } else if a + (re - base) + 16 > usize::MAX {
            (buf, mems, Some(seq![(rd.0, rd.1, AccessFailure::OutOfBus)]))
        } else {
            let sub = spec_dispatch(
                store,
                mems,
                pop,
                op,
                a,
                rs - base,
                re - base,
                buf,
                (budget - 1) as nat,
            );
            if sub.2 is Some {
                sub
            } else {
                spec_dispatch_redirects(
                    store,
                    sub.1,
                    pop,
                    op,
                    base,
                    s,
                    e,
                    sub.0,
                    budget,
                    redirects.drop_first(),
                    rest,
                )
            }
        }
    }
}

fn copy_out(buffer: &Vec<u8>, s: usize, e: usize) -> (r: Vec<u8>)
    requires
        s <= e,
        e <= buffer@.len(),
    ensures
        r@ == buffer@.subrange(s as int, e as int),
{
    let mut r: Vec<u8> = Vec::new();
    let mut i: usize = s;
    while i < e
        invariant
            s <= i <= e,
            e <= buffer@.len(),
            r@.len() == i - s,
            forall|j: int| 0 <= j < i - s ==> r@[j] == buffer@[s + j],
        decreases e - i,
    {
        let b = buffer[i];
        r.push(b);
        i = i + 1;
    }
    proof {
        assert(r@ =~= buffer@.subrange(s as int, e as int));
    }
    r
}

fn copy_back(buffer: &mut Vec<u8>, s: usize, data: &Vec<u8>)
    requires
        s + data@.len() <= old(buffer)@.len(),
    ensures
        final(buffer)@ == old(buffer)@.update_subrange_with(s as int, data@),
{
    let n = data.len();
    let total = buffer.len();
    let mut i: usize = 0;
    while i < n
        invariant
            0 <= i <= n,
            n == data@.len(),
            s + n <= total,
            total == buffer@.len(),
            buffer@.len() == old(buffer)@.len(),
            forall|j: int| s <= j < s + i ==> buffer@[j] == data@[j - s],
            forall|j: int|
                0 <= j < buffer@.len() && !(s <= j < s + i) ==> buffer@[j] == old(buffer)@[j],
        decreases n - i,
    {
        buffer[s + i] = data[i];
        i = i + 1;
    }
    proof {
        assert(buffer@ =~= old(buffer)@.update_subrange_with(s as int, data@));
    }
}

/// Deliver a sub-access to every overlapping owner; mirrors
/// `spec_dispatch` exactly.
fn dispatch_sub(
    store: &mut ComponentStore,
    pop: &RangeTable<ComponentId>,
    op: MemoryOperation,
    base: usize,
    s: usize,
    e: usize,
    buffer: &mut Vec<u8>,
    space: AddressSpaceId,
    budget: u8,
    Ghost(orig): Ghost<Seq<ComponentRecord>>,
) -> (r: Result<(), Vec<(usize, usize, AccessFailure)>>)
    requires
        old(store).wf(),
        stores_match(orig, old(store)@),
        (op is Read || op is Preview) ==> old(store)@ == orig,
        pop.wf(),
        pop_valid(pop@, orig),
        s < e,
        e <= old(buffer)@.len(),
        old(buffer)@.len() <= 8,
        base + e + 16 <= usize::MAX,
    ensures
        final(store).wf(),
        stores_match(orig, final(store)@),
        ({
            let out = spec_dispatch(
                orig,
                store_mems(old(store)@),
                pop@,
                op,
                base as int,
                s as int,
                e as int,
                old(buffer)@,
                budget as nat,
            );
            &&& final(buffer)@ == out.0
            &&& store_mems(final(store)@) == out.1
            &&& match r {
                Ok(()) => out.2 is None,
                Err(v) => out.2 is Some && v@ == out.2->0,
            }
        }),
        final(buffer)@.len() == old(buffer)@.len(),
        (op is Read || op is Preview) ==> final(store)@ == old(store)@,
    decreases budget, pop@.len() + 1, 1int, 0int,
{
    let lo = base + s;
    let hi = base + e;
    let comps = pop.overlapping(lo, hi);
    proof {
        lemma_seq_overlapping_len(pop@, lo as int, hi as int);
        lemma_seq_overlapping_elems(pop@, lo as int, hi as int);
        assert forall|k: int| 0 <= k < comps@.len() implies entry_ok(
            #[trigger] comps@[k],
            orig,
            base + s,
            base + e,
        ) by {
            let x = comps@[k];
            let j = choose|j: int| 0 <= j < pop@.len() && pop@[j] == x;
            assert(pop@[j].0 < pop@[j].1);
            assert(pop@[j].2.0 < orig.len());
        }
        assert(comps@.skip(0) =~= comps@);
    }
    dispatch_comps(store, pop, op, base, s, e, buffer, space, budget, &comps, 0, Ghost(orig))
}

/// Serve the overlapping owners from `idx` on; mirrors
/// `spec_dispatch_comps` exactly.
#[verifier::rlimit(30)]
fn dispatch_comps(
    store: &mut ComponentStore,
    pop: &RangeTable<ComponentId>,
    op: MemoryOperation,
    base: usize,
    s: usize,
    e: usize,
    buffer: &mut Vec<u8>,
    space: AddressSpaceId,
    budget: u8,
    comps: &Vec<(usize, usize, ComponentId)>,
    idx: usize,
    Ghost(orig): Ghost<Seq<ComponentRecord>>,
) -> (r: Result<(), Vec<(usize, usize, AccessFailure)>>)
    requires
        old(store).wf(),
        stores_match(orig, old(store)@),
        (op is Read || op is Preview) ==> old(store)@ == orig,
        pop.wf(),
        pop_valid(pop@, orig),
        s < e,
        e <= old(buffer)@.len(),
        old(buffer)@.len() <= 8,
        base + e + 16 <= usize::MAX,
        idx <= comps@.len(),
        forall|k: int|
            idx <= k < comps@.len() ==> entry_ok(
                #[trigger] comps@[k],
                orig,
                base + s,
                base + e,
            ),
    ensures
        final(store).wf(),
        stores_match(orig, final(store)@),
        ({
            let out = spec_dispatch_comps(
                orig,
                store_mems(old(store)@),
                pop@,
                op,
                base as int,
                s as int,
                e as int,
                old(buffer)@,
                budget as nat,
                comps@.skip(idx as int),
            );
            &&& final(buffer)@ == out.0
            &&& store_mems(final(store)@) == out.1
            &&& match r {
                Ok(()) => out.2 is None,
                Err(v) => out.2 is Some && v@ == out.2->0,
            }
        }),
        final(buffer)@.len() == old(buffer)@.len(),
        (op is Read || op is Preview) ==> final(store)@ == old(store)@,
    decreases budget, comps@.len() - idx, 1int, 0int,
{
    let ghost scomps = comps@.skip(idx as int);
    let ghost mems0 = store_mems(store@);
    let ghost buf0 = buffer@;
    if idx == comps.len() {
        proof {
            assert(scomps.len() == 0);
        }
        return Ok(());
    }
    let (cs, ce, cid) = comps[idx];
    proof {
        assert(scomps[0] == comps@[idx as int]);
        assert(entry_ok(comps@[idx as int], orig, base + s, base + e));
    }
    let addr = if base + s >= cs {
        base + s
    } else {
        cs
    };
    proof {
        assert(addr < base + e);
        assert(addr + (e - s) <= usize::MAX);
    }
    let mut sub = copy_out(buffer, s, e);
    let ghost store_before = store@;
    let records = store.access(cid.0, op, addr, &mut sub, space);
    copy_back(buffer, s, &sub);
    proof {
        lemma_access_static(
            orig[cid.0 as int],
            store_before[cid.0 as int],
            op,
            addr as int,
            (e - s) as int,
            mems0[cid.0 as int],
            buf0.subrange(s as int, e as int),
        );
        assert(records@ == op_records(orig, cid.0 as int, op, addr as int, (e - s) as int));
        // the buffer after writing the slice back
        match op_fill(orig, cid.0 as int, op, addr as int, (e - s) as int) {
            Some(d) => {
                assert(buffer@ =~= buf0.update_subrange_with(s as int, d));
            },
            None => {
                assert(buffer@ =~= buf0);
            },
        }
        // the threaded byte states after this component's turn
        assert(comp_mem(store@[cid.0 as int].component) == comp_mem_after(
            orig[cid.0 as int].component,
            comp_mem(store_before[cid.0 as int].component),
            op,
            addr as int,
            buf0.subrange(s as int, e as int),
        ));
        assert(store_mems(store_before)[cid.0 as int] == comp_mem(
            store_before[cid.0 as int].component,
        ));
        assert(store_mems(store@) =~= mems_updated(
            mems0,
            orig,
            cid.0 as int,
            op,
            addr as int,
            buf0.subrange(s as int, e as int),
        ));
        lemma_stores_match_trans(orig, store_before, store@);
    }
    // split the records into hard failures and redirects to follow
    let n = records.len();
    let mut hard: Vec<(usize, usize, AccessFailure)> = Vec::new();
    let mut redirects: Vec<(usize, usize, usize)> = Vec::new();
    let mut i: usize = 0;
    proof {
        assert(records@.take(0) =~= Seq::<(usize, usize, AccessRecord)>::empty());
    }
    while i < n
        invariant
            0 <= i <= n,
            n == records@.len(),
            hard@ == hard_failures(records@.take(i as int), cs as int, ce as int),
            redirects@ == redirect_list(records@.take(i as int), cs as int, ce as int),
        decreases n - i,
    {
        let (rs, re, rec) = records[i];
        proof {
            assert(records@.take(i as int + 1) =~= records@.take(i as int).push(
                records@[i as int],
            ));
            lemma_hard_failures_push(
                records@.take(i as int),
                records@[i as int],
                cs as int,
                ce as int,
            );
        }
        match rec {
            AccessRecord::Denied => {
                hard.push((rs, re, AccessFailure::Denied));
            },
            AccessRecord::Impossible => {
                hard.push((rs, re, AccessFailure::Impossible));
            },
            AccessRecord::Redirect { address } => {
                if cs <= address && address < ce {
                    hard.push((rs, re, AccessFailure::Denied));
                } else {
                    redirects.push((rs, re, address));
                }
            },
        }
        i = i + 1;
    }
    proof {
        assert(records@.take(n as int) =~= records@);
    }
    if hard.len() > 0 {
        return Err(hard);
    }
    proof {
        assert(redirects@.skip(0) =~= redirects@);
        assert(scomps.drop_first() =~= comps@.skip(idx as int + 1));
    }
    dispatch_redirects(
        store,
        pop,
        op,
        base,
        s,
        e,
        buffer,
        space,
        budget,
        comps,
        idx,
        &redirects,
        0,
        Ghost(orig),
    )
}

/// Follow the current owner's redirects from `ridx` on, then continue with
/// the owners after `idx`; mirrors `spec_dispatch_redirects` exactly.
#[verifier::rlimit(30)]
fn dispatch_redirects(
    store: &mut ComponentStore,
    pop: &RangeTable<ComponentId>,
    op: MemoryOperation,
    base: usize,
    s: usize,
    e: usize,
    buffer: &mut Vec<u8>,
    space: AddressSpaceId,
    budget: u8,
    comps: &Vec<(usize, usize, ComponentId)>,
    idx: usize,
    redirects: &Vec<(usize, usize, usize)>,
    ridx: usize,
    Ghost(orig): Ghost<Seq<ComponentRecord>>,
) -> (r: Result<(), Vec<(usize, usize, AccessFailure)>>)
    requires
        old(store).wf(),
        stores_match(orig, old(store)@),
        (op is Read || op is Preview) ==> old(store)@ == orig,
        pop.wf(),
        pop_valid(pop@, orig),
        s < e,
        e <= old(buffer)@.len(),
        old(buffer)@.len() <= 8,
        base + e + 16 <= usize::MAX,
        idx < comps@.len(),
        ridx <= redirects@.len(),
        forall|k: int|
            idx + 1 <= k < comps@.len() ==> entry_ok(
                #[trigger] comps@[k],
                orig,
                base + s,
                base + e,
            ),
    ensures
        final(store).wf(),
        stores_match(orig, final(store)@),
        ({
            let out = spec_dispatch_redirects(
                orig,
                store_mems(old(store)@),
                pop@,
                op,
                base as int,
                s as int,
                e as int,
                old(buffer)@,
                budget as nat,
                redirects@.skip(ridx as int),
                comps@.skip(idx as int + 1),
            );
            &&& final(buffer)@ == out.0
            &&& store_mems(final(store)@) == out.1
            &&& match r {
                Ok(()) => out.2 is None,
                Err(v) => out.2 is Some && v@ == out.2->0,
            }
        }),
        final(buffer)@.len() == old(buffer)@.len(),
        (op is Read || op is Preview) ==> final(store)@ == old(store)@,
    decreases budget, comps@.len() - idx, 0int, redirects@.len() - ridx,
{
    let ghost sreds = redirects@.skip(ridx as int);
    let n_comps = comps.len();
    if ridx == redirects.len() {
        proof {
            assert(sreds.len() == 0);
            assert(idx < n_comps);
        }
        return dispatch_comps(
            store,
            pop,
            op,
            base,
            s,
            e,
            buffer,
            space,
            budget,
            comps,
            idx + 1,
            Ghost(orig),
        );
    }
    let (rs, re, a) = redirects[ridx];
    proof {
        assert(sreds[0] == redirects@[ridx as int]);
    }
    if budget == 0 {
        let mut v: Vec<(usize, usize, AccessFailure)> = Vec::new();
        v.push((rs, re, AccessFailure::OutOfBus));
        proof {
            assert(v@ =~= seq![(rs, re, AccessFailure::OutOfBus)]);
        }
        return Err(v);
    }
    if rs < base || re <= rs || re - base > buffer.len() {
        let mut v: Vec<(usize, usize, AccessFailure)> = Vec::new();
        v.push((rs, re, AccessFailure::Denied));
        proof {
            assert(v@ =~= seq![(rs, re, AccessFailure::Denied)]);
        }
        return Err(v);
    }
    let sub_len = re - base;
    if a > usize::MAX - 16 - sub_len {
        let mut v: Vec<(usize, usize, AccessFailure)> = Vec::new();
        v.push((rs, re, AccessFailure::OutOfBus));
        proof {
            assert(v@ =~= seq![(rs, re, AccessFailure::OutOfBus)]);
        }
        return Err(v);
    }
    let ghost store_before = store@;
    let ghost buf_before = buffer@;
    let sub = dispatch_sub(
        store,
        pop,
        op,
        a,
        rs - base,
        re - base,
        buffer,
        space,
        budget - 1,
        Ghost(orig),
    );
    match sub {
        Err(v) => {
            proof {
                lemma_stores_match_trans(orig, store_before, store@);
            }
            Err(v)
        },
        Ok(()) => {
            proof {
                assert(sreds.drop_first() =~= redirects@.skip(ridx as int + 1));
                lemma_stores_match_trans(orig, store_before, store@);
            }
            dispatch_redirects(
                store,
                pop,
                op,
                base,
                s,
                e,
                buffer,
                space,
                budget,
                comps,
                idx,
                redirects,
                ridx + 1,
                Ghost(orig),
            )
        },
    }
}

fn errors_as_read(v: Vec<(usize, usize, AccessFailure)>) -> (r: ReadMemoryOperationError)
    ensures
        r.0@ == fails_as_read(v@),
{
    let n = v.len();
    let mut entries: Vec<(usize, usize, ReadMemoryOperationErrorFailureType)> = Vec::new();
    let mut i: usize = 0;
    while i < n
        invariant
            0 <= i <= n,
            n == v@.len(),
            entries@.len() == i,
            forall|j: int| 0 <= j < i ==> entries@[j] == fails_as_read(v@)[j],
        decreases n - i,
    {
        let (s, e, f) = v[i];
        let t = match f {
            AccessFailure::OutOfBus => ReadMemoryOperationErrorFailureType::OutOfBus,
            _ => ReadMemoryOperationErrorFailureType::Denied,
        };
        entries.push((s, e, t));
        i = i + 1;
    }
    proof {
        assert(entries@ =~= fails_as_read(v@));
    }
    ReadMemoryOperationError(RangeTable::from_entries(entries))
}

fn errors_as_write(v: Vec<(usize, usize, AccessFailure)>) -> (r: WriteMemoryOperationError)
    ensures
        r.0@ == fails_as_write(v@),
{
    let n = v.len();
    let mut entries: Vec<(usize, usize, WriteMemoryOperationErrorFailureType)> = Vec::new();
    let mut i: usize = 0;
    while i < n
        invariant
            0 <= i <= n,
            n == v@.len(),
            entries@.len() == i,
            forall|j: int| 0 <= j < i ==> entries@[j] == fails_as_write(v@)[j],
        decreases n - i,
    {
        let (s, e, f) = v[i];
        let t = match f {
            AccessFailure::OutOfBus => WriteMemoryOperationErrorFailureType::OutOfBus,
            _ => WriteMemoryOperationErrorFailureType::Denied,
        };
        entries.push((s, e, t));
        i = i + 1;
    }
    proof {
        assert(entries@ =~= fails_as_write(v@));
    }
    WriteMemoryOperationError(RangeTable::from_entries(entries))
}

fn errors_as_preview(v: Vec<(usize, usize, AccessFailure)>) -> (r: PreviewMemoryOperationError)
    ensures
        r.0@ == fails_as_preview(v@),
{
    let n = v.len();
    let mut entries: Vec<(usize, usize, PreviewMemoryOperationErrorFailureType)> = Vec::new();
    let mut i: usize = 0;
    while i < n
        invariant
            0 <= i <= n,
            n == v@.len(),
            entries@.len() == i,
            forall|j: int| 0 <= j < i ==> entries@[j] == fails_as_preview(v@)[j],
        decreases n - i,
    {
        let (s, e, f) = v[i];
        let t = match f {
            AccessFailure::OutOfBus => PreviewMemoryOperationErrorFailureType::OutOfBus,
            AccessFailure::Impossible => PreviewMemoryOperationErrorFailureType::Impossible,
            AccessFailure::Denied => PreviewMemoryOperationErrorFailureType::Denied,
        };
        entries.push((s, e, t));
        i = i + 1;
    }
    proof {
        assert(entries@ =~= fails_as_preview(v@));
    }
    PreviewMemoryOperationError(RangeTable::from_entries(entries))
}

/// Where the bus with tag `id` sits in the list, if it was declared.
pub open spec fn find_bus_spec(s: Seq<(AddressSpaceId, BusInfo)>, id: AddressSpaceId) -> Option<
    int,
>
    decreases s.len(),
{
    if s.len() == 0 {
        None
    } else if s[0].0 == id {
        Some(0int)
    } else {
        match find_bus_spec(s.drop_first(), id) {
            Some(i) => Some(i + 1),
            None => None,
        }
    }
}

/// Two bus lists with the same tags in the same places are searched alike.
pub proof fn lemma_find_bus_spec_same_ids(
    s1: Seq<(AddressSpaceId, BusInfo)>,
    s2: Seq<(AddressSpaceId, BusInfo)>,
    id: AddressSpaceId,
)
    requires
        s2.len() == s1.len(),
        forall|i: int| 0 <= i < s1.len() ==> (#[trigger] s2[i]).0 == s1[i].0,
    ensures
        find_bus_spec(s2, id) == find_bus_spec(s1, id),
    decreases s1.len(),
{
    if s1.len() > 0 {
        assert(s2[0].0 == s1[0].0);
        assert forall|i: int| 0 <= i < s1.drop_first().len() implies (#[trigger] s2.drop_first()[i]).0
            == s1.drop_first()[i].0 by {
            assert(s2.drop_first()[i] == s2[i + 1]);
            assert(s1.drop_first()[i] == s1[i + 1]);
        }
        lemma_find_bus_spec_same_ids(s1.drop_first(), s2.drop_first(), id);
    }
}

pub proof fn lemma_find_bus_spec_in_range(s: Seq<(AddressSpaceId, BusInfo)>, id: AddressSpaceId)
    ensures
        match find_bus_spec(s, id) {
            Some(i) => 0 <= i < s.len() && s[i].0 == id,
            None => forall|i: int| 0 <= i < s.len() ==> (#[trigger] s[i]).0 != id,
        },
    decreases s.len(),
{
    if s.len() > 0 {
        lemma_find_bus_spec_in_range(s.drop_first(), id);
        if s[0].0 != id {
            match find_bus_spec(s.drop_first(), id) {
                Some(i) => {
                    assert(s.drop_first()[i] == s[i + 1]);
                },
                None => {
                    assert forall|i: int| 0 <= i < s.len() implies (#[trigger] s[i]).0 != id by {
                        if i > 0 {
                            assert(s.drop_first()[i - 1] == s[i]);
                        }
                    }
                },
            }
        }
    }
}

impl MemoryTranslationTable {
    pub closed spec fn busses_seq(&self) -> Seq<(AddressSpaceId, BusInfo)> {
        self.busses@
    }

    pub closed spec fn store_seq(&self) -> Seq<ComponentRecord> {
        self.component_store@
    }

    pub closed spec fn store_set(&self) -> bool {
        self.store_installed
    }

    pub open spec fn has_bus(&self, id: AddressSpaceId) -> bool {
        find_bus_spec(self.busses_seq(), id) is Some
    }

    /// The bus declared under `id`.
    pub open spec fn bus_view(&self, id: AddressSpaceId) -> BusInfo {
        self.busses_seq()[find_bus_spec(self.busses_seq(), id)->0].1
    }

    /// The declared topology is coherent: bus tags are unique, widths are 1
    /// through 64, and each population is an ordered disjoint table.
    pub open spec fn topology_wf(&self) -> bool {
        &&& forall|i: int, j: int|
            0 <= i < j < self.busses_seq().len() ==> (#[trigger] self.busses_seq()[i]).0 != (
            #[trigger] self.busses_seq()[j]).0
        &&& forall|i: int|
            0 <= i < self.busses_seq().len() ==> {
                let b = (#[trigger] self.busses_seq()[i]).1;
                &&& 1 <= b.width <= 64
                &&& entries_wf(b.population@)
            }
    }

    /// Ready to route: coherent topology, the store installed, its
    /// components well-formed, and every registered owner present in the
    /// store with the memory capability.
    pub open spec fn wf(&self) -> bool {
        &&& self.topology_wf()
        &&& self.store_set()
        &&& forall|i: int|
            0 <= i < self.store_seq().len() ==> crate::component::kind_wf(
                (#[trigger] self.store_seq()[i]).component,
            )
        &&& forall|i: int|
            0 <= i < self.busses_seq().len() ==> pop_valid(
                (#[trigger] self.busses_seq()[i]).1.population@,
                self.store_seq(),
            )
        &&& forall|i: int|
            0 <= i < self.busses_seq().len() ==> pop_tied(
                (#[trigger] self.busses_seq()[i]).1.population@,
                self.store_seq(),
            )
    }

    /// An empty table: no busses, no store.
    pub fn new() -> (r: Self)
        ensures
            r.busses_seq() == Seq::<(AddressSpaceId, BusInfo)>::empty(),
            !r.store_set(),
            r.topology_wf(),
            r.store_seq().len() == 0,
    {
        let r = MemoryTranslationTable {
            busses: Vec::new(),
            component_store: ComponentStore::new(),
            store_installed: false,
        };
        proof {
            assert(r.busses_seq() =~= Seq::<(AddressSpaceId, BusInfo)>::empty());
        }
        r
    }

    /// Declare an address space with its width; a tag declared before keeps
    /// its first declaration.
    pub fn insert_bus(&mut self, id: AddressSpaceId, width: u8)
        requires
            1 <= width <= 64,
        ensures
            final(self).store_seq() == old(self).store_seq(),
            final(self).store_set() == old(self).store_set(),
            final(self).has_bus(id),
            old(self).has_bus(id) ==> final(self).busses_seq() == old(self).busses_seq(),
            !old(self).has_bus(id) ==> {
                &&& final(self).busses_seq().len() == old(self).busses_seq().len() + 1
                &&& forall|i: int|
                    0 <= i < old(self).busses_seq().len() ==> final(self).busses_seq()[i] == old(
                        self,
                    ).busses_seq()[i]
                &&& final(self).busses_seq().last().0 == id
                &&& final(self).busses_seq().last().1.width == width
                &&& final(self).busses_seq().last().1.population@ == Seq::<
                    (usize, usize, ComponentId),
                >::empty()
            },
            old(self).topology_wf() ==> final(self).topology_wf(),
            old(self).wf() ==> final(self).wf(),
            forall|other: AddressSpaceId|
                old(self).has_bus(other) ==> final(self).has_bus(other),
    {
        proof {
            lemma_find_bus_spec_in_range(self.busses_seq(), id);
        }
        let n = self.busses.len();
        let mut i: usize = 0;
        while i < n
            invariant
                0 <= i <= n,
                n == self.busses_seq().len(),
                forall|j: int| 0 <= j < i ==> (#[trigger] self.busses_seq()[j]).0 != id,
            decreases n - i,
        {
            if self.busses[i].0 == id {
                proof {
                    assert(self.has_bus(id)) by {
                        lemma_find_bus_spec_in_range(self.busses_seq(), id);
                    }
                }
                return ;
            }
            i = i + 1;
        }
        let ghost old_busses = self.busses_seq();
        self.busses.push((id, BusInfo { population: RangeTable::new(), width }));
        proof {
            assert(!(find_bus_spec(old_busses, id) is Some)) by {
                lemma_find_bus_spec_in_range(old_busses, id);
            }
            lemma_find_bus_spec_in_range(self.busses_seq(), id);
            assert(self.has_bus(id)) by {
                if find_bus_spec(self.busses_seq(), id) is None {
                    assert(self.busses_seq()[n as int].0 == id);
                }
            }
            assert forall|other: AddressSpaceId| find_bus_spec(old_busses, other) is Some
                implies find_bus_spec(self.busses_seq(), other) is Some by {
                lemma_find_bus_spec_in_range(old_busses, other);
                lemma_find_bus_spec_in_range(self.busses_seq(), other);
                let i0 = find_bus_spec(old_busses, other)->0;
                if find_bus_spec(self.busses_seq(), other) is None {
                    assert(self.busses_seq()[i0].0 == other);
                }
            }
        }
    }

    /// Register `component_id` as the owner of each given half-open range on
    /// bus `id`. A range that is empty, overlaps an existing registration or
    /// overlaps another given range is refused (registering an overlapping
    /// range is a build-time error); the others are registered, and the
    /// result says whether all were.
    pub fn insert_component(
        &mut self,
        id: AddressSpaceId,
        component_id: ComponentId,
        ranges: Vec<(usize, usize)>,
    ) -> (ok: bool)
        requires
            old(self).topology_wf(),
            old(self).has_bus(id),
        ensures
            final(self).topology_wf(),
            final(self).store_seq() == old(self).store_seq(),
            final(self).store_set() == old(self).store_set(),
            final(self).busses_seq().len() == old(self).busses_seq().len(),
            forall|i: int|
                0 <= i < old(self).busses_seq().len() ==> ((#[trigger] final(self).busses_seq()[i]).0
                    == old(self).busses_seq()[i].0 && final(self).busses_seq()[i].1.width == old(
                    self,
                ).busses_seq()[i].1.width),
            // a bus with another tag keeps its population
            forall|i: int|
                0 <= i < old(self).busses_seq().len() && (#[trigger] old(self).busses_seq()[i]).0
                    != id ==> final(self).busses_seq()[i].1.population@ == old(
                    self,
                ).busses_seq()[i].1.population@,
            // every entry is an old one or one of the given ranges, owned by
            // `component_id`
            forall|i: int, k: int|
                0 <= i < final(self).busses_seq().len() && 0 <= k < (#[trigger] final(self).busses_seq()[i]).1.population@.len()
                    ==> {
                    let entry = #[trigger] final(self).busses_seq()[i].1.population@[k];
                    old(self).busses_seq()[i].1.population@.contains(entry) || (entry.2
                        == component_id && ranges@.contains((entry.0, entry.1)))
                },
            // no old registration is lost
            forall|i: int, k: int|
                0 <= i < old(self).busses_seq().len() && 0 <= k < (#[trigger] old(self).busses_seq()[i]).1.population@.len()
                    ==> final(self).busses_seq()[i].1.population@.contains(
                    #[trigger] old(self).busses_seq()[i].1.population@[k],
                ),
            // success exactly when every given range is registrable
            ok == ranges_insertable(old(self).bus_view(id).population@, ranges@),
            // on success every given range stands in bus `id`'s population
            ok ==> {
                let i = find_bus_spec(old(self).busses_seq(), id)->0;
                &&& final(self).busses_seq()[i].1.population@.len() == old(
                    self,
                ).busses_seq()[i].1.population@.len() + ranges@.len()
                &&& forall|j: int|
                    0 <= j < ranges@.len() ==> final(self).busses_seq()[i].1.population@.contains(
                        ((#[trigger] ranges@[j]).0, ranges@[j].1, component_id),
                    )
            },
            forall|other: AddressSpaceId| old(self).has_bus(other) == final(self).has_bus(other),
    {
        proof {
            lemma_find_bus_spec_in_range(self.busses_seq(), id);
        }
        let ghost old_busses = self.busses_seq();
        let bidx = self.find_bus_index(id);
        let ghost old_pop = old_busses[bidx as int].1.population@;
        let mut entry = self.busses.remove(bidx);
        let n = ranges.len();
        let mut all = true;
        let mut i: usize = 0;
        while i < n
            invariant
                0 <= i <= n,
                n == ranges@.len(),
                0 <= bidx < old_busses.len(),
                entry.0 == old_busses[bidx as int].0,
                entry.1.width == old_busses[bidx as int].1.width,
                old_pop == old_busses[bidx as int].1.population@,
                entries_wf(entry.1.population@),
                // provenance: every entry is old or one of the first `i` ranges
                forall|k: int|
                    0 <= k < entry.1.population@.len() ==> {
                        let x = #[trigger] entry.1.population@[k];
                        old_pop.contains(x) || (x.2 == component_id && exists|j: int|
                            0 <= j < i && ranges@[j] == (x.0, x.1))
                    },
                // persistence: every old entry is still there
                forall|k: int|
                    0 <= k < old_pop.len() ==> entry.1.population@.contains(#[trigger] old_pop[k]),
                // while everything succeeded, the population is exactly the
                // old one plus the first `i` ranges
                all ==> entry.1.population@.len() == old_pop.len() + i,
                all ==> forall|j: int|
                    0 <= j < i ==> entry.1.population@.contains(
                        ((#[trigger] ranges@[j]).0, ranges@[j].1, component_id),
                    ),
                all ==> forall|j: int|
                    0 <= j < i ==> {
                        let r = #[trigger] ranges@[j];
                        &&& r.0 < r.1
                        &&& forall|k: int|
                            0 <= k < old_pop.len() ==> !range_overlaps(
                                (#[trigger] old_pop[k]).0 as int,
                                old_pop[k].1 as int,
                                r.0 as int,
                                r.1 as int,
                            )
                        &&& forall|j2: int|
                            0 <= j2 < i && j2 != j ==> !range_overlaps(
                                (#[trigger] ranges@[j2]).0 as int,
                                ranges@[j2].1 as int,
                                r.0 as int,
                                r.1 as int,
                            )
                    },
                !all ==> !ranges_insertable(old_pop, ranges@),
            decreases n - i,
        {
            let (a, b) = ranges[i];
            if a < b {
                let overlapping = entry.1.population.overlapping(a, b);
                if overlapping.len() == 0 {
                    proof {
                        lemma_seq_overlapping_empty(entry.1.population@, a as int, b as int);
                    }
                    let ghost before = entry.1.population@;
                    entry.1.population.insert_entry(a, b, component_id);
                    proof {
                        let k0 = choose|k0: int|
                            0 <= k0 <= before.len() && entry.1.population@ == before.insert(
                                k0,
                                (a, b, component_id),
                            );
                        assert forall|k: int| 0 <= k < entry.1.population@.len() implies {
                            let x = #[trigger] entry.1.population@[k];
                            old_pop.contains(x) || (x.2 == component_id && exists|j: int|
                                0 <= j < i + 1 && ranges@[j] == (x.0, x.1))
                        } by {
                            let x = entry.1.population@[k];
                            if k < k0 {
                                assert(x == before[k]);
                            } else if k == k0 {
                                assert(ranges@[i as int] == (x.0, x.1));
                            } else {
                                assert(x == before[k - 1]);
                            }
                        }
                        assert forall|k: int| 0 <= k < old_pop.len() implies entry.1.population@.contains(
                            #[trigger] old_pop[k],
                        ) by {
                            let idx = choose|idx: int|
                                0 <= idx < before.len() && before[idx] == old_pop[k];
                            if idx < k0 {
                                assert(entry.1.population@[idx] == old_pop[k]);
                            } else {
                                assert(entry.1.population@[idx + 1] == old_pop[k]);
                            }
                        }
                        if all {
                            // the old entries and earlier ranges were all in
                            // `before`, so this range is disjoint from them
                            assert forall|k: int| 0 <= k < old_pop.len() implies !range_overlaps(
                                (#[trigger] old_pop[k]).0 as int,
                                old_pop[k].1 as int,
                                a as int,
                                b as int,
                            ) by {
                                let idx = choose|idx: int|
                                    0 <= idx < before.len() && before[idx] == old_pop[k];
                            }
                            assert forall|j2: int| 0 <= j2 < i implies !range_overlaps(
                                (#[trigger] ranges@[j2]).0 as int,
                                ranges@[j2].1 as int,
                                a as int,
                                b as int,
                            ) by {
                                let y = (ranges@[j2].0, ranges@[j2].1, component_id);
                                assert(before.contains(y));
                                let idx = choose|idx: int|
                                    0 <= idx < before.len() && before[idx] == y;
                            }
                            assert forall|j: int| 0 <= j < i + 1 implies entry.1.population@.contains(
                                ((#[trigger] ranges@[j]).0, ranges@[j].1, component_id),
                            ) by {
                                if j < i {
                                    let y = (ranges@[j].0, ranges@[j].1, component_id);
                                    let idx = choose|idx: int|
                                        0 <= idx < before.len() && before[idx] == y;
                                    if idx < k0 {
                                        assert(entry.1.population@[idx] == y);
                                    } else {
                                        assert(entry.1.population@[idx + 1] == y);
                                    }
                                } else {
                                    assert(entry.1.population@[k0] == (a, b, component_id));
                                }
                            }
                        }
                    }
                } else {
                    proof {
                        if all {
                            lemma_seq_overlapping_empty(entry.1.population@, a as int, b as int);
                            let k = choose|k: int|
                                0 <= k < entry.1.population@.len() && range_overlaps(
                                    (entry.1.population@[k]).0 as int,
                                    entry.1.population@[k].1 as int,
                                    a as int,
                                    b as int,
                                );
                            let x = entry.1.population@[k];
                            if old_pop.contains(x) {
                                let kk = choose|kk: int|
                                    0 <= kk < old_pop.len() && old_pop[kk] == x;
                                assert(!ranges_insertable(old_pop, ranges@)) by {
                                    assert(range_overlaps(
                                        old_pop[kk].0 as int,
                                        old_pop[kk].1 as int,
                                        ranges@[i as int].0 as int,
                                        ranges@[i as int].1 as int,
                                    ));
                                }
                            } else {
                                let j2 = choose|j2: int|
                                    0 <= j2 < i && ranges@[j2] == (x.0, x.1);
                                assert(!ranges_insertable(old_pop, ranges@)) by {
                                    assert(range_overlaps(
                                        ranges@[j2].0 as int,
                                        ranges@[j2].1 as int,
                                        ranges@[i as int].0 as int,
                                        ranges@[i as int].1 as int,
                                    ));
                                }
                            }
                        }
                    }
                    all = false;
                }
            } else {
                proof {
                    assert(!ranges_insertable(old_pop, ranges@)) by {
                        assert(!((#[trigger] ranges@[i as int]).0 < ranges@[i as int].1));
                    }
                }
                all = false;
            }
            i = i + 1;
        }
        proof {
            if all {
                assert(ranges_insertable(old_pop, ranges@)) by {
                    assert forall|j: int| 0 <= j < ranges@.len() implies {
                        let r = #[trigger] ranges@[j];
                        &&& r.0 < r.1
                        &&& forall|k: int|
                            0 <= k < old_pop.len() ==> !range_overlaps(
                                (#[trigger] old_pop[k]).0 as int,
                                old_pop[k].1 as int,
                                r.0 as int,
                                r.1 as int,
                            )
                        &&& forall|j2: int|
                            0 <= j2 < ranges@.len() && j2 != j ==> !range_overlaps(
                                (#[trigger] ranges@[j2]).0 as int,
                                ranges@[j2].1 as int,
                                r.0 as int,
                                r.1 as int,
                            )
                    } by {
                        assert forall|j2: int|
                            0 <= j2 < ranges@.len() && j2 != j implies !range_overlaps(
                            (#[trigger] ranges@[j2]).0 as int,
                            ranges@[j2].1 as int,
                            ranges@[j as int].0 as int,
                            ranges@[j as int].1 as int,
                        ) by {
                            if j2 < j {
                            } else {
                                // the later range was checked against this one
                                assert(!range_overlaps(
                                    ranges@[j as int].0 as int,
                                    ranges@[j as int].1 as int,
                                    ranges@[j2].0 as int,
                                    ranges@[j2].1 as int,
                                ));
                            }
                        }
                    }
                }
            }
        }
        self.busses.insert(bidx, entry);
        proof {
            assert(self.busses_seq() =~= old_busses.update(
                bidx as int,
                self.busses_seq()[bidx as int],
            ));
            assert forall|i: int| 0 <= i < old_busses.len() implies ((#[trigger] self.busses_seq()[i]).0
                == old_busses[i].0 && self.busses_seq()[i].1.width
                == old_busses[i].1.width) by {
                if i != bidx {
                    assert(self.busses_seq()[i] == old_busses[i]);
                }
            }
            assert forall|i: int, k: int|
                0 <= i < self.busses_seq().len() && 0 <= k < (#[trigger] self.busses_seq()[i]).1.population@.len()
                    implies {
                let x = #[trigger] self.busses_seq()[i].1.population@[k];
                old_busses[i].1.population@.contains(x) || (x.2 == component_id
                    && ranges@.contains((x.0, x.1)))
            } by {
                if i != bidx {
                    assert(self.busses_seq()[i] == old_busses[i]);
                    let x = self.busses_seq()[i].1.population@[k];
                    assert(old_busses[i].1.population@[k] == x);
                } else {
                    let x = self.busses_seq()[i].1.population@[k];
                    if !old_pop.contains(x) {
                        let j = choose|j: int| 0 <= j < n && ranges@[j] == (x.0, x.1);
                        assert(ranges@.contains((x.0, x.1)));
                    }
                }
            }
            assert forall|i: int, k: int|
                0 <= i < old_busses.len() && 0 <= k < (#[trigger] old_busses[i]).1.population@.len()
                    implies self.busses_seq()[i].1.population@.contains(
                #[trigger] old_busses[i].1.population@[k],
            ) by {
                if i != bidx {
                    assert(self.busses_seq()[i] == old_busses[i]);
                    assert(self.busses_seq()[i].1.population@[k] == old_busses[i].1.population@[k]);
                }
            }
            assert forall|other: AddressSpaceId|
                find_bus_spec(old_busses, other) is Some == find_bus_spec(
                    self.busses_seq(),
                    other,
                ) is Some by {
                lemma_find_bus_spec_in_range(old_busses, other);
                lemma_find_bus_spec_in_range(self.busses_seq(), other);
                if find_bus_spec(old_busses, other) is Some && find_bus_spec(
                    self.busses_seq(),
                    other,
                ) is None {
                    let i0 = find_bus_spec(old_busses, other)->0;
                    assert(self.busses_seq()[i0].0 == old_busses[i0].0);
                }
                if find_bus_spec(self.busses_seq(), other) is Some && find_bus_spec(
                    old_busses,
                    other,
                ) is None {
                    let i0 = find_bus_spec(self.busses_seq(), other)->0;
                    assert(self.busses_seq()[i0].0 == old_busses[i0].0);
                }
            }
            assert forall|i: int|
                0 <= i < old_busses.len() && (#[trigger] old_busses[i]).0 != id implies self.busses_seq()[i].1.population@
                == old_busses[i].1.population@ by {
                if i != bidx {
                    assert(self.busses_seq()[i] == old_busses[i]);
                }
            }
        }
        all
    }

    /// Install the frozen component store; routing is possible afterwards.
    pub fn set_component_store(&mut self, component_store: ComponentStore)
        ensures
            final(self).busses_seq() == old(self).busses_seq(),
            final(self).store_set(),
            final(self).store_seq() == component_store@,
    {
        self.component_store = component_store;
        self.store_installed = true;
    }

    /// How many address spaces were declared.
    pub fn address_spaces(&self) -> (n: u8)
        requires
            self.busses_seq().len() <= 255,
        ensures
            n == self.busses_seq().len(),
    {
        self.busses.len() as u8
    }

    fn find_bus_index(&self, id: AddressSpaceId) -> (i: usize)
        requires
            self.has_bus(id),
        ensures
            i < self.busses_seq().len(),
            Some(i as int) == find_bus_spec(self.busses_seq(), id),
            self.busses_seq()[i as int].0 == id,
    {
        let n = self.busses.len();
        let mut i: usize = 0;
        proof {
            lemma_find_bus_spec_in_range(self.busses_seq(), id);
            assert(self.busses_seq().skip(0) =~= self.busses_seq());
        }
        while i < n
            invariant
                0 <= i <= n,
                n == self.busses_seq().len(),
                self.has_bus(id),
                forall|j: int| 0 <= j < i ==> (#[trigger] self.busses_seq()[j]).0 != id,
                match find_bus_spec(self.busses_seq().skip(i as int), id) {
                    Some(k) => find_bus_spec(self.busses_seq(), id) == Some(k + i),
                    None => !self.has_bus(id),
                },
            decreases n - i,
        {
            proof {
                assert(self.busses_seq().skip(i as int)[0] == self.busses_seq()[i as int]);
                assert(self.busses_seq().skip(i as int).drop_first() =~= self.busses_seq().skip(
                    i as int + 1,
                ));
            }
            if self.busses[i].0 == id {
                return i;
            }
            i = i + 1;
        }
        proof {
            assert(self.busses_seq().skip(n as int).len() == 0);
            lemma_find_bus_spec_in_range(self.busses_seq(), id);
        }
        unreached()
    }

    /// One scheduler tick for component `id` at its declared frequency:
    /// `period_ns` is the simulated time since its previous invocation.
    pub fn run_schedulable(&mut self, id: ComponentId, period_ns: u64)
        requires
            old(self).wf(),
            id.0 < old(self).store_seq().len(),
        ensures
            final(self).wf(),
            final(self).busses_seq() == old(self).busses_seq(),
            final(self).store_seq().len() == old(self).store_seq().len(),
            forall|i: int|
                0 <= i < old(self).store_seq().len() && i != id.0 ==> final(self).store_seq()[i]
                    == old(self).store_seq()[i],
            match (
                old(self).store_seq()[id.0 as int].component,
                final(self).store_seq()[id.0 as int].component,
            ) {
                (
                    crate::component::ComponentKind::Display(a),
                    crate::component::ComponentKind::Display(b),
                ) => b.fb() == a.fb() && b.cfg() == a.cfg() && !b.is_modified(),
                (a, b) => b == a,
            },
    {
        self.component_store.run_schedulable(id.0, period_ns);
        proof {
            assert forall|i: int| 0 <= i < self.busses_seq().len() implies pop_valid(
                (#[trigger] self.busses_seq()[i]).1.population@,
                self.store_seq(),
            ) && pop_tied((#[trigger] self.busses_seq()[i]).1.population@, self.store_seq()) by {
                let pop = self.busses_seq()[i].1.population@;
                assert(self.busses_seq()[i] == old(self).busses_seq()[i]);
                assert(pop_valid(old(self).busses_seq()[i].1.population@, old(self).store_seq()));
                assert(pop_tied(old(self).busses_seq()[i].1.population@, old(self).store_seq()));
                assert(pop_valid(pop, old(self).store_seq()));
                assert forall|k: int| 0 <= k < pop.len() implies ((#[trigger] pop[k]).2.0
                    < self.store_seq().len() && self.store_seq()[pop[k].2.0 as int].memory_capable)
                    by {
                    if pop[k].2.0 != id.0 {
                        assert(self.store_seq()[pop[k].2.0 as int] == old(self).store_seq()[pop[k].2.0 as int]);
                    }
                }
                assert forall|k: int| 0 <= k < pop.len() implies {
                    let x = #[trigger] pop[k];
                    x.2.0 < self.store_seq().len() ==> match self.store_seq()[x.2.0 as int].component {
                        ComponentKind::Mirror(m) => m.cfg().assigned_range.start <= x.0 && x.1
                            <= m.cfg().assigned_range.end,
                        _ => true,
                    }
                } by {
                    let x = pop[k];
                    if x.2.0 != id.0 {
                        assert(self.store_seq()[x.2.0 as int] == old(self).store_seq()[x.2.0 as int]);
                    }
                }
            }
        }
    }

    /// Step through the table to fill the buffer with data.
    ///
    /// Contents of the buffer upon failure are component specific: denied
    /// sub-ranges are best-effort undefined to the caller.
    pub fn read(
        &mut self,
        address: usize,
        buffer: &mut Vec<u8>,
        address_space: AddressSpaceId,
    ) -> (r: Result<(), ReadMemoryOperationError>)
        requires
            old(self).wf(),
            old(self).has_bus(address_space),
            crate::valid_access_size(old(buffer)@.len() as int),
            address + old(buffer)@.len() + 16 <= usize::MAX,
        ensures
            final(self).wf(),
            final(self).busses_seq() == old(self).busses_seq(),
            final(self).store_set() == old(self).store_set(),
            final(self).store_seq() == old(self).store_seq(),
            ({
                let bus = old(self).bus_view(address_space);
                let out = spec_dispatch(
                    old(self).store_seq(),
                    store_mems(old(self).store_seq()),
                    bus.population@,
                    MemoryOperation::Read,
                    spec_mask(address as int, bus.width as int),
                    0,
                    old(buffer)@.len() as int,
                    old(buffer)@,
                    8,
                );
                &&& final(buffer)@ == out.0
                &&& match r {
                    Ok(()) => out.2 is None,
                    Err(err) => out.2 is Some && err.0@ == fails_as_read(out.2->0),
                }
            }),
            final(buffer)@.len() == old(buffer)@.len(),
    {
        let bidx = self.find_bus_index(address_space);
        let width = self.busses[bidx].1.width;
        let base = mask_address(address, width);
        let len = buffer.len();
        let ghost orig = self.store_seq();
        let pop = &self.busses[bidx].1.population;
        let store = &mut self.component_store;
        let out = dispatch_sub(
            store,
            pop,
            MemoryOperation::Read,
            base,
            0,
            len,
            buffer,
            address_space,
            8,
            Ghost(orig),
        );
        match out {
            Ok(()) => Ok(()),
            Err(v) => Err(errors_as_read(v)),
        }
    }

    /// Step through the table to hand the buffer to the owning components.
    ///
    /// A write that fails part-way is not rolled back: components that did
    /// not deny may have been written, as the error's ranges report.
    pub fn write(
        &mut self,
        address: usize,
        buffer: &Vec<u8>,
        address_space: AddressSpaceId,
    ) -> (r: Result<(), WriteMemoryOperationError>)
        requires
            old(self).wf(),
            old(self).has_bus(address_space),
            crate::valid_access_size(buffer@.len() as int),
            address + buffer@.len() + 16 <= usize::MAX,
        ensures
            final(self).wf(),
            final(self).busses_seq() == old(self).busses_seq(),
            final(self).store_set(),
            stores_match(old(self).store_seq(), final(self).store_seq()),
            ({
                let bus = old(self).bus_view(address_space);
                let out = spec_dispatch(
                    old(self).store_seq(),
                    store_mems(old(self).store_seq()),
                    bus.population@,
                    MemoryOperation::Write,
                    spec_mask(address as int, bus.width as int),
                    0,
                    buffer@.len() as int,
                    buffer@,
                    8,
                );
                &&& store_mems(final(self).store_seq()) == out.1
                &&& match r {
                    Ok(()) => out.2 is None,
                    Err(err) => out.2 is Some && err.0@ == fails_as_write(out.2->0),
                }
            }),
    {
        let bidx = self.find_bus_index(address_space);
        let width = self.busses[bidx].1.width;
        let base = mask_address(address, width);
        let mut data = copy_out(buffer, 0, buffer.len());
        proof {
            assert(buffer@.subrange(0, buffer@.len() as int) =~= buffer@);
        }
        let len = data.len();
        let ghost orig = self.store_seq();
        let pop = &self.busses[bidx].1.population;
        let store = &mut self.component_store;
        let out = dispatch_sub(
            store,
            pop,
            MemoryOperation::Write,
            base,
            0,
            len,
            &mut data,
            address_space,
            8,
            Ghost(orig),
        );
        proof {
            lemma_write_keeps_buffer(
                orig,
                store_mems(orig),
                self.busses_seq()[bidx as int].1.population@,
                base as int,
                0,
                len as int,
                buffer@,
                8,
            );
        }
        match out {
            Ok(()) => Ok(()),
            Err(v) => Err(errors_as_write(v)),
        }
    }

    /// Step through the table to fill the buffer without side effects, where
    /// the owners can.
    pub fn preview(
        &mut self,
        address: usize,
        buffer: &mut Vec<u8>,
        address_space: AddressSpaceId,
    ) -> (r: Result<(), PreviewMemoryOperationError>)
        requires
            old(self).wf(),
            old(self).has_bus(address_space),
            crate::valid_access_size(old(buffer)@.len() as int),
            address + old(buffer)@.len() + 16 <= usize::MAX,
        ensures
            final(self).wf(),
            final(self).busses_seq() == old(self).busses_seq(),
            final(self).store_set() == old(self).store_set(),
            final(self).store_seq() == old(self).store_seq(),
            ({
                let bus = old(self).bus_view(address_space);
                let out = spec_dispatch(
                    old(self).store_seq(),
                    store_mems(old(self).store_seq()),
                    bus.population@,
                    MemoryOperation::Preview,
                    spec_mask(address as int, bus.width as int),
                    0,
                    old(buffer)@.len() as int,
                    old(buffer)@,
                    8,
                );
                &&& final(buffer)@ == out.0
                &&& match r {
                    Ok(()) => out.2 is None,
                    Err(err) => out.2 is Some && err.0@ == fails_as_preview(out.2->0),
                }
            }),
            final(buffer)@.len() == old(buffer)@.len(),
    {
        let bidx = self.find_bus_index(address_space);
        let width = self.busses[bidx].1.width;
        let base = mask_address(address, width);
        let len = buffer.len();
        let ghost orig = self.store_seq();
        let pop = &self.busses[bidx].1.population;
        let store = &mut self.component_store;
        let out = dispatch_sub(
            store,
            pop,
            MemoryOperation::Preview,
            base,
            0,
            len,
            buffer,
            address_space,
            8,
            Ghost(orig),
        );
        match out {
            Ok(()) => Ok(()),
            Err(v) => Err(errors_as_preview(v)),
        }
    }
}

/// A write never changes the handed buffer: no component fills on a write.
pub proof fn lemma_write_keeps_buffer(
    store: Seq<ComponentRecord>,
    mems: Seq<Seq<u8>>,
    pop: Seq<(usize, usize, ComponentId)>,
    base: int,
    s: int,
    e: int,
    buf: Seq<u8>,
    budget: nat,
)
    ensures
        spec_dispatch(store, mems, pop, MemoryOperation::Write, base, s, e, buf, budget).0 == buf,
    decreases budget, pop.len() + 1, 1int, 0int,
{
    lemma_seq_overlapping_len(pop, base + s, base + e);
    lemma_write_keeps_buffer_comps(
        store,
        mems,
        pop,
        base,
        s,
        e,
        buf,
        budget,
        seq_overlapping(pop, base + s, base + e),
    );
}

proof fn lemma_write_keeps_buffer_comps(
    store: Seq<ComponentRecord>,
    mems: Seq<Seq<u8>>,
    pop: Seq<(usize, usize, ComponentId)>,
    base: int,
    s: int,
    e: int,
    buf: Seq<u8>,
    budget: nat,
    comps: Seq<(usize, usize, ComponentId)>,
)
    ensures
        spec_dispatch_comps(
            store,
            mems,
            pop,
            MemoryOperation::Write,
            base,
            s,
            e,
            buf,
            budget,
            comps,
        ).0 == buf,
    decreases budget, comps.len(), 1int, 0int,
{
    if comps.len() > 0 {
        let entry = comps[0];
        let cs = entry.0 as int;
        let ce = entry.1 as int;
        let cid = entry.2.0 as int;
        let addr = if base + s >= cs {
            base + s
        } else {
            cs
        };
        let len = e - s;
        let records = op_records(store, cid, MemoryOperation::Write, addr, len);
        let mems1 = mems_updated(
            mems,
            store,
            cid,
            MemoryOperation::Write,
            addr,
            buf.subrange(s, e),
        );
        let hard = hard_failures(records, cs, ce);
        if hard.len() == 0 {
            lemma_write_keeps_buffer_redirects(
                store,
                mems1,
                pop,
                base,
                s,
                e,
                buf,
                budget,
                redirect_list(records, cs, ce),
                comps.drop_first(),
            );
        }
    }
}

proof fn lemma_write_keeps_buffer_redirects(
    store: Seq<ComponentRecord>,
    mems: Seq<Seq<u8>>,
    pop: Seq<(usize, usize, ComponentId)>,
    base: int,
    s: int,
    e: int,
    buf: Seq<u8>,
    budget: nat,
    redirects: Seq<(usize, usize, usize)>,
    rest: Seq<(usize, usize, ComponentId)>,
)
    ensures
        spec_dispatch_redirects(
            store,
            mems,
            pop,
            MemoryOperation::Write,
            base,
            s,
            e,
            buf,
            budget,
            redirects,
            rest,
        ).0 == buf,
    decreases budget, rest.len() + 1, 0int, redirects.len(),
{
    if redirects.len() == 0 {
        lemma_write_keeps_buffer_comps(store, mems, pop, base, s, e, buf, budget, rest);
    } else {
        let rd = redirects[0];
        let rs = rd.0 as int;
        let re = rd.1 as int;
        let a = rd.2 as int;
        if budget != 0 && (base <= rs && rs < re && re - base <= buf.len()) && !(a + (re - base)
            + 16 > usize::MAX) {
            lemma_write_keeps_buffer(
                store,
                mems,
                pop,
                a,
                rs - base,
                re - base,
                buf,
                (budget - 1) as nat,
            );
            let sub = spec_dispatch(
                store,
                mems,
                pop,
                MemoryOperation::Write,
                a,
                rs - base,
                re - base,
                buf,
                (budget - 1) as nat,
            );
            if !(sub.2 is Some) {
                lemma_write_keeps_buffer_redirects(
                    store,
                    sub.1,
                    pop,
                    base,
                    s,
                    e,
                    sub.0,
                    budget,
                    redirects.drop_first(),
                    rest,
                );
            }
        }
    }
}

/// Law: read-after-write through the bus. Against a standard memory that is
/// readable and writable and alone owns a range covering the access, a
/// write of `data` followed by a read of the same addresses returns `data`,
/// for every access size the bus accepts. `store0` is the store the write
/// sees; `store1` is the store the read sees, the same components carrying
/// the bytes the write produced.
pub proof fn lemma_translated_read_after_write(
    store0: Seq<ComponentRecord>,
    store1: Seq<ComponentRecord>,
    pop: Seq<(usize, usize, ComponentId)>,
    cid: usize,
    rs: usize,
    re: usize,
    m0: StandardMemory,
    m1: StandardMemory,
    addr: int,
    data: Seq<u8>,
)
    requires
        pop == seq![(rs, re, ComponentId(cid))],
        cid < store0.len(),
        stores_match(store0, store1),
        store0[cid as int].component == crate::component::ComponentKind::Standard(m0),
        store1[cid as int].component == crate::component::ComponentKind::Standard(m1),
        m0.wf(),
        m0.cfg().readable,
        m0.cfg().writable,
        m1.cfg() == m0.cfg(),
        rs == m0.cfg().assigned_range.start,
        re == m0.cfg().assigned_range.end,
        crate::valid_access_size(data.len() as int),
        rs <= addr,
        addr + data.len() <= re,
        store_mems(store1) == spec_dispatch(
            store0,
            store_mems(store0),
            pop,
            MemoryOperation::Write,
            addr,
            0,
            data.len() as int,
            data,
            8,
        ).1,
    ensures
        spec_dispatch(
            store0,
            store_mems(store0),
            pop,
            MemoryOperation::Write,
            addr,
            0,
            data.len() as int,
            data,
            8,
        ).2 is None,
        spec_dispatch(
            store1,
            store_mems(store1),
            pop,
            MemoryOperation::Read,
            addr,
            0,
            data.len() as int,
            data,
            8,
        ).2 is None,
        spec_dispatch(
            store1,
            store_mems(store1),
            pop,
            MemoryOperation::Read,
            addr,
            0,
            data.len() as int,
            data,
            8,
        ).0 == data,
{
    let len = data.len() as int;
    let c = m0.cfg();
    // the single owner is the only overlapping entry
    assert(seq_overlapping(pop, addr, addr + len) =~= pop) by {
        assert(pop.drop_first() =~= Seq::<(usize, usize, ComponentId)>::empty());
        assert(seq_overlapping(pop.drop_first(), addr, addr + len) =~= Seq::<
            (usize, usize, ComponentId),
        >::empty());
        assert(range_overlaps(rs as int, re as int, addr, addr + len));
    }
    let ghost rest = pop.drop_first();
    assert(rest.len() == 0);

    // the write: records empty, the memory spliced
    let wrecords = op_records(store0, cid as int, MemoryOperation::Write, addr, len);
    assert(std_write_records(c, addr, len) =~= Seq::<(usize, usize, WriteMemoryRecord)>::empty());
    assert(wrecords =~= Seq::<(usize, usize, AccessRecord)>::empty());
    assert(hard_failures(wrecords, rs as int, re as int) =~= Seq::<
        (usize, usize, AccessFailure),
    >::empty());
    assert(redirect_list(wrecords, rs as int, re as int) =~= Seq::<(usize, usize, usize)>::empty());
    let wout = spec_dispatch(
        store0,
        store_mems(store0),
        pop,
        MemoryOperation::Write,
        addr,
        0,
        len,
        data,
        8,
    );
    assert(data.subrange(0, len) =~= data);
    assert(pop[0].2.0 == cid);
    let mems1 = mems_updated(store_mems(store0), store0, cid as int, MemoryOperation::Write, addr, data);
    let wcomps = spec_dispatch_comps(
        store0,
        store_mems(store0),
        pop,
        MemoryOperation::Write,
        addr,
        0,
        len,
        data,
        8,
        pop,
    );
    assert(wout == wcomps);
    assert(wcomps == spec_dispatch_redirects(
        store0,
        mems1,
        pop,
        MemoryOperation::Write,
        addr,
        0,
        len,
        data,
        8,
        Seq::<(usize, usize, usize)>::empty(),
        rest,
    ));
    assert(spec_dispatch_redirects(
        store0,
        mems1,
        pop,
        MemoryOperation::Write,
        addr,
        0,
        len,
        data,
        8,
        Seq::<(usize, usize, usize)>::empty(),
        rest,
    ) == spec_dispatch_comps(
        store0,
        mems1,
        pop,
        MemoryOperation::Write,
        addr,
        0,
        len,
        data,
        8,
        rest,
    ));
    assert(spec_dispatch_comps(
        store0,
        mems1,
        pop,
        MemoryOperation::Write,
        addr,
        0,
        len,
        data,
        8,
        rest,
    ) == (data, mems1, Option::<Seq<(usize, usize, AccessFailure)>>::None));
    assert(wout.2 is None);
    assert(wout.1 == mems1);
    assert(store_mems(store0)[cid as int] == comp_mem(store0[cid as int].component));
    assert(mems1[cid as int] == std_mem_after_write(c, m0.mem(), addr, data));

    // the read: records empty, the buffer filled with the spliced bytes
    assert(m1.mem() == store_mems(store1)[cid as int]);
    assert(m1.mem() == std_mem_after_write(c, m0.mem(), addr, data));
    let rrecords = op_records(store1, cid as int, MemoryOperation::Read, addr, len);
    assert(std_read_records(c, addr, len) =~= Seq::<(usize, usize, ReadMemoryRecord)>::empty());
    assert(rrecords =~= Seq::<(usize, usize, AccessRecord)>::empty());
    assert(hard_failures(rrecords, rs as int, re as int) =~= Seq::<
        (usize, usize, AccessFailure),
    >::empty());
    assert(redirect_list(rrecords, rs as int, re as int) =~= Seq::<(usize, usize, usize)>::empty());
    crate::standard_memory::lemma_read_after_write(c, m0.mem(), addr, data);
    assert(op_fill(store1, cid as int, MemoryOperation::Read, addr, len) == Some(data));
    let rout = spec_dispatch(
        store1,
        store_mems(store1),
        pop,
        MemoryOperation::Read,
        addr,
        0,
        len,
        data,
        8,
    );
    let rcomps = spec_dispatch_comps(
        store1,
        store_mems(store1),
        pop,
        MemoryOperation::Read,
        addr,
        0,
        len,
        data,
        8,
        pop,
    );
    assert(rout == rcomps);
    assert(rcomps == spec_dispatch_redirects(
        store1,
        mems_updated(store_mems(store1), store1, cid as int, MemoryOperation::Read, addr, data),
        pop,
        MemoryOperation::Read,
        addr,
        0,
        len,
        data.update_subrange_with(0, data),
        8,
        Seq::<(usize, usize, usize)>::empty(),
        rest,
    ));
    assert(data.update_subrange_with(0, data) =~= data);
    let rmems = mems_updated(
        store_mems(store1),
        store1,
        cid as int,
        MemoryOperation::Read,
        addr,
        data,
    );
    assert(spec_dispatch_redirects(
        store1,
        rmems,
        pop,
        MemoryOperation::Read,
        addr,
        0,
        len,
        data,
        8,
        Seq::<(usize, usize, usize)>::empty(),
        rest,
    ) == spec_dispatch_comps(
        store1,
        rmems,
        pop,
        MemoryOperation::Read,
        addr,
        0,
        len,
        data,
        8,
        rest,
    ));
    assert(spec_dispatch_comps(
        store1,
        rmems,
        pop,
        MemoryOperation::Read,
        addr,
        0,
        len,
        data,
        8,
        rest,
    ) == (data, rmems, Option::<Seq<(usize, usize, AccessFailure)>>::None));
    assert(rout.2 is None);
    assert(rout.0 == data);
}

/// Law: denial preservation through the bus. A write routed to a
/// non-writable standard memory that alone owns a range covering the access
/// fails with a denial of the whole access, and every component's bytes —
/// in particular every readable byte of that memory — are unchanged.
pub proof fn lemma_translated_denial_preservation(
    store: Seq<ComponentRecord>,
    pop: Seq<(usize, usize, ComponentId)>,
    cid: usize,
    rs: usize,
    re: usize,
    m: StandardMemory,
    addr: int,
    data: Seq<u8>,
)
    requires
        pop == seq![(rs, re, ComponentId(cid))],
        cid < store.len(),
        store[cid as int].component == crate::component::ComponentKind::Standard(m),
        !m.cfg().writable,
        rs == m.cfg().assigned_range.start,
        re == m.cfg().assigned_range.end,
        rs < re,
        crate::valid_access_size(data.len() as int),
        rs <= addr,
        addr + data.len() <= re,
    ensures
        ({
            let out = spec_dispatch(
                store,
                store_mems(store),
                pop,
                MemoryOperation::Write,
                addr,
                0,
                data.len() as int,
                data,
                8,
            );
            &&& out.1 == store_mems(store)
            &&& out.2 == Some(
                seq![(addr as usize, (addr + data.len()) as usize, AccessFailure::Denied)],
            )
        }),
{
    let len = data.len() as int;
    let c = m.cfg();
    assert(seq_overlapping(pop, addr, addr + len) =~= pop) by {
        assert(pop.drop_first() =~= Seq::<(usize, usize, ComponentId)>::empty());
        assert(seq_overlapping(pop.drop_first(), addr, addr + len) =~= Seq::<
            (usize, usize, ComponentId),
        >::empty());
        assert(range_overlaps(rs as int, re as int, addr, addr + len));
    }
    let records = op_records(store, cid as int, MemoryOperation::Write, addr, len);
    assert(pop[0].2.0 == cid);
    assert(std_write_records(c, addr, len) =~= seq![
        (addr as usize, (addr + len) as usize, WriteMemoryRecord::Denied),
    ]);
    assert(records =~= seq![(addr as usize, (addr + len) as usize, AccessRecord::Denied)]);
    assert(records.drop_first() =~= Seq::<(usize, usize, AccessRecord)>::empty());
    assert(hard_failures(records.drop_first(), rs as int, re as int) =~= Seq::<
        (usize, usize, AccessFailure),
    >::empty());
    assert(hard_failures(records, rs as int, re as int) =~= seq![
        (addr as usize, (addr + len) as usize, AccessFailure::Denied),
    ]);
    let mems1 = mems_updated(store_mems(store), store, cid as int, MemoryOperation::Write, addr, data);
    assert(comp_mem_after(store[cid as int].component, store_mems(store)[cid as int], MemoryOperation::Write, addr, data)
        == store_mems(store)[cid as int]);
    assert(mems1 =~= store_mems(store));
    let out = spec_dispatch(
        store,
        store_mems(store),
        pop,
        MemoryOperation::Write,
        addr,
        0,
        len,
        data,
        8,
    );
    assert(data.subrange(0, len) =~= data);
    let wcomps = spec_dispatch_comps(
        store,
        store_mems(store),
        pop,
        MemoryOperation::Write,
        addr,
        0,
        len,
        data,
        8,
        pop,
    );
    assert(out == wcomps);
    assert(out.1 == store_mems(store));
    assert(out.2 == Some(seq![(addr as usize, (addr + len) as usize, AccessFailure::Denied)]));
}

/// A well-formed population whose entries are all one non-empty entry is
/// exactly that entry: two equal non-empty ranges would overlap. This links
/// what the machine builder ensures for a fresh bus with one registration
/// to the single-owner laws below.
pub proof fn lemma_single_owner_population(
    pop: Seq<(usize, usize, ComponentId)>,
    rs: usize,
    re: usize,
    id: ComponentId,
)
    requires
        entries_wf(pop),
        rs < re,
        pop.contains((rs, re, id)),
        forall|k: int| 0 <= k < pop.len() ==> #[trigger] pop[k] == (rs, re, id),
    ensures
        pop == seq![(rs, re, id)],
{
    if pop.len() > 1 {
        assert(pop[0].1 <= pop[1].0);
        assert(false);
    }
    assert(pop =~= seq![(rs, re, id)]);
}

/// Law: an in-range read through the bus returns the memory's bytes.
/// Against a readable standard memory that alone owns a range covering the
/// access, a read succeeds and fills the buffer with exactly the bytes the
/// memory holds at those addresses — for a fresh memory, the bytes its
/// configured initial contents pin down.
pub proof fn lemma_translated_in_range_read(
    store: Seq<ComponentRecord>,
    pop: Seq<(usize, usize, ComponentId)>,
    cid: usize,
    rs: usize,
    re: usize,
    m: StandardMemory,
    addr: int,
    buf: Seq<u8>,
)
    requires
        pop == seq![(rs, re, ComponentId(cid))],
        cid < store.len(),
        store[cid as int].component == crate::component::ComponentKind::Standard(m),
        m.wf(),
        m.cfg().readable,
        rs == m.cfg().assigned_range.start,
        re == m.cfg().assigned_range.end,
        crate::valid_access_size(buf.len() as int),
        rs <= addr,
        addr + buf.len() <= re,
    ensures
        ({
            let out = spec_dispatch(
                store,
                store_mems(store),
                pop,
                MemoryOperation::Read,
                addr,
                0,
                buf.len() as int,
                buf,
                8,
            );
            &&& out.2 is None
            &&& out.0 == m.mem().subrange(addr - rs, addr - rs + buf.len())
            &&& out.1 == store_mems(store)
        }),
{
    let len = buf.len() as int;
    let c = m.cfg();
    assert(seq_overlapping(pop, addr, addr + len) =~= pop) by {
        assert(pop.drop_first() =~= Seq::<(usize, usize, ComponentId)>::empty());
        assert(seq_overlapping(pop.drop_first(), addr, addr + len) =~= Seq::<
            (usize, usize, ComponentId),
        >::empty());
        assert(range_overlaps(rs as int, re as int, addr, addr + len));
    }
    let ghost rest = pop.drop_first();
    assert(pop[0].2.0 == cid);
    let records = op_records(store, cid as int, MemoryOperation::Read, addr, len);
    assert(std_read_records(c, addr, len) =~= Seq::<(usize, usize, ReadMemoryRecord)>::empty());
    assert(records =~= Seq::<(usize, usize, AccessRecord)>::empty());
    assert(hard_failures(records, rs as int, re as int) =~= Seq::<
        (usize, usize, AccessFailure),
    >::empty());
    assert(redirect_list(records, rs as int, re as int) =~= Seq::<(usize, usize, usize)>::empty());
    let data = m.mem().subrange(addr - rs, addr - rs + len);
    assert(op_fill(store, cid as int, MemoryOperation::Read, addr, len) == Some(data));
    let filled = buf.update_subrange_with(0, data);
    assert(filled =~= data);
    let mems1 = mems_updated(
        store_mems(store),
        store,
        cid as int,
        MemoryOperation::Read,
        addr,
        buf.subrange(0, len),
    );
    assert(mems1 =~= store_mems(store));
    let out = spec_dispatch(
        store,
        store_mems(store),
        pop,
        MemoryOperation::Read,
        addr,
        0,
        len,
        buf,
        8,
    );
    let rcomps = spec_dispatch_comps(
        store,
        store_mems(store),
        pop,
        MemoryOperation::Read,
        addr,
        0,
        len,
        buf,
        8,
        pop,
    );
    assert(out == rcomps);
    assert(rcomps == spec_dispatch_redirects(
        store,
        mems1,
        pop,
        MemoryOperation::Read,
        addr,
        0,
        len,
        filled,
        8,
        Seq::<(usize, usize, usize)>::empty(),
        rest,
    ));
    assert(spec_dispatch_redirects(
        store,
        mems1,
        pop,
        MemoryOperation::Read,
        addr,
        0,
        len,
        filled,
        8,
        Seq::<(usize, usize, usize)>::empty(),
        rest,
    ) == spec_dispatch_comps(
        store,
        mems1,
        pop,
        MemoryOperation::Read,
        addr,
        0,
        len,
        filled,
        8,
        rest,
    ));
    assert(spec_dispatch_comps(
        store,
        mems1,
        pop,
        MemoryOperation::Read,
        addr,
        0,
        len,
        filled,
        8,
        rest,
    ) == (filled, mems1, Option::<Seq<(usize, usize, AccessFailure)>>::None));
    assert(out.2 is None);
    assert(out.0 == data);
    assert(out.1 == store_mems(store));
}

/// Law: an out-of-range read through the bus reports the denied tail.
/// Against a readable standard memory that alone owns `[rs, re)`, a read
/// starting inside the range but running past its end fails with exactly
/// the denial of `[re, addr + len)`, and the buffer and every component's
/// bytes are untouched.
pub proof fn lemma_translated_out_of_range_read(
    store: Seq<ComponentRecord>,
    pop: Seq<(usize, usize, ComponentId)>,
    cid: usize,
    rs: usize,
    re: usize,
    m: StandardMemory,
    addr: int,
    buf: Seq<u8>,
)
    requires
        pop == seq![(rs, re, ComponentId(cid))],
        cid < store.len(),
        store[cid as int].component == crate::component::ComponentKind::Standard(m),
        m.cfg().readable,
        rs == m.cfg().assigned_range.start,
        re == m.cfg().assigned_range.end,
        crate::valid_access_size(buf.len() as int),
        rs <= addr < re,
        re < addr + buf.len(),
        addr + buf.len() <= usize::MAX,
    ensures
        ({
            let out = spec_dispatch(
                store,
                store_mems(store),
                pop,
                MemoryOperation::Read,
                addr,
                0,
                buf.len() as int,
                buf,
                8,
            );
            &&& out.0 == buf
            &&& out.1 == store_mems(store)
            &&& out.2 == Some(
                seq![(re, (addr + buf.len()) as usize, AccessFailure::Denied)],
            )
        }),
{
    let len = buf.len() as int;
    let c = m.cfg();
    assert(seq_overlapping(pop, addr, addr + len) =~= pop) by {
        assert(pop.drop_first() =~= Seq::<(usize, usize, ComponentId)>::empty());
        assert(seq_overlapping(pop.drop_first(), addr, addr + len) =~= Seq::<
            (usize, usize, ComponentId),
        >::empty());
        assert(range_overlaps(rs as int, re as int, addr, addr + len));
    }
    assert(pop[0].2.0 == cid);
    let records = op_records(store, cid as int, MemoryOperation::Read, addr, len);
    assert(std_read_records(c, addr, len) =~= seq![
        (re, (addr + len) as usize, ReadMemoryRecord::Denied),
    ]);
    assert(records =~= seq![(re, (addr + len) as usize, AccessRecord::Denied)]);
    assert(records.drop_first() =~= Seq::<(usize, usize, AccessRecord)>::empty());
    assert(hard_failures(records.drop_first(), rs as int, re as int) =~= Seq::<
        (usize, usize, AccessFailure),
    >::empty());
    assert(hard_failures(records, rs as int, re as int) =~= seq![
        (re, (addr + len) as usize, AccessFailure::Denied),
    ]);
    assert(op_fill(store, cid as int, MemoryOperation::Read, addr, len) is None);
    let mems1 = mems_updated(
        store_mems(store),
        store,
        cid as int,
        MemoryOperation::Read,
        addr,
        buf.subrange(0, len),
    );
    assert(mems1 =~= store_mems(store));
    let out = spec_dispatch(
        store,
        store_mems(store),
        pop,
        MemoryOperation::Read,
        addr,
        0,
        len,
        buf,
        8,
    );
    let rcomps = spec_dispatch_comps(
        store,
        store_mems(store),
        pop,
        MemoryOperation::Read,
        addr,
        0,
        len,
        buf,
        8,
        pop,
    );
    assert(out == rcomps);
    assert(out.0 == buf);
    assert(out.1 == store_mems(store));
    assert(out.2 == Some(seq![(re, (addr + len) as usize, AccessFailure::Denied)]));
}

/// Law: no component of a well-formed table redirects into its own
/// registered range. A registered range of a mirror lies inside its
/// configured range (the table invariant), the mirror's target region is
/// disjoint from that range (its own invariant), and no other component
/// redirects at all — so a redirect to self is a programmer error the
/// invariants rule out, never a machine error: every hard failure of an
/// access is a denial or impossibility the component itself reported.
pub proof fn lemma_self_redirect_excluded(
    store: Seq<ComponentRecord>,
    cs: usize,
    ce: usize,
    cid: usize,
    op: MemoryOperation,
    addr: int,
    len: int,
)
    requires
        cid < store.len(),
        kind_wf(store[cid as int].component),
        match store[cid as int].component {
            ComponentKind::Mirror(m) => m.cfg().assigned_range.start <= cs && ce
                <= m.cfg().assigned_range.end,
            _ => true,
        },
        cs <= addr < ce,
    ensures
        forall|i: int|
            0 <= i < comp_records(store[cid as int].component, op, addr, len).len() ==> match (
            #[trigger] comp_records(store[cid as int].component, op, addr, len)[i]).2 {
                AccessRecord::Redirect { address } => !(cs as int <= address < ce as int),
                _ => true,
            },
        hard_failures(
            comp_records(store[cid as int].component, op, addr, len),
            cs as int,
            ce as int,
        ) == reported_failures(comp_records(store[cid as int].component, op, addr, len)),
{
    let records = comp_records(store[cid as int].component, op, addr, len);
    assert forall|i: int| 0 <= i < records.len() implies match (#[trigger] records[i]).2 {
        AccessRecord::Redirect { address } => !(cs as int <= address < ce as int),
        _ => true,
    } by {
        match store[cid as int].component {
            ComponentKind::Standard(m) => {
                match op {
                    MemoryOperation::Read => {
                        assert(std_read_records(m.cfg(), addr, len)[i].2
                            == ReadMemoryRecord::Denied);
                    },
                    MemoryOperation::Write => {
                        assert(std_write_records(m.cfg(), addr, len)[i].2
                            == WriteMemoryRecord::Denied);
                    },
                    MemoryOperation::Preview => {
                        assert(crate::standard_memory::std_preview_records(m.cfg(), addr, len)[i].2
                            == crate::access::PreviewMemoryRecord::Denied);
                    },
                }
            },
            ComponentKind::Rom(m) => {
                match op {
                    MemoryOperation::Read => {
                        assert(crate::rom_memory::rom_read_records(
                            m.cfg(),
                            m.rom().len() as int,
                            addr,
                            len,
                        )[i].2 == ReadMemoryRecord::Denied);
                    },
                    MemoryOperation::Write => {
                        assert(crate::rom_memory::rom_write_records(addr, len)[i].2
                            == WriteMemoryRecord::Denied);
                    },
                    MemoryOperation::Preview => {
                        assert(crate::rom_memory::rom_preview_records(
                            m.cfg(),
                            m.rom().len() as int,
                            addr,
                            len,
                        )[i].2 == crate::access::PreviewMemoryRecord::Denied);
                    },
                }
            },
            ComponentKind::Mirror(m) => {
                let c = m.cfg();
                assert(mirror_config_wf(c));
                match mirror_record(c, addr, len).2 {
                    AccessRecord::Redirect { address } => {
                        let t = mirror_target(c, addr);
                        assert(address == t as usize && t <= usize::MAX);
                        assert(c.assigned_range.start <= addr);
                        let off = addr - c.assigned_range.start;
                        assert(t == c.target_base + off);
                        assert(off < c.assigned_range.end - c.assigned_range.start);
                        if c.target_base + (c.assigned_range.end - c.assigned_range.start)
                            <= c.assigned_range.start {
                            assert(t < c.assigned_range.start <= cs);
                        } else {
                            assert(c.assigned_range.end <= c.target_base);
                            assert(t >= c.assigned_range.end >= ce);
                        }
                    },
                    _ => {},
                }
            },
            ComponentKind::Display(_) => {},
        }
    }
    lemma_hard_failures_no_self_redirect(records, cs as int, ce as int);
}

/// Law: redirect termination, end to end. Over a bus whose two mirrors
/// redirect at each other's block, resolving an access needs a hop for
/// every bounce, so it exhausts any hop budget: the operation returns the
/// out-of-bus error on one sub-range — the buffer and every component's
/// bytes untouched — instead of looping.
pub proof fn lemma_redirect_cycle_is_refused(
    store: Seq<ComponentRecord>,
    pop: Seq<(usize, usize, ComponentId)>,
    w: usize,
    ww: usize,
    ma: MirrorMemory,
    mb: MirrorMemory,
    op: MemoryOperation,
    base: usize,
    buf: Seq<u8>,
    mems: Seq<Seq<u8>>,
    b: nat,
)
    requires
        pop == seq![(0usize, w, ComponentId(0)), (w, ww, ComponentId(1))],
        ww == w + w,
        store.len() >= 2,
        mems.len() == store.len(),
        store[0].component == ComponentKind::Mirror(ma),
        store[1].component == ComponentKind::Mirror(mb),
        ma.cfg().assigned_range.start == 0 && ma.cfg().assigned_range.end == w
            && ma.cfg().target_base == w,
        mb.cfg().assigned_range.start == w && mb.cfg().assigned_range.end == ww
            && mb.cfg().target_base == 0,
        1 <= buf.len() <= w,
        w + buf.len() + 16 <= usize::MAX,
        base == 0 || base == w,
    ensures
        ({
            let out = spec_dispatch(
                store,
                mems,
                pop,
                op,
                base as int,
                0,
                buf.len() as int,
                buf,
                b,
            );
            &&& out.0 == buf
            &&& out.1 == mems
            &&& out.2 is Some
            &&& out.2->0.len() == 1
            &&& out.2->0[0].2 == AccessFailure::OutOfBus
        }),
    decreases b,
{
    let len = buf.len() as int;
    let lo = base as int;
    let entry = if base == 0 {
        pop[0]
    } else {
        pop[1]
    };
    assert(seq_overlapping(pop, lo, lo + len) =~= seq![entry]) by {
        assert(pop.drop_first() =~= seq![(w, ww, ComponentId(1))]);
        assert(pop.drop_first().drop_first() =~= Seq::<(usize, usize, ComponentId)>::empty());
        assert(seq_overlapping(pop.drop_first().drop_first(), lo, lo + len) =~= Seq::<
            (usize, usize, ComponentId),
        >::empty());
        if base == 0 {
            assert(range_overlaps(0, w as int, lo, lo + len));
            assert(!range_overlaps(w as int, ww as int, lo, lo + len));
            assert(seq_overlapping(pop.drop_first(), lo, lo + len) =~= Seq::<
                (usize, usize, ComponentId),
            >::empty());
        } else {
            assert(!range_overlaps(0, w as int, lo, lo + len));
            assert(range_overlaps(w as int, ww as int, lo, lo + len));
            assert(seq_overlapping(pop.drop_first(), lo, lo + len) =~= seq![pop[1]]);
        }
    }
    let cs = entry.0 as int;
    let ce = entry.1 as int;
    let cid = entry.2.0 as int;
    let m = if base == 0 {
        ma
    } else {
        mb
    };
    let target: int = if base == 0 {
        w as int
    } else {
        0
    };
    assert(cs == lo);
    let records = op_records(store, cid, op, lo, len);
    assert(records == seq![mirror_record(m.cfg(), lo, len)]);
    assert(mirror_target(m.cfg(), lo) == target);
    assert(mirror_record(m.cfg(), lo, len) == (
        base,
        (lo + len) as usize,
        AccessRecord::Redirect { address: target as usize },
    ));
    assert(records.drop_first() =~= Seq::<(usize, usize, AccessRecord)>::empty());
    assert(hard_failures(records.drop_first(), cs, ce) =~= Seq::<
        (usize, usize, AccessFailure),
    >::empty());
    assert(redirect_list(records.drop_first(), cs, ce) =~= Seq::<(usize, usize, usize)>::empty());
    assert(!(cs <= target < ce));
    assert(hard_failures(records, cs, ce) =~= Seq::<(usize, usize, AccessFailure)>::empty());
    let reds = seq![(base, (lo + len) as usize, target as usize)];
    assert(redirect_list(records, cs, ce) =~= reds);
    assert(op_fill(store, cid, op, lo, len) is None);
    let mems1 = mems_updated(mems, store, cid, op, lo, buf.subrange(0, len));
    assert(comp_mem_after(store[cid].component, mems[cid], op, lo, buf.subrange(0, len))
        == mems[cid]);
    assert(mems1 =~= mems);
    let out = spec_dispatch(store, mems, pop, op, lo, 0, len, buf, b);
    let comps_out = spec_dispatch_comps(store, mems, pop, op, lo, 0, len, buf, b, seq![entry]);
    assert(out == comps_out);
    assert(seq![entry].drop_first() =~= Seq::<(usize, usize, ComponentId)>::empty());
    let rd_out = spec_dispatch_redirects(
        store,
        mems,
        pop,
        op,
        lo,
        0,
        len,
        buf,
        b,
        reds,
        Seq::<(usize, usize, ComponentId)>::empty(),
    );
    assert(comps_out == rd_out);
    if b == 0 {
        assert(rd_out == (
            buf,
            mems,
            Some(seq![(base, (lo + len) as usize, AccessFailure::OutOfBus)]),
        ));
    } else {
        assert(base <= base && lo < lo + len && (lo + len) - lo <= buf.len());
        assert(!(target + len + 16 > usize::MAX));
        lemma_redirect_cycle_is_refused(
            store,
            pop,
            w,
            ww,
            ma,
            mb,
            op,
            target as usize,
            buf,
            mems,
            (b - 1) as nat,
        );
        let sub = spec_dispatch(store, mems, pop, op, target, 0, len, buf, (b - 1) as nat);
        assert(sub.2 is Some);
        assert(rd_out == sub);
    }
}

/// Law: a redirect chain longer than the hop budget is refused, not
/// followed: with the budget spent, a pending redirect resolves to the
/// out-of-bus error on its sub-range. Dispatch is total by construction —
/// the budget strictly decreases with every hop — so no access loops.
pub proof fn lemma_redirect_budget_exhausted(
    store: Seq<ComponentRecord>,
    mems: Seq<Seq<u8>>,
    pop: Seq<(usize, usize, ComponentId)>,
    op: MemoryOperation,
    base: int,
    s: int,
    e: int,
    buf: Seq<u8>,
    redirects: Seq<(usize, usize, usize)>,
    rest: Seq<(usize, usize, ComponentId)>,
)
    requires
        redirects.len() > 0,
    ensures
        spec_dispatch_redirects(store, mems, pop, op, base, s, e, buf, 0, redirects, rest).2
            == Some(seq![(redirects[0].0, redirects[0].1, AccessFailure::OutOfBus)]),
{
}

/// Law: bus-width masking: an access at `addr` is routed exactly as the
/// access at `addr` reduced modulo 2^width, the mirror addressing of a
/// narrow bus.
pub proof fn lemma_bus_width_masking(addr: int, width: int)
    requires
        0 <= addr,
        1 <= width <= 64,
    ensures
        spec_mask(addr, width) == spec_mask(addr % (pow2(width as nat) as int), width),
{
    lemma_pow2_pos(width as nat);
    lemma_mod_twice(addr, pow2(width as nat) as int);
}

} // verus!

use vstd::prelude::*;

verus! {

/// Two half-open ranges `[s0, e0)` and `[lo, hi)` share at least one address.
pub open spec fn range_overlaps(s0: int, e0: int, lo: int, hi: int) -> bool {
    s0 < hi && lo < e0
}

/// Entries are sorted by start, pairwise disjoint, and every range is non-empty.
pub open spec fn entries_wf<V>(s: Seq<(usize, usize, V)>) -> bool {
    &&& forall|i: int| 0 <= i < s.len() ==> (#[trigger] s[i]).0 < s[i].1
    &&& forall|i: int, j: int| 0 <= i < j < s.len() ==> (#[trigger] s[i]).1 <= (#[trigger] s[j]).0
}

/// The value stored for `addr`, if some entry's range contains it.
pub open spec fn seq_lookup<V>(s: Seq<(usize, usize, V)>, addr: int) -> Option<V>
    decreases s.len(),
{
    if s.len() == 0 {
        None
    } else if s[0].0 <= addr < s[0].1 {
        Some(s[0].2)
    } else {
        seq_lookup(s.drop_first(), addr)
    }
}

/// The subsequence of entries whose range overlaps `[lo, hi)`, in table order.
pub open spec fn seq_overlapping<V>(s: Seq<(usize, usize, V)>, lo: int, hi: int) -> Seq<
    (usize, usize, V),
>
    decreases s.len(),
{
    if s.len() == 0 {
        Seq::empty()
    } else {
        let rest = seq_overlapping(s.drop_first(), lo, hi);
        if range_overlaps(s[0].0 as int, s[0].1 as int, lo, hi) {
            seq![s[0]] + rest
        } else {
            rest
        }
    }
}

pub proof fn lemma_seq_overlapping_len<V>(s: Seq<(usize, usize, V)>, lo: int, hi: int)
    ensures
        seq_overlapping(s, lo, hi).len() <= s.len(),
    decreases s.len(),
{
    if s.len() > 0 {
        lemma_seq_overlapping_len(s.drop_first(), lo, hi);
    }
}

/// Every selected entry occurs in the table and overlaps the queried range.
pub proof fn lemma_seq_overlapping_elems<V>(s: Seq<(usize, usize, V)>, lo: int, hi: int)
    ensures
        forall|k: int|
            0 <= k < seq_overlapping(s, lo, hi).len() ==> {
                let x = #[trigger] seq_overlapping(s, lo, hi)[k];
                &&& range_overlaps(x.0 as int, x.1 as int, lo, hi)
                &&& exists|j: int| 0 <= j < s.len() && s[j] == x
            },
    decreases s.len(),
{
    if s.len() > 0 {
        lemma_seq_overlapping_elems(s.drop_first(), lo, hi);
        assert forall|k: int| 0 <= k < seq_overlapping(s, lo, hi).len() implies {
            let x = #[trigger] seq_overlapping(s, lo, hi)[k];
            &&& range_overlaps(x.0 as int, x.1 as int, lo, hi)
            &&& exists|j: int| 0 <= j < s.len() && s[j] == x
        } by {
            let x = seq_overlapping(s, lo, hi)[k];
            let head_in = range_overlaps(s[0].0 as int, s[0].1 as int, lo, hi);
            if head_in && k == 0 {
                assert(s[0] == x);
            } else {
                let k2 = if head_in { k - 1 } else { k };
                let rest = seq_overlapping(s.drop_first(), lo, hi);
                assert(rest[k2] == x);
                let j2 = choose|j: int| 0 <= j < s.drop_first().len() && s.drop_first()[j] == x;
                assert(s[j2 + 1] == x);
            }
        }
    }
}

pub proof fn lemma_seq_overlapping_push<V>(s: Seq<(usize, usize, V)>, x: (usize, usize, V), lo: int, hi: int)
    ensures
        seq_overlapping(s.push(x), lo, hi) == if range_overlaps(x.0 as int, x.1 as int, lo, hi) {
            seq_overlapping(s, lo, hi).push(x)
        } else {
            seq_overlapping(s, lo, hi)
        },
    decreases s.len(),
{
    if s.len() == 0 {
        assert(s.push(x).drop_first() =~= Seq::<(usize, usize, V)>::empty());
        assert(seq_overlapping(s.push(x).drop_first(), lo, hi) =~= Seq::<
            (usize, usize, V),
        >::empty());
        assert(s.push(x)[0] == x);
        if range_overlaps(x.0 as int, x.1 as int, lo, hi) {
            assert(seq_overlapping(s.push(x), lo, hi) =~= seq_overlapping(s, lo, hi).push(x));
        } else {
            assert(seq_overlapping(s.push(x), lo, hi) =~= seq_overlapping(s, lo, hi));
        }
    } else {
        assert(s.push(x).drop_first() =~= s.drop_first().push(x));
        lemma_seq_overlapping_push(s.drop_first(), x, lo, hi);
        assert(s.push(x)[0] == s[0]);
        if range_overlaps(x.0 as int, x.1 as int, lo, hi) {
            assert(seq_overlapping(s.push(x), lo, hi) =~= seq_overlapping(s, lo, hi).push(x));
        } else {
            assert(seq_overlapping(s.push(x), lo, hi) =~= seq_overlapping(s, lo, hi));
        }
    }
}

/// When no entry overlaps `[lo, hi)`, the selection is empty, and conversely.
pub proof fn lemma_seq_overlapping_empty<V>(s: Seq<(usize, usize, V)>, lo: int, hi: int)
    ensures
        seq_overlapping(s, lo, hi).len() == 0 <==> forall|i: int|
            0 <= i < s.len() ==> !range_overlaps((#[trigger] s[i]).0 as int, s[i].1 as int, lo, hi),
    decreases s.len(),
{
    if s.len() > 0 {
        lemma_seq_overlapping_empty(s.drop_first(), lo, hi);
        if seq_overlapping(s, lo, hi).len() == 0 {
            assert forall|i: int|
                0 <= i < s.len() implies !range_overlaps(
                (#[trigger] s[i]).0 as int,
                s[i].1 as int,
                lo,
                hi,
            ) by {
                if i > 0 {
                    assert(s.drop_first()[i - 1] == s[i]);
                }
            }
        } else {
        }
    }
}

/// An ordered map from disjoint half-open address ranges to values: the
/// primitive behind bus populations and per-range error reports.
#[derive(Debug)]
pub struct RangeTable<V> {
    items: Vec<(usize, usize, V)>,
}

impl<V> View for RangeTable<V> {
    type V = Seq<(usize, usize, V)>;

    closed spec fn view(&self) -> Seq<(usize, usize, V)> {
        self.items@
    }
}

impl<V: Copy> RangeTable<V> {
    pub open spec fn wf(&self) -> bool {
        entries_wf(self@)
    }

    pub fn new() -> (r: Self)
        ensures
            r@ == Seq::<(usize, usize, V)>::empty(),
            r.wf(),
    {
        let r = RangeTable { items: Vec::new() };
        assert(r@ =~= Seq::<(usize, usize, V)>::empty());
        r
    }

    pub fn from_entries(entries: Vec<(usize, usize, V)>) -> (r: Self)
        ensures
            r@ == entries@,
    {
        RangeTable { items: entries }
    }

    pub fn into_entries(self) -> (r: Vec<(usize, usize, V)>)
        ensures
            r@ == self@,
    {
        self.items
    }

    pub fn is_empty(&self) -> (r: bool)
        ensures
            r == (self@.len() == 0),
    {
        self.items.len() == 0
    }

    pub fn num_entries(&self) -> (n: usize)
        ensures
            n == self@.len(),
    {
        self.items.len()
    }

    pub fn entry_at(&self, i: usize) -> (e: (usize, usize, V))
        requires
            i < self@.len(),
        ensures
            e == self@[i as int],
    {
        self.items[i]
    }

    /// The value covering `addr`, if any.
    pub fn lookup(&self, addr: usize) -> (r: Option<V>)
        ensures
            r == seq_lookup(self@, addr as int),
    {
        let n = self.items.len();
        let mut i: usize = 0;
        proof {
            assert(self@.skip(0) =~= self@);
        }
        while i < n
            invariant
                0 <= i <= n,
                n == self@.len(),
                seq_lookup(self@, addr as int) == seq_lookup(self@.skip(i as int), addr as int),
            decreases n - i,
        {
            let (s, e, v) = self.items[i];
            proof {
                assert(self@.skip(i as int).len() == n - i);
                assert(self@.skip(i as int)[0] == self@[i as int]);
            }
            if s <= addr && addr < e {
                return Some(v);
            }
            proof {
                assert(self@.skip(i as int).drop_first() =~= self@.skip(i as int + 1));
            }
            i = i + 1;
        }
        proof {
            assert(self@.skip(n as int).len() == 0);
        }
        None
    }

    /// Append an entry that starts at or after the end of the last entry.
    pub fn push_entry(&mut self, start: usize, end: usize, value: V)
        requires
            start < end,
            old(self)@.len() > 0 ==> old(self)@.last().1 <= start,
        ensures
            final(self)@ == old(self)@.push((start, end, value)),
            old(self).wf() ==> final(self).wf(),
    {
        proof {
            if old(self).wf() {
                assert forall|i: int, j: int|
                    0 <= i < j < old(self)@.push((start, end, value)).len() implies (
                #[trigger] old(self)@.push((start, end, value))[i]).1 <= (#[trigger] old(
                    self,
                )@.push((start, end, value))[j]).0 by {
                    if j < old(self)@.len() {
                    } else {
                        assert((old(self)@.push((start, end, value))[j]).0 == start);
                        assert(old(self)@[old(self)@.len() - 1].1 <= start);
                    }
                }
            }
        }
        self.items.push((start, end, value));
    }

    /// Insert an entry disjoint from every existing one, keeping the order.
    pub fn insert_entry(&mut self, start: usize, end: usize, value: V)
        requires
            old(self).wf(),
            start < end,
            forall|i: int|
                0 <= i < old(self)@.len() ==> ((#[trigger] old(self)@[i]).1 <= start || end <= old(
                    self,
                )@[i].0),
        ensures
            final(self).wf(),
            exists|k: int|
                0 <= k <= old(self)@.len() && final(self)@ == old(self)@.insert(
                    k,
                    (start, end, value),
                ),
    {
        let n = self.items.len();
        let mut idx: usize = 0;
        while idx < n && self.items[idx].1 <= start
            invariant
                0 <= idx <= n,
                n == self@.len(),
                forall|j: int| 0 <= j < idx ==> (#[trigger] self@[j]).1 <= start,
            decreases n - idx,
        {
            idx = idx + 1;
        }
        proof {
            assert(forall|j: int| 0 <= j < idx ==> (#[trigger] self@[j]).1 <= start);
            if (idx as int) < self@.len() {
                assert(self@[idx as int].1 > start);
                assert(end <= self@[idx as int].0 || self@[idx as int].1 <= start);
            }
        }
        let ghost old_seq = self@;
        self.items.insert(idx, (start, end, value));
        proof {
            let new_seq = old_seq.insert(idx as int, (start, end, value));
            assert(self@ == new_seq);
            assert forall|i: int| 0 <= i < new_seq.len() implies (#[trigger] new_seq[i]).0
                < new_seq[i].1 by {
                if i < idx {
                    assert(new_seq[i] == old_seq[i]);
                } else if i == idx {
                } else {
                    assert(new_seq[i] == old_seq[i - 1]);
                }
            }
            assert forall|i: int, j: int| 0 <= i < j < new_seq.len() implies (
            #[trigger] new_seq[i]).1 <= (#[trigger] new_seq[j]).0 by {
                if i < idx && j < idx {
                    assert(new_seq[i] == old_seq[i] && new_seq[j] == old_seq[j]);
                } else if i < idx && j == idx {
                    assert(new_seq[i] == old_seq[i]);
                } else if i < idx && j > idx {
                    assert(new_seq[i] == old_seq[i] && new_seq[j] == old_seq[j - 1]);
                    if j - 1 == i {
                        assert(old_seq[i].1 <= start);
                        assert(start < end);
                        assert(end <= old_seq[i].0 || old_seq[i].1 <= start);
                    }
                } else if i == idx {
                    assert(new_seq[j] == old_seq[j - 1]);
                    assert(idx <= j - 1 < old_seq.len());
                    if idx < old_seq.len() {
                        assert(old_seq[idx as int].1 > start);
                        assert(end <= old_seq[idx as int].0 || old_seq[idx as int].1 <= start);
                        assert(end <= old_seq[idx as int].0);
                        if j - 1 > idx {
                            assert(old_seq[idx as int].1 <= old_seq[j - 1].0);
                            assert(old_seq[idx as int].0 < old_seq[idx as int].1);
                        }
                    }
                } else {
                    assert(new_seq[i] == old_seq[i - 1] && new_seq[j] == old_seq[j - 1]);
                }
            }
            assert(0 <= idx as int <= old_seq.len() && self@ == old_seq.insert(
                idx as int,
                (start, end, value),
            ));
        }
    }

    /// All entries overlapping `[lo, hi)`, in table order.
    pub fn overlapping(&self, lo: usize, hi: usize) -> (r: Vec<(usize, usize, V)>)
        ensures
            r@ == seq_overlapping(self@, lo as int, hi as int),
    {
        let n = self.items.len();
        let mut r: Vec<(usize, usize, V)> = Vec::new();
        let mut i: usize = 0;
        proof {
            assert(self@.take(0) =~= Seq::empty());
        }
        while i < n
            invariant
                0 <= i <= n,
                n == self@.len(),
                r@ == seq_overlapping(self@.take(i as int), lo as int, hi as int),
            decreases n - i,
        {
            let (s, e, v) = self.items[i];
            proof {
                assert(self@.take(i as int + 1) =~= self@.take(i as int).push(self@[i as int]));
                lemma_seq_overlapping_push(self@.take(i as int), self@[i as int], lo as int, hi as int);
            }
            if s < hi && lo < e {
                r.push((s, e, v));
            }
            i = i + 1;
        }
        proof {
            assert(self@.take(n as int) =~= self@);
        }
        r
    }
}

} // verus!

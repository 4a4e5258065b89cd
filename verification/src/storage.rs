//! Passive inventory pools: chests (unfiltered) and drawers (restricted to
//! configured filters), each a fixed row of slots behind network accesses.
//!
//! Exposed operations are `list`, `extract` (best effort, never exceeding
//! what is available) and `insert` (best effort, never exceeding free
//! capacity for the item).

use vstd::prelude::*;

use crate::access::BusAccess;
use crate::item::{Detail, DetailStack, Filter};
use crate::util::{wit1, wit2};

verus! {

/// Bound on the number of slots one storage may have. Together with the
/// bound on storages per factory it keeps every aggregate item count well
/// within `u64`.
pub const MAX_SLOTS_PER_STORAGE: usize = 4096;

/// Two stacks hold the same item when label, name and inherent stack size
/// all agree.
pub open spec fn same_item(a: Detail, b: Detail) -> bool {
    a.label@ == b.label@ && a.name@ == b.name@ && a.max_stack_size == b.max_stack_size
}

/// Whether any filter of the list matches the item.
pub fn any_filter_matches(filters: &Vec<Filter>, d: &Detail) -> (r: bool)
    ensures
        r == exists|i: int|
            0 <= i < filters@.len() && (#[trigger] filters@[i]).spec_matches(d.label@, d.name@),
{
    let mut i: usize = 0;
    while i < filters.len()
        invariant
            i <= filters@.len(),
            forall|j: int| 0 <= j < i ==> !(#[trigger] filters@[j]).spec_matches(
                d.label@,
                d.name@,
            ),
        decreases filters@.len() - i,
    {
        if filters[i].matches(&d.label, &d.name) {
            return true;
        }
        i += 1;
    }
    false
}

pub fn details_eq(a: &Detail, b: &Detail) -> (r: bool)
    ensures
        r == same_item(*a, *b),
{
    a.label == b.label && a.name == b.name && a.max_stack_size == b.max_stack_size
}

/// How many units in one slot match the filter.
pub open spec fn slot_count(s: Option<DetailStack>, f: Filter) -> int {
    match s {
        Some(st) => if f.spec_matches(st.detail.label@, st.detail.name@) {
            st.size as int
        } else {
            0
        },
        None => 0,
    }
}

/// Total units matching the filter over a row of slots.
pub open spec fn count_matching(slots: Seq<Option<DetailStack>>, f: Filter) -> int
    decreases slots.len(),
{
    if slots.len() == 0 {
        0
    } else {
        count_matching(slots.drop_last(), f) + slot_count(slots.last(), f)
    }
}

pub proof fn lemma_count_matching_nonneg(slots: Seq<Option<DetailStack>>, f: Filter)
    ensures
        0 <= count_matching(slots, f),
    decreases slots.len(),
{
    if slots.len() > 0 {
        lemma_count_matching_nonneg(slots.drop_last(), f);
    }
}

pub proof fn lemma_count_matching_bound(slots: Seq<Option<DetailStack>>, f: Filter)
    ensures
        count_matching(slots, f) <= slots.len() * (u32::MAX as int),
    decreases slots.len(),
{
    if slots.len() > 0 {
        lemma_count_matching_bound(slots.drop_last(), f);
    }
}

/// How many units of one slot hold exactly the given item.
pub open spec fn slot_item_count(s: Option<DetailStack>, d: Detail) -> int {
    match s {
        Some(st) => if same_item(st.detail, d) {
            st.size as int
        } else {
            0
        },
        None => 0,
    }
}

/// Total units of exactly the given item over a row of slots.
pub open spec fn count_item(slots: Seq<Option<DetailStack>>, d: Detail) -> int
    decreases slots.len(),
{
    if slots.len() == 0 {
        0
    } else {
        count_item(slots.drop_last(), d) + slot_item_count(slots.last(), d)
    }
}

pub proof fn lemma_count_item_nonneg(slots: Seq<Option<DetailStack>>, d: Detail)
    ensures
        0 <= count_item(slots, d),
    decreases slots.len(),
{
    if slots.len() > 0 {
        lemma_count_item_nonneg(slots.drop_last(), d);
    }
}

/// Free room one slot offers for the given item under the given slot limit.
pub open spec fn slot_space(s: Option<DetailStack>, d: Detail, msize: int) -> int {
    match s {
        None => msize,
        Some(st) => if same_item(st.detail, d) && st.size <= msize {
            msize - st.size
        } else {
            0
        },
    }
}

/// Free room a row of slots offers for the given item under the given
/// slot limit.
pub open spec fn free_cap(slots: Seq<Option<DetailStack>>, d: Detail, msize: int) -> int
    decreases slots.len(),
{
    if slots.len() == 0 {
        0
    } else {
        free_cap(slots.drop_last(), d, msize) + slot_space(slots.last(), d, msize)
    }
}

pub proof fn lemma_free_cap_nonneg(slots: Seq<Option<DetailStack>>, d: Detail, msize: int)
    requires
        msize >= 0,
    ensures
        0 <= free_cap(slots, d, msize),
    decreases slots.len(),
{
    if slots.len() > 0 {
        lemma_free_cap_nonneg(slots.drop_last(), d, msize);
    }
}

/// The occupied slots, in slot order.
pub open spec fn occupied(slots: Seq<Option<DetailStack>>) -> Seq<DetailStack>
    decreases slots.len(),
{
    if slots.len() == 0 {
        Seq::empty()
    } else {
        occupied(slots.drop_last()) + match slots.last() {
            Some(st) => seq![st],
            None => Seq::empty(),
        }
    }
}

/// The old and new contents of one slot after an extraction: an extraction
/// only shrinks a slot, keeping its item, or empties it.
pub open spec fn shrunk_slot(o: Option<DetailStack>, n: Option<DetailStack>) -> bool {
    match o {
        Some(os) => match n {
            Some(ns) => ns.detail == os.detail && ns.size <= os.size,
            None => true,
        },
        None => n == None::<DetailStack>,
    }
}

/// The old and new contents of one slot after an insertion of item `d`:
/// an insertion only fills empty slots with `d` or grows slots already
/// holding `d`.
pub open spec fn filled_slot(o: Option<DetailStack>, n: Option<DetailStack>, d: Detail) -> bool {
    ||| n == o
    ||| (o == None::<DetailStack> && exists|sz: u32|
        #![trigger wit1(sz)]
        (wit1(sz) && 1 <= sz && n == Some(DetailStack { detail: d, size: sz })))
    ||| (exists|os: DetailStack, sz: u32|
        #![trigger wit2(os, sz)]
        (wit2(os, sz) && o == Some(os) && same_item(os.detail, d) && os.size < sz && n == Some(
            DetailStack { detail: os.detail, size: sz },
        )))
}

/// What distinguishes a chest from a drawer: a chest is an unfiltered pool
/// with an optional fixed override of the per-slot limit; a drawer accepts
/// only items matching its filters.
pub enum StorageKind {
    Chest { override_max_stack_size: Option<u32> },
    Drawer { filters: Vec<Filter> },
}

/// A passive inventory pool: a row of slots reachable through bus accesses.
pub struct Storage {
    pub kind: StorageKind,
    pub accesses: Vec<BusAccess>,
    pub slots: Vec<Option<DetailStack>>,
}

impl Storage {
    /// The per-slot limit this storage applies to the given item.
    pub open spec fn spec_max_size(self, d: Detail) -> int {
        match self.kind {
            StorageKind::Chest { override_max_stack_size } => match override_max_stack_size {
                Some(m) => m as int,
                None => d.max_stack_size as int,
            },
            StorageKind::Drawer { filters: _ } => d.max_stack_size as int,
        }
    }

    /// Whether this storage accepts the item at all: a chest accepts
    /// everything, a drawer only items matching one of its filters.
    pub open spec fn spec_accepts(self, label: Seq<char>, name: Seq<char>) -> bool {
        match self.kind {
            StorageKind::Chest { override_max_stack_size: _ } => true,
            StorageKind::Drawer { filters } => exists|i: int|
                0 <= i < filters@.len() && #[trigger] filters@[i].spec_matches(label, name),
        }
    }

    pub open spec fn slot_wf(self, s: Option<DetailStack>) -> bool {
        match s {
            Some(st) => {
                &&& 1 <= st.size
                &&& st.size as int <= self.spec_max_size(st.detail)
                &&& self.spec_accepts(st.detail.label@, st.detail.name@)
            },
            None => true,
        }
    }

    /// Well-formedness: a bounded row of slots, each occupied slot within
    /// the per-slot limit and allowed by the storage's filters.
    pub open spec fn wf(self) -> bool {
        &&& self.slots@.len() <= MAX_SLOTS_PER_STORAGE as int
        &&& forall|i: int| 0 <= i < self.slots@.len() ==> self.slot_wf(#[trigger] self.slots@[i])
    }

    /// Total units matching the filter in this storage.
    pub open spec fn count(self, f: Filter) -> int {
        count_matching(self.slots@, f)
    }

    pub fn new_chest(accesses: Vec<BusAccess>, override_max_stack_size: Option<u32>, slot_count: usize) -> (s: Storage)
        requires
            slot_count <= MAX_SLOTS_PER_STORAGE,
        ensures
            s.wf(),
            s.kind == (StorageKind::Chest { override_max_stack_size }),
            s.accesses == accesses,
            s.slots@.len() == slot_count,
            forall|i: int| 0 <= i < slot_count ==> s.slots@[i] == None::<DetailStack>,
    {
        let mut slots: Vec<Option<DetailStack>> = Vec::new();
        let mut i: usize = 0;
        while i < slot_count
            invariant
                i <= slot_count,
                slots@.len() == i,
                forall|j: int| 0 <= j < i ==> slots@[j] == None::<DetailStack>,
            decreases slot_count - i,
        {
            slots.push(None);
            i += 1;
        }
        Storage { kind: StorageKind::Chest { override_max_stack_size }, accesses, slots }
    }

    pub fn new_drawer(accesses: Vec<BusAccess>, filters: Vec<Filter>, slot_count: usize) -> (s: Storage)
        requires
            slot_count <= MAX_SLOTS_PER_STORAGE,
        ensures
            s.wf(),
            s.kind == (StorageKind::Drawer { filters }),
            s.accesses == accesses,
            s.slots@.len() == slot_count,
            forall|i: int| 0 <= i < slot_count ==> s.slots@[i] == None::<DetailStack>,
    {
        let mut slots: Vec<Option<DetailStack>> = Vec::new();
        let mut i: usize = 0;
        while i < slot_count
            invariant
                i <= slot_count,
                slots@.len() == i,
                forall|j: int| 0 <= j < i ==> slots@[j] == None::<DetailStack>,
            decreases slot_count - i,
        {
            slots.push(None);
            i += 1;
        }
        Storage { kind: StorageKind::Drawer { filters }, accesses, slots }
    }

    /// Append `n` empty slots: the local model of a storage is sized when
    /// the remote inventory is first listed.
    pub fn add_slots(&mut self, n: usize)
        requires
            old(self).wf(),
            old(self).slots@.len() + n <= MAX_SLOTS_PER_STORAGE,
        ensures
            final(self).wf(),
            final(self).kind == old(self).kind,
            final(self).accesses == old(self).accesses,
            final(self).slots@.len() == old(self).slots@.len() + n,
            forall|i: int|
                0 <= i < old(self).slots@.len() ==> final(self).slots@[i] == old(self).slots@[i],
            forall|i: int|
                old(self).slots@.len() <= i < old(self).slots@.len() + n ==> final(self).slots@[i]
                    == None::<DetailStack>,
    {
        let mut k: usize = 0;
        while k < n
            invariant
                k <= n,
                self.wf(),
                self.kind == old(self).kind,
                self.accesses == old(self).accesses,
                old(self).slots@.len() + n <= MAX_SLOTS_PER_STORAGE,
                self.slots@.len() == old(self).slots@.len() + k,
                forall|i: int|
                    0 <= i < old(self).slots@.len() ==> self.slots@[i] == old(self).slots@[i],
                forall|i: int|
                    old(self).slots@.len() <= i < self.slots@.len() ==> self.slots@[i]
                        == None::<DetailStack>,
            decreases n - k,
        {
            self.slots.push(None);
            k += 1;
        }
    }

    /// The per-slot limit, executable form.
    pub fn max_size_for(&self, d: &Detail) -> (m: u32)
        ensures
            m as int == self.spec_max_size(*d),
    {
        match &self.kind {
            StorageKind::Chest { override_max_stack_size } => match override_max_stack_size {
                Some(m) => *m,
                None => d.max_stack_size,
            },
            StorageKind::Drawer { filters: _ } => d.max_stack_size,
        }
    }

    /// Whether the storage accepts the item, executable form.
    pub fn accepts_item(&self, d: &Detail) -> (r: bool)
        ensures
            r == self.spec_accepts(d.label@, d.name@),
    {
        match &self.kind {
            StorageKind::Chest { override_max_stack_size: _ } => true,
            StorageKind::Drawer { filters } => any_filter_matches(filters, d),
        }
    }

    /// Total units matching the filter, executable form.
    pub fn count_of(&self, f: &Filter) -> (n: u64)
        requires
            self.wf(),
        ensures
            n as int == self.count(*f),
    {
        let mut n: u64 = 0;
        let mut i: usize = 0;
        while i < self.slots.len()
            invariant
                self.wf(),
                i <= self.slots@.len(),
                n as int == count_matching(self.slots@.take(i as int), *f),
            decreases self.slots@.len() - i,
        {
            proof {
                lemma_count_matching_nonneg(self.slots@.take(i as int), *f);
                lemma_count_matching_bound(self.slots@.take(i as int), *f);
                assert(self.slots@.take(i + 1).drop_last() =~= self.slots@.take(i as int));
            }
            match &self.slots[i] {
                Some(st) => {
                    if f.matches_stack(st) {
                        n = n + st.size as u64;
                    }
                },
                None => {},
            }
            i += 1;
        }
        proof {
            assert(self.slots@.take(self.slots@.len() as int) =~= self.slots@);
        }
        n
    }

    /// Free capacity this storage offers for the given item, executable form.
    pub fn free_for(&self, d: &Detail) -> (n: u64)
        requires
            self.wf(),
        ensures
            n as int == free_cap(self.slots@, *d, self.spec_max_size(*d)),
    {
        let msize = self.max_size_for(d);
        let mut n: u64 = 0;
        let mut i: usize = 0;
        while i < self.slots.len()
            invariant
                self.wf(),
                i <= self.slots@.len(),
                msize as int == self.spec_max_size(*d),
                n as int == free_cap(self.slots@.take(i as int), *d, msize as int),
                n <= (i as int) * (u32::MAX as int),
            decreases self.slots@.len() - i,
        {
            proof {
                assert(self.slots@.take(i + 1).drop_last() =~= self.slots@.take(i as int));
            }
            match &self.slots[i] {
                Some(st) => {
                    if details_eq(&st.detail, d) && st.size <= msize {
                        n = n + (msize - st.size) as u64;
                    }
                },
                None => {
                    n = n + msize as u64;
                },
            }
            i += 1;
        }
        proof {
            assert(self.slots@.take(self.slots@.len() as int) =~= self.slots@);
        }
        n
    }

    /// The occupied slots in slot order.
    pub fn list(&self) -> (r: Vec<DetailStack>)
        ensures
            r@ == occupied(self.slots@),
    {
        let mut r: Vec<DetailStack> = Vec::new();
        let mut i: usize = 0;
        while i < self.slots.len()
            invariant
                i <= self.slots@.len(),
                r@ =~= occupied(self.slots@.take(i as int)),
            decreases self.slots@.len() - i,
        {
            proof {
                assert(self.slots@.take(i + 1).drop_last() =~= self.slots@.take(i as int));
            }
            match &self.slots[i] {
                Some(st) => {
                    r.push(st.clone());
                },
                None => {},
            }
            i += 1;
        }
        proof {
            assert(self.slots@.take(self.slots@.len() as int) =~= self.slots@);
            assert(r@ =~= occupied(self.slots@));
        }
        r
    }

    /// Take up to `want` units matching the filter out of this storage,
    /// walking the slots in order. Best effort: moves exactly the smaller
    /// of `want` and what is available, and touches nothing else.
    pub fn extract(&mut self, f: &Filter, want: u64) -> (got: u64)
        requires
            old(self).wf(),
        ensures
            final(self).wf(),
            got as int == vstd::math::min(want as int, old(self).count(*f)),
            final(self).count(*f) == old(self).count(*f) - got,
            final(self).kind == old(self).kind,
            final(self).accesses == old(self).accesses,
            final(self).slots@.len() == old(self).slots@.len(),
            forall|i: int|
                0 <= i < old(self).slots@.len() && slot_count(old(self).slots@[i], *f) == 0
                    ==> final(self).slots@[i] == old(self).slots@[i],
            forall|i: int|
                0 <= i < old(self).slots@.len() ==> shrunk_slot(
                    old(self).slots@[i],
                    final(self).slots@[i],
                ),
            got == 0 ==> final(self).slots@ == old(self).slots@,
    {
        let ghost old_slots = old(self).slots@;
        let mut remaining: u64 = want;
        let mut i: usize = 0;
        proof {
            lemma_count_matching_nonneg(old_slots, *f);
        }
        while i < self.slots.len()
            invariant
                self.wf(),
                i <= self.slots@.len(),
                self.slots@.len() == old_slots.len(),
                self.kind == old(self).kind,
                self.accesses == old(self).accesses,
                remaining <= want,
                (want - remaining) as int == vstd::math::min(
                    want as int,
                    count_matching(old_slots.take(i as int), *f),
                ),
                count_matching(self.slots@.take(i as int), *f) == count_matching(
                    old_slots.take(i as int),
                    *f,
                ) - (want - remaining),
                forall|j: int| i <= j < old_slots.len() ==> self.slots@[j] == old_slots[j],
                forall|j: int|
                    0 <= j < old_slots.len() && slot_count(old_slots[j], *f) == 0
                        ==> self.slots@[j] == old_slots[j],
                forall|j: int|
                    0 <= j < old_slots.len() ==> shrunk_slot(old_slots[j], self.slots@[j]),
                remaining == want ==> self.slots@ == old_slots,
            decreases self.slots@.len() - i,
        {
            let ghost prev = self.slots@;
            proof {
                lemma_count_matching_nonneg(old_slots.take(i as int), *f);
                assert(old_slots.take(i + 1).drop_last() =~= old_slots.take(i as int));
            }
            let entry: Option<DetailStack> = match &self.slots[i] {
                Some(st) => Some(st.clone()),
                None => None,
            };
            if remaining > 0 {
                match entry {
                    Some(st) => {
                        if f.matches_stack(&st) {
                            let t: u32 = if (st.size as u64) <= remaining {
                                st.size
                            } else {
                                remaining as u32
                            };
                            remaining = remaining - (t as u64);
                            if t == st.size {
                                self.slots[i] = None;
                            } else {
                                self.slots[i] = Some(
                                    DetailStack { detail: st.detail, size: st.size - t },
                                );
                            }
                        }
                    },
                    None => {},
                }
            }
            proof {
                assert(self.slots@.take(i as int) =~= prev.take(i as int));
                assert(self.slots@.take(i + 1).drop_last() =~= self.slots@.take(i as int));
                assert(self.slots@.take(i + 1).last() == self.slots@[i as int]);
            }
            i += 1;
        }
        proof {
            assert(old_slots.take(old_slots.len() as int) =~= old_slots);
            assert(self.slots@.take(self.slots@.len() as int) =~= self.slots@);
            if remaining == want {
                assert(self.slots@ =~= old_slots);
            }
        }
        want - remaining
    }

    /// Put up to `stack.size` units of the stack's item into this storage,
    /// filling matching and empty slots in order. Returns how many units
    /// were accepted: the smaller of the offered size and the free
    /// capacity, or zero when the storage does not accept the item.
    pub fn insert(&mut self, stack: &DetailStack) -> (accepted: u32)
        requires
            old(self).wf(),
            1 <= stack.size,
        ensures
            final(self).wf(),
            final(self).kind == old(self).kind,
            final(self).accesses == old(self).accesses,
            final(self).slots@.len() == old(self).slots@.len(),
            !old(self).spec_accepts(stack.detail.label@, stack.detail.name@) ==> accepted == 0,
            old(self).spec_accepts(stack.detail.label@, stack.detail.name@) ==> accepted as int
                == vstd::math::min(
                stack.size as int,
                free_cap(old(self).slots@, stack.detail, old(self).spec_max_size(stack.detail)),
            ),
            count_item(final(self).slots@, stack.detail) == count_item(
                old(self).slots@,
                stack.detail,
            ) + accepted,
            forall|i: int|
                0 <= i < old(self).slots@.len() ==> filled_slot(
                    old(self).slots@[i],
                    final(self).slots@[i],
                    stack.detail,
                ),
            accepted == 0 ==> final(self).slots@ == old(self).slots@,
    {
        let ghost old_slots = old(self).slots@;
        if !self.accepts_item(&stack.detail) {
            proof {
                lemma_count_item_nonneg(old_slots, stack.detail);
            }
            return 0;
        }
        let msize = self.max_size_for(&stack.detail);
        let mut remaining: u32 = stack.size;
        let mut i: usize = 0;
        while i < self.slots.len()
            invariant
                self.wf(),
                i <= self.slots@.len(),
                self.slots@.len() == old_slots.len(),
                self.kind == old(self).kind,
                self.accesses == old(self).accesses,
                self.spec_accepts(stack.detail.label@, stack.detail.name@),
                msize as int == self.spec_max_size(stack.detail),
                1 <= stack.size,
                remaining <= stack.size,
                (stack.size - remaining) as int == vstd::math::min(
                    stack.size as int,
                    free_cap(old_slots.take(i as int), stack.detail, msize as int),
                ),
                count_item(self.slots@.take(i as int), stack.detail) == count_item(
                    old_slots.take(i as int),
                    stack.detail,
                ) + (stack.size - remaining),
                forall|j: int| i <= j < old_slots.len() ==> self.slots@[j] == old_slots[j],
                forall|j: int|
                    0 <= j < old_slots.len() ==> filled_slot(
                        old_slots[j],
                        self.slots@[j],
                        stack.detail,
                    ),
                remaining == stack.size ==> self.slots@ == old_slots,
            decreases self.slots@.len() - i,
        {
            let ghost prev = self.slots@;
            proof {
                lemma_free_cap_nonneg(old_slots.take(i as int), stack.detail, msize as int);
                assert(old_slots.take(i + 1).drop_last() =~= old_slots.take(i as int));
            }
            let entry: Option<DetailStack> = match &self.slots[i] {
                Some(st) => Some(st.clone()),
                None => None,
            };
            if remaining > 0 {
                match entry {
                    Some(st) => {
                        if details_eq(&st.detail, &stack.detail) && st.size < msize {
                            let space: u32 = msize - st.size;
                            let t: u32 = if space <= remaining {
                                space
                            } else {
                                remaining
                            };
                            remaining = remaining - t;
                            proof {
                                assert(wit2(st, (st.size + t) as u32));
                            }
                            self.slots[i] = Some(
                                DetailStack { detail: st.detail, size: st.size + t },
                            );
                        }
                    },
                    None => {
                        if msize > 0 {
                            let t: u32 = if msize <= remaining {
                                msize
                            } else {
                                remaining
                            };
                            remaining = remaining - t;
                            proof {
                                assert(wit1(t));
                            }
                            self.slots[i] = Some(
                                DetailStack { detail: stack.detail.clone(), size: t },
                            );
                        }
                    },
                }
            }
            proof {
                assert(self.slots@.take(i as int) =~= prev.take(i as int));
                assert(self.slots@.take(i + 1).drop_last() =~= self.slots@.take(i as int));
                assert(self.slots@.take(i + 1).last() == self.slots@[i as int]);
            }
            i += 1;
        }
        proof {
            assert(old_slots.take(old_slots.len() as int) =~= old_slots);
            assert(self.slots@.take(self.slots@.len() as int) =~= self.slots@);
            if remaining == stack.size {
                assert(self.slots@ =~= old_slots);
            }
        }
        stack.size - remaining
    }
}

} // verus!

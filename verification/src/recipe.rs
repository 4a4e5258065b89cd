//! The recipe engine: crafting recipes over slotted inputs, feasible-set
//! computation under slot and backup constraints, extraction of inputs from
//! the storage pool, and routing of produced outputs back into storages.

use vstd::prelude::*;

use crate::item::{Detail, DetailStack, Filter};
use crate::storage::{
    count_item, count_matching, free_cap, lemma_count_matching_bound, lemma_count_matching_nonneg,
    shrunk_slot, slot_count, Storage, MAX_SLOTS_PER_STORAGE,
};

verus! {

/// Bound on the number of storages a factory may own. Together with the
/// per-storage slot bound it keeps every aggregate item count well within
/// `u64`.
pub const MAX_STORAGES: usize = 4096;

/// One declared placement of a slotted input: which machine slot receives
/// how many units per crafted set.
#[derive(Clone, Copy, PartialEq, Eq, Structural)]
pub struct SlotPlacement {
    pub slot: usize,
    pub size: u32,
}

/// One produced item of a recipe: the filter describing the item and how
/// many units one set yields.
pub struct Output {
    pub item: Filter,
    pub size: u32,
}

/// One input of a crafting recipe: the filter selecting the item, the total
/// units consumed per set (the sum of the placements), the declared slot
/// placements, and the backup policy.
pub struct CraftingGridInput {
    pub item: Filter,
    pub size: u32,
    pub slots: Vec<SlotPlacement>,
    pub allow_backup: bool,
    pub extra_backup: u32,
}

/// A crafting recipe: inputs in slot order, outputs, and the per-cycle cap
/// on crafted sets. Non-consumables must be present but are not decremented.
pub struct CraftingGridRecipe {
    pub outputs: Vec<Output>,
    pub inputs: Vec<CraftingGridInput>,
    pub max_sets: u32,
    pub non_consumables: Vec<Filter>,
}

pub open spec fn sum_placements(s: Seq<SlotPlacement>) -> int
    decreases s.len(),
{
    if s.len() == 0 {
        0
    } else {
        sum_placements(s.drop_last()) + s.last().size
    }
}

impl CraftingGridInput {
    /// A usable input consumes at least one unit per set, names at least one
    /// slot, and its per-set size is exactly the sum of its placements.
    pub open spec fn wf(self) -> bool {
        &&& 1 <= self.size
        &&& 1 <= self.slots@.len()
        &&& forall|i: int| 0 <= i < self.slots@.len() ==> 1 <= (#[trigger] self.slots@[i]).size
        &&& self.size as int == sum_placements(self.slots@)
    }
}

impl CraftingGridRecipe {
    /// A usable recipe crafts at least one set per cycle, every input is
    /// well formed, and no output can overflow one stack within one cycle.
    pub open spec fn wf(self) -> bool {
        &&& 1 <= self.max_sets
        &&& forall|i: int| 0 <= i < self.inputs@.len() ==> (#[trigger] self.inputs@[i]).wf()
        &&& forall|i: int|
            0 <= i < self.outputs@.len() ==> 1 <= (#[trigger] self.outputs@[i]).size
                && self.max_sets as int * self.outputs@[i].size as int <= u32::MAX as int
    }
}

/// Every storage of the sequence is well formed.
pub open spec fn all_wf(storages: Seq<Storage>) -> bool {
    forall|i: int| 0 <= i < storages.len() ==> (#[trigger] storages[i]).wf()
}

/// Total units matching the filter over a whole storage pool.
pub open spec fn total_matching(storages: Seq<Storage>, f: Filter) -> int
    decreases storages.len(),
{
    if storages.len() == 0 {
        0
    } else {
        total_matching(storages.drop_last(), f) + count_matching(storages.last().slots@, f)
    }
}

pub proof fn lemma_total_matching_nonneg(storages: Seq<Storage>, f: Filter)
    ensures
        0 <= total_matching(storages, f),
    decreases storages.len(),
{
    if storages.len() > 0 {
        lemma_total_matching_nonneg(storages.drop_last(), f);
        lemma_count_matching_nonneg(storages.last().slots@, f);
    }
}

/// Upper bound on what one storage can hold: the slot bound times the
/// largest stack.
pub const STORAGE_COUNT_LIMIT: u64 = 4096 * 4294967295;

pub proof fn lemma_total_matching_bound(storages: Seq<Storage>, f: Filter)
    requires
        all_wf(storages),
    ensures
        total_matching(storages, f) <= storages.len() * (STORAGE_COUNT_LIMIT as int),
    decreases storages.len(),
{
    if storages.len() > 0 {
        assert(all_wf(storages.drop_last()));
        lemma_total_matching_bound(storages.drop_last(), f);
        lemma_count_matching_bound(storages.last().slots@, f);
        assert(storages[storages.len() - 1].wf());
        assert(count_matching(storages.last().slots@, f) <= STORAGE_COUNT_LIMIT as int);
    }
}

/// Two storage pools with the same storages in the same order, compared by
/// contents: kind, accesses and slot contents agree position by position.
pub open spec fn same_contents(a: Seq<Storage>, b: Seq<Storage>) -> bool {
    &&& b.len() == a.len()
    &&& forall|i: int|
        0 <= i < a.len() ==> (#[trigger] b[i]).kind == a[i].kind && b[i].accesses == a[i].accesses
            && b[i].slots@ == a[i].slots@
}

pub proof fn lemma_same_contents_refl(a: Seq<Storage>)
    ensures
        same_contents(a, a),
{
}

pub proof fn lemma_same_contents_trans(a: Seq<Storage>, b: Seq<Storage>, c: Seq<Storage>)
    requires
        same_contents(a, b),
        same_contents(b, c),
    ensures
        same_contents(a, c),
{
}

pub proof fn lemma_only_removed_refl(a: Seq<Storage>, f: Filter)
    ensures
        only_removed(a, a, f),
{
    assert forall|i: int| 0 <= i < a.len() implies only_removed_storage(a[i], #[trigger] a[i], f) by {
        assert forall|j: int| 0 <= j < a[i].slots@.len() implies shrunk_slot(
            a[i].slots@[j],
            #[trigger] a[i].slots@[j],
        ) by {}
    }
}

pub proof fn lemma_total_matching_congruence(a: Seq<Storage>, b: Seq<Storage>, f: Filter)
    requires
        same_contents(a, b),
    ensures
        total_matching(a, f) == total_matching(b, f),
    decreases a.len(),
{
    if a.len() > 0 {
        assert(same_contents(a.drop_last(), b.drop_last()));
        lemma_total_matching_congruence(a.drop_last(), b.drop_last(), f);
        assert(b.last().slots@ == a.last().slots@);
    }
}

/// Units the backup pool can spare for this input: what exceeds the
/// configured reserve floor, never negative.
pub open spec fn backup_surplus(backups: Seq<Storage>, inp: CraftingGridInput) -> int {
    vstd::math::max(total_matching(backups, inp.item) - inp.extra_backup as int, 0)
}

/// Units available to this input: the normal pool, plus the backup surplus
/// when the input may draw on backups.
pub open spec fn usable_for(
    storages: Seq<Storage>,
    backups: Seq<Storage>,
    inp: CraftingGridInput,
) -> int {
    total_matching(storages, inp.item) + if inp.allow_backup {
        backup_surplus(backups, inp)
    } else {
        0
    }
}

/// How many whole sets this input could supply.
pub open spec fn input_sets(
    storages: Seq<Storage>,
    backups: Seq<Storage>,
    inp: CraftingGridInput,
) -> int {
    usable_for(storages, backups, inp) / (inp.size as int)
}

/// The feasible set count over a prefix of inputs, starting from the
/// recipe's per-cycle cap: the minimum over the cap and every input.
pub open spec fn sets_upto(
    storages: Seq<Storage>,
    backups: Seq<Storage>,
    inputs: Seq<CraftingGridInput>,
    cap: int,
) -> int
    decreases inputs.len(),
{
    if inputs.len() == 0 {
        cap
    } else {
        vstd::math::min(
            sets_upto(storages, backups, inputs.drop_last(), cap),
            input_sets(storages, backups, inputs.last()),
        )
    }
}

/// Every non-consumable is present in the normal pool.
pub open spec fn non_consumables_ok(storages: Seq<Storage>, ncs: Seq<Filter>) -> bool {
    forall|i: int| 0 <= i < ncs.len() ==> total_matching(storages, #[trigger] ncs[i]) > 0
}

/// How many sets of the recipe fire this cycle: zero when a non-consumable
/// is missing, else the minimum feasible set count over all inputs, capped
/// by `max_sets`.
pub open spec fn recipe_sets(
    storages: Seq<Storage>,
    backups: Seq<Storage>,
    r: CraftingGridRecipe,
) -> int {
    if non_consumables_ok(storages, r.non_consumables@) {
        sets_upto(storages, backups, r.inputs@, r.max_sets as int)
    } else {
        0
    }
}

pub proof fn lemma_sets_upto_congruence(
    a1: Seq<Storage>,
    b1: Seq<Storage>,
    a2: Seq<Storage>,
    b2: Seq<Storage>,
    inputs: Seq<CraftingGridInput>,
    cap: int,
)
    requires
        same_contents(a1, a2),
        same_contents(b1, b2),
    ensures
        sets_upto(a1, b1, inputs, cap) == sets_upto(a2, b2, inputs, cap),
    decreases inputs.len(),
{
    if inputs.len() > 0 {
        lemma_sets_upto_congruence(a1, b1, a2, b2, inputs.drop_last(), cap);
        lemma_total_matching_congruence(a1, a2, inputs.last().item);
        lemma_total_matching_congruence(b1, b2, inputs.last().item);
    }
}

pub proof fn lemma_recipe_sets_congruence(
    a1: Seq<Storage>,
    b1: Seq<Storage>,
    a2: Seq<Storage>,
    b2: Seq<Storage>,
    r: CraftingGridRecipe,
)
    requires
        same_contents(a1, a2),
        same_contents(b1, b2),
    ensures
        recipe_sets(a1, b1, r) == recipe_sets(a2, b2, r),
{
    assert forall|i: int| 0 <= i < r.non_consumables@.len() implies total_matching(
        a1,
        #[trigger] r.non_consumables@[i],
    ) == total_matching(a2, r.non_consumables@[i]) by {
        lemma_total_matching_congruence(a1, a2, r.non_consumables@[i]);
    }
    lemma_sets_upto_congruence(a1, b1, a2, b2, r.inputs@, r.max_sets as int);
}

/// Total units matching the filter, executable form.
pub fn total_of(storages: &Vec<Storage>, f: &Filter) -> (n: u64)
    requires
        all_wf(storages@),
        storages@.len() <= MAX_STORAGES,
    ensures
        n as int == total_matching(storages@, *f),
{
    let mut n: u64 = 0;
    let mut i: usize = 0;
    while i < storages.len()
        invariant
            all_wf(storages@),
            storages@.len() <= MAX_STORAGES,
            i <= storages@.len(),
            n as int == total_matching(storages@.take(i as int), *f),
            n as int <= i as int * (STORAGE_COUNT_LIMIT as int),
        decreases storages@.len() - i,
    {
        proof {
            assert(all_wf(storages@.take(i as int)));
            lemma_total_matching_nonneg(storages@.take(i as int), *f);
            lemma_total_matching_bound(storages@.take(i as int), *f);
            assert(storages@[i as int].wf());
            lemma_count_matching_bound(storages@[i as int].slots@, *f);
            lemma_count_matching_nonneg(storages@[i as int].slots@, *f);
            assert(storages@.take(i + 1).drop_last() =~= storages@.take(i as int));
        }
        let c = storages[i].count_of(f);
        proof {
            let l = STORAGE_COUNT_LIMIT as int;
            assert(c as int <= l);
            assert(i as int * l + l == (i as int + 1) * l) by (nonlinear_arith);
            assert((i as int + 1) * l <= 4096 * l) by (nonlinear_arith)
                requires
                    i as int + 1 <= 4096,
                    0 < l,
            ;
        }
        n = n + c;
        i += 1;
    }
    proof {
        assert(storages@.take(storages@.len() as int) =~= storages@);
    }
    n
}

/// Units available to this input, executable form.
pub fn usable_of(
    storages: &Vec<Storage>,
    backups: &Vec<Storage>,
    inp: &CraftingGridInput,
) -> (n: u64)
    requires
        all_wf(storages@),
        all_wf(backups@),
        storages@.len() <= MAX_STORAGES,
        backups@.len() <= MAX_STORAGES,
    ensures
        n as int == usable_for(storages@, backups@, *inp),
{
    let norm = total_of(storages, &inp.item);
    proof {
        lemma_total_matching_bound(storages@, inp.item);
        lemma_total_matching_bound(backups@, inp.item);
        lemma_total_matching_nonneg(backups@, inp.item);
    }
    if inp.allow_backup {
        let b = total_of(backups, &inp.item);
        let extra = inp.extra_backup as u64;
        let surplus = if b > extra {
            b - extra
        } else {
            0
        };
        norm + surplus
    } else {
        norm
    }
}

/// How many sets of the recipe fire against the current pools, executable
/// form: exactly `recipe_sets`.
pub fn compute_recipe_sets(
    storages: &Vec<Storage>,
    backups: &Vec<Storage>,
    r: &CraftingGridRecipe,
) -> (n: u64)
    requires
        all_wf(storages@),
        all_wf(backups@),
        storages@.len() <= MAX_STORAGES,
        backups@.len() <= MAX_STORAGES,
        r.wf(),
    ensures
        n as int == recipe_sets(storages@, backups@, *r),
        n <= r.max_sets,
{
    let mut k: usize = 0;
    while k < r.non_consumables.len()
        invariant
            all_wf(storages@),
            all_wf(backups@),
            storages@.len() <= MAX_STORAGES,
            backups@.len() <= MAX_STORAGES,
            k <= r.non_consumables@.len(),
            forall|j: int|
                0 <= j < k ==> total_matching(storages@, #[trigger] r.non_consumables@[j]) > 0,
        decreases r.non_consumables@.len() - k,
    {
        let c = total_of(storages, &r.non_consumables[k]);
        if c == 0 {
            proof {
                assert(!non_consumables_ok(storages@, r.non_consumables@));
            }
            return 0;
        }
        k += 1;
    }
    let mut n: u64 = r.max_sets as u64;
    let mut i: usize = 0;
    while i < r.inputs.len()
        invariant
            all_wf(storages@),
            all_wf(backups@),
            storages@.len() <= MAX_STORAGES,
            backups@.len() <= MAX_STORAGES,
            r.wf(),
            i <= r.inputs@.len(),
            n as int == sets_upto(storages@, backups@, r.inputs@.take(i as int), r.max_sets as int),
            n <= r.max_sets,
        decreases r.inputs@.len() - i,
    {
        proof {
            assert(r.inputs@[i as int].wf());
            assert(r.inputs@.take(i + 1).drop_last() =~= r.inputs@.take(i as int));
            lemma_total_matching_nonneg(storages@, r.inputs@[i as int].item);
            lemma_total_matching_nonneg(backups@, r.inputs@[i as int].item);
        }
        let u = usable_of(storages, backups, &r.inputs[i]);
        let s = u / (r.inputs[i].size as u64);
        if s < n {
            n = s;
        }
        i += 1;
    }
    proof {
        assert(r.inputs@.take(r.inputs@.len() as int) =~= r.inputs@);
        assert(non_consumables_ok(storages@, r.non_consumables@));
    }
    n
}


/// Relation between a storage pool before and after an extraction of items
/// matching `f`: every storage keeps its identity and slot count, slots not
/// matching `f` are untouched, and matching slots only shrink.
pub open spec fn only_removed_storage(oa: Storage, ob: Storage, f: Filter) -> bool {
    &&& ob.kind == oa.kind
    &&& ob.accesses == oa.accesses
    &&& ob.slots@.len() == oa.slots@.len()
    &&& forall|j: int|
        0 <= j < oa.slots@.len() ==> shrunk_slot(oa.slots@[j], #[trigger] ob.slots@[j])
    &&& forall|j: int|
        0 <= j < oa.slots@.len() && slot_count(#[trigger] oa.slots@[j], f) == 0 ==> ob.slots@[j]
            == oa.slots@[j]
}

pub open spec fn only_removed(a: Seq<Storage>, b: Seq<Storage>, f: Filter) -> bool {
    &&& b.len() == a.len()
    &&& forall|i: int| 0 <= i < a.len() ==> only_removed_storage(a[i], #[trigger] b[i], f)
}

/// Take up to `want` units matching the filter out of the pool, walking the
/// storages in order. Best effort: moves exactly the smaller of `want` and
/// the pool's total, and touches nothing else.
pub fn extract_from(storages: &mut Vec<Storage>, f: &Filter, want: u64) -> (got: u64)
    requires
        all_wf(old(storages)@),
        old(storages)@.len() <= MAX_STORAGES,
    ensures
        all_wf(final(storages)@),
        final(storages)@.len() == old(storages)@.len(),
        got as int == vstd::math::min(want as int, total_matching(old(storages)@, *f)),
        total_matching(final(storages)@, *f) == total_matching(old(storages)@, *f) - got,
        only_removed(old(storages)@, final(storages)@, *f),
        got == 0 ==> same_contents(old(storages)@, final(storages)@),
{
    let ghost orig = old(storages)@;
    let mut remaining: u64 = want;
    let mut i: usize = 0;
    proof {
        lemma_total_matching_nonneg(orig, *f);
    }
    while i < storages.len()
        invariant
            storages@.len() == orig.len(),
            orig.len() <= MAX_STORAGES,
            all_wf(storages@),
            all_wf(orig),
            i <= orig.len(),
            remaining <= want,
            (want - remaining) as int == vstd::math::min(
                want as int,
                total_matching(orig.take(i as int), *f),
            ),
            total_matching(storages@.take(i as int), *f) == total_matching(
                orig.take(i as int),
                *f,
            ) - (want - remaining),
            forall|j: int| i <= j < orig.len() ==> storages@[j] == orig[j],
            only_removed(orig, storages@, *f),
            remaining == want ==> same_contents(orig, storages@),
        decreases orig.len() - i,
    {
        let ghost prev = storages@;
        proof {
            lemma_total_matching_nonneg(orig.take(i as int), *f);
            lemma_count_matching_nonneg(orig[i as int].slots@, *f);
            assert(orig.take(i + 1).drop_last() =~= orig.take(i as int));
        }
        let elem = vstd::std_specs::vec::vec_index_mut(storages, i);
        let g = elem.extract(f, remaining);
        remaining = remaining - g;
        proof {
            assert(storages@.take(i as int) =~= prev.take(i as int));
            assert(storages@.take(i + 1).drop_last() =~= storages@.take(i as int));
        }
        i += 1;
    }
    proof {
        assert(orig.take(orig.len() as int) =~= orig);
        assert(storages@.take(storages@.len() as int) =~= storages@);
    }
    want - remaining
}

/// What holds after extracting one slotted input, relating pools before
/// (`s0`, `b0`) and after (`s1`, `b1`): exactly `size * min(sets, input_sets)`
/// units move, an exact multiple of the per-set size that never exceeds
/// `floor(usable / size) * size`; the normal pool is drained first; the
/// backup reserve is never drawn below `extra_backup`.
pub open spec fn extract_input_post(
    s0: Seq<Storage>,
    b0: Seq<Storage>,
    s1: Seq<Storage>,
    b1: Seq<Storage>,
    inp: CraftingGridInput,
    sets: int,
    got: int,
) -> bool {
    &&& all_wf(s1) && all_wf(b1)
    &&& s1.len() == s0.len() && b1.len() == b0.len()
    &&& got == inp.size as int * vstd::math::min(sets, input_sets(s0, b0, inp))
    &&& only_removed(s0, s1, inp.item)
    &&& only_removed(b0, b1, inp.item)
    &&& total_matching(s1, inp.item) == total_matching(s0, inp.item) - vstd::math::min(
        got,
        total_matching(s0, inp.item),
    )
    &&& total_matching(b1, inp.item) == total_matching(b0, inp.item) - (got - vstd::math::min(
        got,
        total_matching(s0, inp.item),
    ))
    &&& (inp.allow_backup ==> total_matching(b1, inp.item) >= vstd::math::min(
        total_matching(b0, inp.item),
        inp.extra_backup as int,
    ))
    &&& (got == 0 ==> same_contents(s0, s1) && same_contents(b0, b1))
}

/// Extract one slotted input for `sets` crafted sets; see
/// `extract_input_post` for the full relation. An input without
/// `allow_backup` leaves the backup pool untouched.
pub fn extract_for_input(
    storages: &mut Vec<Storage>,
    backups: &mut Vec<Storage>,
    inp: &CraftingGridInput,
    sets: u64,
) -> (got: u64)
    requires
        all_wf(old(storages)@),
        all_wf(old(backups)@),
        old(storages)@.len() <= MAX_STORAGES,
        old(backups)@.len() <= MAX_STORAGES,
        inp.wf(),
        sets <= u32::MAX as u64,
    ensures
        extract_input_post(old(storages)@, old(backups)@, final(storages)@, final(backups)@, *inp, sets as int, got as int),
        !inp.allow_backup ==> final(backups)@ == old(backups)@,
{
    proof {
        lemma_total_matching_nonneg(old(storages)@, inp.item);
        lemma_total_matching_nonneg(old(backups)@, inp.item);
        lemma_total_matching_bound(old(storages)@, inp.item);
        lemma_total_matching_bound(old(backups)@, inp.item);
    }
    let u: u64 = usable_of(storages, backups, inp);
    let s_in: u64 = u / (inp.size as u64);
    // the remainder's type pins it nonnegative, which bounds the division
    let rem: u64 = u % (inp.size as u64);
    proof {
        vstd::arithmetic::div_mod::lemma_fundamental_div_mod(u as int, inp.size as int);
    }
    let s2: u64 = if sets <= s_in {
        sets
    } else {
        s_in
    };
    proof {
        vstd::arithmetic::mul::lemma_mul_inequality(s2 as int, s_in as int, inp.size as int);
        assert(s2 as int * inp.size as int == inp.size as int * s2 as int) by (nonlinear_arith);
        assert(s_in as int * inp.size as int == inp.size as int * s_in as int) by (nonlinear_arith);
        assert(s2 as int * inp.size as int <= u as int);
    }
    let need: u64 = s2 * (inp.size as u64);
    proof {
        lemma_only_removed_refl(old(backups)@, inp.item);
    }
    let norm_got: u64 = extract_from(storages, &inp.item, need);
    let rest: u64 = need - norm_got;
    if inp.allow_backup {
        if rest > 0 {
            let bg: u64 = extract_from(backups, &inp.item, rest);
            norm_got + bg
        } else {
            proof {
                lemma_same_contents_refl(old(backups)@);
            }
            need
        }
    } else {
        proof {
            lemma_same_contents_refl(old(backups)@);
        }
        need
    }
}

/// Free capacity a storage offers for the given item.
pub open spec fn storage_cap_for(s: Storage, d: Detail) -> int {
    free_cap(s.slots@, d, s.spec_max_size(d))
}

/// The preferred destination for an item among the storages: the earliest
/// storage accepting the item with the largest free capacity, if any
/// storage accepts it at all.
pub open spec fn best_dest(storages: Seq<Storage>, d: Detail) -> Option<int>
    decreases storages.len(),
{
    if storages.len() == 0 {
        None
    } else {
        let prior = best_dest(storages.drop_last(), d);
        let li = storages.len() - 1;
        if storages[li].spec_accepts(d.label@, d.name@) {
            match prior {
                None => Some(li),
                Some(bi) => if storage_cap_for(storages[li], d) > storage_cap_for(
                    storages[bi],
                    d,
                ) {
                    Some(li)
                } else {
                    Some(bi)
                },
            }
        } else {
            prior
        }
    }
}

/// What holds after routing a produced stack, relating the pool before
/// (`a`) and after (`b`): when no storage accepts the item nothing moves
/// and the whole stack is left over; otherwise the preferred destination
/// absorbs as much as its free capacity allows and the rest is left over.
pub open spec fn route_post(
    a: Seq<Storage>,
    b: Seq<Storage>,
    stack: DetailStack,
    leftover: Option<DetailStack>,
) -> bool {
    &&& b.len() == a.len()
    &&& (leftover matches Some(l) ==> 1 <= l.size && l.detail == stack.detail)
    &&& match best_dest(a, stack.detail) {
        None => b == a && leftover == Some(stack),
        Some(bi) => {
            let acc = vstd::math::min(stack.size as int, storage_cap_for(a[bi], stack.detail));
            &&& 0 <= bi < a.len()
            &&& 0 <= storage_cap_for(a[bi], stack.detail)
            &&& a[bi].spec_accepts(stack.detail.label@, stack.detail.name@)
            &&& forall|i: int| 0 <= i < a.len() && i != bi ==> b[i] == a[i]
            &&& b[bi].kind == a[bi].kind
            &&& b[bi].accesses == a[bi].accesses
            &&& b[bi].slots@.len() == a[bi].slots@.len()
            &&& count_item(b[bi].slots@, stack.detail) == count_item(a[bi].slots@, stack.detail)
                + acc
            &&& forall|j: int|
                0 <= j < a[bi].slots@.len() ==> crate::storage::filled_slot(
                    a[bi].slots@[j],
                    #[trigger] b[bi].slots@[j],
                    stack.detail,
                )
            &&& leftover == if acc == stack.size as int {
                None::<DetailStack>
            } else {
                Some(DetailStack { detail: stack.detail, size: (stack.size - acc) as u32 })
            }
            &&& (acc == 0 ==> same_contents(a, b))
        },
    }
}

/// Route one produced stack into the storage pool, preferring the storage
/// with the largest free capacity among those accepting the item (earliest
/// wins a tie). What no storage accepts is handed back.
pub fn route_output(storages: &mut Vec<Storage>, stack: DetailStack) -> (leftover: Option<
    DetailStack,
>)
    requires
        all_wf(old(storages)@),
        old(storages)@.len() <= MAX_STORAGES,
        1 <= stack.size,
    ensures
        all_wf(final(storages)@),
        final(storages)@.len() == old(storages)@.len(),
        route_post(old(storages)@, final(storages)@, stack, leftover),
{
    let ghost orig = old(storages)@;
    let mut have: bool = false;
    let mut best: usize = 0;
    let mut best_cap: u64 = 0;
    let mut i: usize = 0;
    while i < storages.len()
        invariant
            storages@ == orig,
            all_wf(orig),
            orig.len() <= MAX_STORAGES,
            i <= orig.len(),
            !have ==> best_dest(orig.take(i as int), stack.detail) == None::<int>,
            have ==> {
                &&& (best as int) < i as int
                &&& best_dest(orig.take(i as int), stack.detail) == Some(best as int)
                &&& orig[best as int].spec_accepts(stack.detail.label@, stack.detail.name@)
                &&& best_cap as int == storage_cap_for(orig[best as int], stack.detail)
            },
        decreases orig.len() - i,
    {
        proof {
            assert(orig.take(i + 1).drop_last() =~= orig.take(i as int));
            assert(orig.take(i + 1).last() == orig[i as int]);
        }
        if storages[i].accepts_item(&stack.detail) {
            let cap = storages[i].free_for(&stack.detail);
            if !have || cap > best_cap {
                have = true;
                best = i;
                best_cap = cap;
            }
        }
        i += 1;
    }
    proof {
        assert(orig.take(orig.len() as int) =~= orig);
    }
    if !have {
        return Some(stack);
    }
    let ghost prev = storages@;
    proof {
        crate::storage::lemma_free_cap_nonneg(
            orig[best as int].slots@,
            stack.detail,
            orig[best as int].spec_max_size(stack.detail),
        );
    }
    let elem = vstd::std_specs::vec::vec_index_mut(storages, best);
    let acc = elem.insert(&stack);
    proof {
        crate::storage::lemma_count_item_nonneg(orig[best as int].slots@, stack.detail);
    }
    if acc == stack.size {
        None
    } else {
        Some(DetailStack { detail: stack.detail, size: stack.size - acc })
    }
}


/// The quantity an extraction moves for one slotted input is always an
/// exact multiple of the input's per-set size and never exceeds
/// `floor(usable / size) * size`.
pub proof fn lemma_extraction_exact_multiple(
    s0: Seq<Storage>,
    b0: Seq<Storage>,
    s1: Seq<Storage>,
    b1: Seq<Storage>,
    inp: CraftingGridInput,
    sets: int,
    got: int,
)
    requires
        extract_input_post(s0, b0, s1, b1, inp, sets, got),
        inp.wf(),
        0 <= sets,
    ensures
        got % (inp.size as int) == 0,
        got <= input_sets(s0, b0, inp) * (inp.size as int),
{
    let size = inp.size as int;
    let m = vstd::math::min(sets, input_sets(s0, b0, inp));
    lemma_total_matching_nonneg(s0, inp.item);
    lemma_total_matching_nonneg(b0, inp.item);
    vstd::arithmetic::div_mod::lemma_div_pos_is_pos(usable_for(s0, b0, inp), size);
    assert(size * m == m * size) by (nonlinear_arith);
    vstd::arithmetic::div_mod::lemma_mod_multiples_basic(m, size);
    vstd::arithmetic::mul::lemma_mul_inequality(m, input_sets(s0, b0, inp), size);
    assert(input_sets(s0, b0, inp) * size == size * input_sets(s0, b0, inp)) by (nonlinear_arith);
}

/// An input allowed to draw on backups never leaves the backup reserve
/// below its `extra_backup` floor, whenever the reserve was at least that
/// high before the extraction.
pub proof fn lemma_backup_reserve_kept(
    s0: Seq<Storage>,
    b0: Seq<Storage>,
    s1: Seq<Storage>,
    b1: Seq<Storage>,
    inp: CraftingGridInput,
    sets: int,
    got: int,
)
    requires
        extract_input_post(s0, b0, s1, b1, inp, sets, got),
        inp.allow_backup,
        total_matching(b0, inp.item) >= inp.extra_backup,
    ensures
        total_matching(b1, inp.item) >= inp.extra_backup,
{
}


/// Where one firing physically places the units extracted for an input:
/// exactly `sets * size` units at each declared (slot, size) pair, in the
/// declared order. Slot position matters for fixed-grid machines; the host
/// layer feeds the machine from this list.
pub fn placements_for(inp: &CraftingGridInput, sets: u64) -> (r: Vec<(usize, u64)>)
    requires
        inp.wf(),
        sets <= u32::MAX as u64,
    ensures
        r@.len() == inp.slots@.len(),
        forall|j: int|
            0 <= j < inp.slots@.len() ==> (#[trigger] r@[j]).0 == inp.slots@[j].slot && r@[j].1
                == sets * inp.slots@[j].size,
{
    let mut r: Vec<(usize, u64)> = Vec::new();
    let mut j: usize = 0;
    while j < inp.slots.len()
        invariant
            inp.wf(),
            sets <= u32::MAX as u64,
            j <= inp.slots@.len(),
            r@.len() == j,
            forall|k: int|
                0 <= k < j ==> (#[trigger] r@[k]).0 == inp.slots@[k].slot && r@[k].1 == sets
                    * inp.slots@[k].size,
        decreases inp.slots@.len() - j,
    {
        proof {
            assert(sets as int * inp.slots@[j as int].size as int <= 0xFFFF_FFFF * 0xFFFF_FFFF)
                by (nonlinear_arith)
                requires
                    sets as int <= 0xFFFF_FFFF,
                    inp.slots@[j as int].size as int <= 0xFFFF_FFFF,
                    0 <= sets as int,
                    0 <= inp.slots@[j as int].size as int,
            ;
        }
        let amount: u64 = sets * (inp.slots[j].size as u64);
        r.push((inp.slots[j].slot, amount));
        j += 1;
    }
    r
}


/// Where one firing physically places the units extracted for every input:
/// one placement list per input, built by `placements_for`.
pub fn placements_of(inputs: &Vec<CraftingGridInput>, sets: u64) -> (r: Vec<Vec<(usize, u64)>>)
    requires
        forall|i: int| 0 <= i < inputs@.len() ==> (#[trigger] inputs@[i]).wf(),
        sets <= u32::MAX as u64,
    ensures
        r@.len() == inputs@.len(),
        forall|i: int|
            0 <= i < inputs@.len() ==> (#[trigger] r@[i])@.len() == inputs@[i].slots@.len()
                && forall|j: int|
                0 <= j < inputs@[i].slots@.len() ==> r@[i]@[j] == (
                inputs@[i].slots@[j].slot,
                (sets as int * inputs@[i].slots@[j].size as int) as u64,
            ),
{
    let mut r: Vec<Vec<(usize, u64)>> = Vec::new();
    let mut i: usize = 0;
    while i < inputs.len()
        invariant
            forall|k: int| 0 <= k < inputs@.len() ==> (#[trigger] inputs@[k]).wf(),
            sets <= u32::MAX as u64,
            i <= inputs@.len(),
            r@.len() == i,
            forall|k: int|
                0 <= k < i ==> (#[trigger] r@[k])@.len() == inputs@[k].slots@.len() && forall|
                    j: int,
                |
                    0 <= j < inputs@[k].slots@.len() ==> r@[k]@[j] == (
                    inputs@[k].slots@[j].slot,
                    (sets as int * inputs@[k].slots@[j].size as int) as u64,
                ),
        decreases inputs@.len() - i,
    {
        let p = placements_for(&inputs[i], sets);
        proof {
            assert forall|j: int| 0 <= j < inputs@[i as int].slots@.len() implies p@[j] == (
                inputs@[i as int].slots@[j].slot,
                (sets as int * inputs@[i as int].slots@[j].size as int) as u64,
            ) by {
                assert(p@[j].1 == sets * inputs@[i as int].slots@[j].size);
            }
        }
        r.push(p);
        i += 1;
    }
    r
}

} // verus!

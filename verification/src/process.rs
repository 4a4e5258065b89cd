//! Active work cells, one "advance" step per factory cycle: manual surfaces,
//! workbenches and slotted machines driving the recipe engine, turtles
//! carrying an external program, and redstone emitters.

use vstd::prelude::*;

use crate::access::{BusAccess, RedstoneAccess};
use crate::item::{Detail, DetailStack, Filter};
use crate::recipe::{
    all_wf, best_dest, compute_recipe_sets, extract_for_input, lemma_recipe_sets_congruence,
    extract_input_post, lemma_same_contents_refl, lemma_same_contents_trans, recipe_sets,
    route_output, route_post, same_contents, storage_cap_for, total_matching,
    CraftingGridInput, CraftingGridRecipe, Output, MAX_STORAGES,
};
use crate::storage::{slot_count, Storage};
use crate::util::{wit1, wit2, wit3};

verus! {

/// An outward-facing effect a process asks for during a cycle: the cycle
/// runner performs it against the remote endpoint.
pub enum Action {
    SetRedstone { client: String, addr: String, level: u8 },
    StartProgram { name: String, file_name: String, client: String },
    RecipeFired { process: String, sets: u64, placements: Vec<Vec<(usize, u64)>> },
}

/// One configured rule of a redstone emitter.
pub struct EmitterRule {
    pub name: String,
    pub off_signal: u8,
    pub on_signal: u8,
    pub trigger_items: Vec<Filter>,
}

/// A work cell. A `Workbench` or `Slotted` process owns a buffer holding
/// produced stacks that no storage has accepted yet; a `Slotted` process
/// additionally fixes its machine input slots and may restrict which
/// produced items are proactively pulled.
pub enum Process {
    ManualUI { accesses: Vec<BusAccess> },
    Workbench {
        name: String,
        accesses: Vec<BusAccess>,
        recipes: Vec<CraftingGridRecipe>,
        buffer: Vec<DetailStack>,
    },
    Slotted {
        name: String,
        accesses: Vec<BusAccess>,
        input_slots: Vec<usize>,
        extract_filter: Option<Filter>,
        recipes: Vec<CraftingGridRecipe>,
        strict_priority: bool,
        buffer: Vec<DetailStack>,
    },
    Turtle { name: String, file_name: String, client: String, started: bool },
    RedstoneEmitter { accesses: Vec<RedstoneAccess>, rule: EmitterRule, last_output: Option<u8> },
}

pub open spec fn buffer_wf(buffer: Seq<DetailStack>) -> bool {
    forall|i: int| 0 <= i < buffer.len() ==> 1 <= (#[trigger] buffer[i]).size
}

pub open spec fn recipes_wf(recipes: Seq<CraftingGridRecipe>) -> bool {
    forall|i: int| 0 <= i < recipes.len() ==> (#[trigger] recipes[i]).wf()
}

impl Process {
    pub open spec fn wf(self) -> bool {
        match self {
            Process::Workbench { recipes, buffer, .. } => recipes_wf(recipes@) && buffer_wf(
                buffer@,
            ),
            Process::Slotted { recipes, buffer, .. } => recipes_wf(recipes@) && buffer_wf(buffer@),
            _ => true,
        }
    }
}

/// No recipe of the list can fire against the pools.
pub open spec fn recipes_stuck(
    storages: Seq<Storage>,
    backups: Seq<Storage>,
    recipes: Seq<CraftingGridRecipe>,
) -> bool {
    forall|i: int|
        0 <= i < recipes.len() ==> recipe_sets(storages, backups, #[trigger] recipes[i]) <= 0
}

/// Some storage would take at least one unit of the item.
pub open spec fn stack_routable(storages: Seq<Storage>, d: Detail) -> bool {
    exists|i: int|
        0 <= i < storages.len() && (#[trigger] storages[i]).spec_accepts(d.label@, d.name@)
            && storage_cap_for(storages[i], d) > 0
}

pub proof fn lemma_routable_congruence(a: Seq<Storage>, b: Seq<Storage>, d: Detail)
    requires
        same_contents(a, b),
    ensures
        stack_routable(a, d) == stack_routable(b, d),
{
    assert forall|i: int| 0 <= i < a.len() implies (#[trigger] b[i]).spec_accepts(d.label@, d.name@)
        == a[i].spec_accepts(d.label@, d.name@) && storage_cap_for(b[i], d) == storage_cap_for(
        a[i],
        d,
    ) by {
        assert(b[i].kind == a[i].kind);
        assert(b[i].slots@ == a[i].slots@);
    }
    if stack_routable(a, d) {
        let i = choose|i: int|
            0 <= i < a.len() && (#[trigger] a[i]).spec_accepts(d.label@, d.name@)
                && storage_cap_for(a[i], d) > 0;
        assert(b[i].spec_accepts(d.label@, d.name@) && storage_cap_for(b[i], d) > 0);
    }
    if stack_routable(b, d) {
        let i = choose|i: int|
            0 <= i < b.len() && (#[trigger] b[i]).spec_accepts(d.label@, d.name@)
                && storage_cap_for(b[i], d) > 0;
        assert(a[i].spec_accepts(d.label@, d.name@) && storage_cap_for(a[i], d) > 0);
    }
}

/// Whether a buffered stack is proactively pulled towards the storages.
pub open spec fn spec_pullable(ef: Option<Filter>, st: DetailStack) -> bool {
    match ef {
        Some(f) => f.spec_matches(st.detail.label@, st.detail.name@),
        None => true,
    }
}

/// No buffered stack that would be pulled can be placed anywhere.
pub open spec fn buffer_stuck(
    storages: Seq<Storage>,
    ef: Option<Filter>,
    buffer: Seq<DetailStack>,
) -> bool {
    forall|i: int|
        0 <= i < buffer.len() && spec_pullable(ef, #[trigger] buffer[i]) ==> !stack_routable(
            storages,
            buffer[i].detail,
        )
}

/// The process can make no progress against the pools: advancing it moves
/// no items between its buffer and the storages. Processes that never touch
/// the storages (manual surfaces, turtles, emitters) are always stuck in
/// this sense.
pub open spec fn process_stuck(p: Process, storages: Seq<Storage>, backups: Seq<Storage>) -> bool {
    match p {
        Process::Workbench { recipes, buffer, .. } => recipes_stuck(storages, backups, recipes@)
            && buffer_stuck(storages, None, buffer@),
        Process::Slotted { recipes, buffer, extract_filter, .. } => recipes_stuck(
            storages,
            backups,
            recipes@,
        ) && buffer_stuck(storages, extract_filter, buffer@),
        _ => true,
    }
}


/// Sequential extraction of a recipe's inputs for `sets` crafted sets:
/// each input is taken per `extract_input_post` against the pools the
/// previous inputs left behind.
pub open spec fn extract_inputs_rel(
    s0: Seq<Storage>,
    b0: Seq<Storage>,
    inputs: Seq<CraftingGridInput>,
    sets: int,
    s1: Seq<Storage>,
    b1: Seq<Storage>,
) -> bool
    decreases inputs.len(),
{
    if inputs.len() == 0 {
        s1 == s0 && b1 == b0
    } else {
        exists|smid: Seq<Storage>, bmid: Seq<Storage>, got: int|
            #![trigger wit3(smid, bmid, got)]
            {
                &&& wit3(smid, bmid, got)
                &&& extract_inputs_rel(s0, b0, inputs.drop_last(), sets, smid, bmid)
                &&& extract_input_post(smid, bmid, s1, b1, inputs.last(), sets, got)
            }
    }
}

/// The stack one output entry yields for `sets` crafted sets: the filter's
/// representative item, `sets * size` units.
pub open spec fn produced_stack(out: Output, sets: int) -> DetailStack {
    DetailStack { detail: out.item.spec_canonical_detail(), size: (sets * out.size as int) as u32 }
}

/// Sequential routing of a recipe's produced outputs: each output stack is
/// placed per `route_post` against the pool the previous outputs left
/// behind, and every leftover is appended to the buffer — never dropped.
pub open spec fn route_outputs_rel(
    s0: Seq<Storage>,
    outputs: Seq<Output>,
    sets: int,
    buf0: Seq<DetailStack>,
    s1: Seq<Storage>,
    buf1: Seq<DetailStack>,
) -> bool
    decreases outputs.len(),
{
    if outputs.len() == 0 {
        s1 == s0 && buf1 == buf0
    } else {
        exists|smid: Seq<Storage>, bmid: Seq<DetailStack>, leftover: Option<DetailStack>|
            #![trigger wit3(smid, bmid, leftover)]
            {
                &&& wit3(smid, bmid, leftover)
                &&& route_outputs_rel(s0, outputs.drop_last(), sets, buf0, smid, bmid)
                &&& route_post(smid, s1, produced_stack(outputs.last(), sets), leftover)
                &&& buf1 == bmid + (match leftover {
                    Some(l) => seq![l],
                    None => Seq::<DetailStack>::empty(),
                })
            }
    }
}

/// What firing one recipe does: exactly `recipe_sets` sets fire; when that
/// is zero nothing at all changes; otherwise every input is extracted in
/// order per `extract_input_post`, then every output is routed in order
/// per `route_post` with leftovers buffered. The backup pool is touched
/// only by the extraction phase.
pub open spec fn fire_rel(
    s0: Seq<Storage>,
    b0: Seq<Storage>,
    r: CraftingGridRecipe,
    buf0: Seq<DetailStack>,
    s1: Seq<Storage>,
    b1: Seq<Storage>,
    buf1: Seq<DetailStack>,
    sets: int,
) -> bool {
    &&& sets == recipe_sets(s0, b0, r)
    &&& if sets == 0 {
        s1 == s0 && b1 == b0 && buf1 == buf0
    } else {
        exists|smid: Seq<Storage>|
            #![trigger wit1(smid)]
            {
                &&& wit1(smid)
                &&& extract_inputs_rel(s0, b0, r.inputs@, sets, smid, b1)
                &&& route_outputs_rel(smid, r.outputs@, sets, buf0, s1, buf1)
            }
    }
}

/// Fire one recipe if it is feasible: extract every input for the feasible
/// set count and route the produced outputs, buffering what no storage
/// accepts. Returns the number of sets fired, exactly `recipe_sets` at the
/// state on entry; the full effect is `fire_rel`.
#[verifier::loop_isolation(false)]
pub fn fire_recipe(
    storages: &mut Vec<Storage>,
    backups: &mut Vec<Storage>,
    r: &CraftingGridRecipe,
    buffer: &mut Vec<DetailStack>,
) -> (sets: u64)
    requires
        all_wf(old(storages)@),
        all_wf(old(backups)@),
        old(storages)@.len() <= MAX_STORAGES,
        old(backups)@.len() <= MAX_STORAGES,
        r.wf(),
        buffer_wf(old(buffer)@),
    ensures
        all_wf(final(storages)@),
        all_wf(final(backups)@),
        final(storages)@.len() == old(storages)@.len(),
        final(backups)@.len() == old(backups)@.len(),
        buffer_wf(final(buffer)@),
        final(buffer)@.len() >= old(buffer)@.len(),
        final(buffer)@.take(old(buffer)@.len() as int) == old(buffer)@,
        sets as int == recipe_sets(old(storages)@, old(backups)@, *r),
        sets <= r.max_sets,
        sets == 0 ==> final(storages)@ == old(storages)@ && final(backups)@ == old(backups)@
            && final(buffer)@ == old(buffer)@,
        fire_rel(old(storages)@, old(backups)@, *r, old(buffer)@, final(storages)@, final(backups)@, final(buffer)@, sets as int),
{
    let sets = compute_recipe_sets(storages, backups, r);
    if sets == 0 {
        return 0;
    }
    let mut i: usize = 0;
    while i < r.inputs.len()
        invariant
            all_wf(storages@),
            all_wf(backups@),
            storages@.len() == old(storages)@.len(),
            backups@.len() == old(backups)@.len(),
            storages@.len() <= MAX_STORAGES,
            backups@.len() <= MAX_STORAGES,
            r.wf(),
            i <= r.inputs@.len(),
            sets <= r.max_sets,
            extract_inputs_rel(old(storages)@, old(backups)@, r.inputs@.take(i as int), sets as int, storages@, backups@),
        decreases r.inputs@.len() - i,
    {
        let ghost prev_s = storages@;
        let ghost prev_b = backups@;
        proof {
            assert(r.inputs@[i as int].wf());
            assert(r.inputs@.take(i + 1).drop_last() =~= r.inputs@.take(i as int));
            assert(r.inputs@.take(i + 1).last() == r.inputs@[i as int]);
        }
        let got = extract_for_input(storages, backups, &r.inputs[i], sets);
        proof {
            assert(wit3(prev_s, prev_b, got as int));
            assert(extract_inputs_rel(old(storages)@, old(backups)@, r.inputs@.take(i + 1), sets as int, storages@, backups@));
        }
        i += 1;
    }
    proof {
        assert(r.inputs@.take(r.inputs@.len() as int) =~= r.inputs@);
    }
    let ghost mid_s = storages@;
    let ghost mid_b = backups@;
    let ghost mid_buf = buffer@;
    let mut k: usize = 0;
    while k < r.outputs.len()
        invariant
            all_wf(storages@),
            all_wf(backups@),
            storages@.len() == old(storages)@.len(),
            backups@.len() == old(backups)@.len(),
            storages@.len() <= MAX_STORAGES,
            backups@.len() <= MAX_STORAGES,
            r.wf(),
            k <= r.outputs@.len(),
            1 <= sets && sets <= r.max_sets,
            buffer_wf(buffer@),
            buffer@.len() >= old(buffer)@.len(),
            buffer@.take(old(buffer)@.len() as int) == old(buffer)@,
            backups@ == mid_b,
            route_outputs_rel(mid_s, r.outputs@.take(k as int), sets as int, mid_buf, storages@, buffer@),
        decreases r.outputs@.len() - k,
    {
        proof {
            assert(1 <= r.outputs@[k as int].size);
            assert(r.max_sets as int * r.outputs@[k as int].size as int <= u32::MAX as int);
            assert(sets as int * r.outputs@[k as int].size as int <= r.max_sets as int
                * r.outputs@[k as int].size as int && 1 <= sets as int * r.outputs@[
                k as int
            ].size as int) by (nonlinear_arith)
                requires
                    1 <= sets as int <= r.max_sets as int,
                    1 <= r.outputs@[k as int].size as int,
            ;
        }
        let ghost prev_s = storages@;
        let d = r.outputs[k].item.canonical_detail();
        let sz: u32 = (sets as u32) * r.outputs[k].size;
        proof {
            assert(r.outputs@.take(k + 1).drop_last() =~= r.outputs@.take(k as int));
            assert(r.outputs@.take(k + 1).last() == r.outputs@[k as int]);
            assert(sz as int == sets as int * r.outputs@[k as int].size as int);
            assert((DetailStack { detail: d, size: sz }) == produced_stack(
                r.outputs@[k as int],
                sets as int,
            ));
        }
        let left = route_output(storages, DetailStack { detail: d, size: sz });
        let ghost gl = left;
        let ghost prev_buf = buffer@;
        match left {
            Some(l) => {
                buffer.push(l);
                proof {
                    assert(buffer@.take(old(buffer)@.len() as int) =~= prev_buf.take(
                        old(buffer)@.len() as int,
                    ));
                }
            },
            None => {},
        }
        proof {
            match gl {
                Some(l) => {
                    assert(buffer@ =~= prev_buf + seq![l]);
                },
                None => {
                    assert(buffer@ =~= prev_buf + Seq::<DetailStack>::empty());
                },
            }
            assert(wit3(prev_s, prev_buf, gl));
            assert(route_outputs_rel(mid_s, r.outputs@.take(k + 1), sets as int, mid_buf, storages@, buffer@));
        }
        k += 1;
    }
    proof {
        assert(r.outputs@.take(r.outputs@.len() as int) =~= r.outputs@);
        assert(wit1(mid_s));
        assert(fire_rel(old(storages)@, old(backups)@, *r, old(buffer)@, storages@, backups@, buffer@, sets as int));
    }
    sets
}

/// What one buffer flush does, relating the pool and buffer before (`s0`,
/// `buf0`) and after (`s1`, `buf1`): the buffered stacks are taken in
/// order; each one the extract filter pulls is routed per `route_post`
/// against the then-current pool, its leftover (if any) kept; a stack not
/// pulled is kept as it is. Nothing is ever dropped.
pub open spec fn flush_rel(
    s0: Seq<Storage>,
    buf0: Seq<DetailStack>,
    ef: Option<Filter>,
    s1: Seq<Storage>,
    buf1: Seq<DetailStack>,
) -> bool
    decreases buf0.len(),
{
    if buf0.len() == 0 {
        s1 == s0 && buf1 == Seq::<DetailStack>::empty()
    } else {
        exists|smid: Seq<Storage>, bmid: Seq<DetailStack>|
            #![trigger wit2(smid, bmid)]
            {
                &&& wit2(smid, bmid)
                &&& flush_rel(s0, buf0.drop_last(), ef, smid, bmid)
                &&& if spec_pullable(ef, buf0.last()) {
                    exists|leftover: Option<DetailStack>|
                        #![trigger wit1(leftover)]
                        {
                            &&& wit1(leftover)
                            &&& route_post(smid, s1, buf0.last(), leftover)
                            &&& buf1 == bmid + (match leftover {
                                Some(l) => seq![l],
                                None => Seq::<DetailStack>::empty(),
                            })
                        }
                } else {
                    s1 == smid && buf1 == bmid.push(buf0.last())
                }
            }
    }
}

/// Try to place every pullable buffered stack into the storages, keeping
/// what is not pulled or not accepted. When nothing in the buffer can be
/// placed, the storages and the buffer are left as they are.
#[verifier::loop_isolation(false)]
pub fn flush_buffer(storages: &mut Vec<Storage>, buffer: &mut Vec<DetailStack>, ef: &Option<Filter>)
    requires
        all_wf(old(storages)@),
        old(storages)@.len() <= MAX_STORAGES,
        buffer_wf(old(buffer)@),
    ensures
        all_wf(final(storages)@),
        final(storages)@.len() == old(storages)@.len(),
        buffer_wf(final(buffer)@),
        flush_rel(old(storages)@, old(buffer)@, *ef, final(storages)@, final(buffer)@),
        buffer_stuck(old(storages)@, *ef, old(buffer)@) ==> same_contents(
            old(storages)@,
            final(storages)@,
        ) && final(buffer)@ == old(buffer)@,
{
    let ghost orig = old(storages)@;
    let ghost obuf = old(buffer)@;
    let mut out: Vec<DetailStack> = Vec::new();
    let mut i: usize = 0;
    while i < buffer.len()
        invariant
            buffer@ == obuf,
            buffer_wf(obuf),
            all_wf(storages@),
            storages@.len() == orig.len(),
            orig.len() <= MAX_STORAGES,
            i <= obuf.len(),
            buffer_wf(out@),
            flush_rel(orig, obuf.take(i as int), *ef, storages@, out@),
            buffer_stuck(orig, *ef, obuf) ==> same_contents(orig, storages@) && out@
                == obuf.take(i as int),
        decreases obuf.len() - i,
    {
        let ghost prev = storages@;
        let ghost prev_out = out@;
        proof {
            assert(obuf.take(i + 1).drop_last() =~= obuf.take(i as int));
            assert(obuf.take(i + 1).last() == obuf[i as int]);
        }
        let st = buffer[i].clone();
        let pull = match ef {
            Some(f) => f.matches_stack(&st),
            None => true,
        };
        if pull {
            let left = route_output(storages, st);
            proof {
                if buffer_stuck(orig, *ef, obuf) {
                    assert(!stack_routable(orig, st.detail));
                    lemma_routable_congruence(orig, prev, st.detail);
                    match best_dest(prev, st.detail) {
                        Some(bi) => {
                            assert(prev[bi].spec_accepts(st.detail.label@, st.detail.name@));
                            assert(storage_cap_for(prev[bi], st.detail) <= 0);
                            assert(same_contents(prev, storages@));
                            assert(left == Some(st));
                        },
                        None => {
                            assert(storages@ == prev);
                            lemma_same_contents_refl(prev);
                        },
                    }
                    lemma_same_contents_trans(orig, prev, storages@);
                }
            }
            let ghost gl = left;
            match left {
                Some(l) => {
                    out.push(l);
                },
                None => {},
            }
            proof {
                match gl {
                    Some(l) => {
                        assert(out@ =~= prev_out + seq![l]);
                    },
                    None => {
                        assert(out@ =~= prev_out + Seq::<DetailStack>::empty());
                    },
                }
                assert(wit2(prev, prev_out));
                assert(wit1(gl));
                assert(flush_rel(orig, obuf.take(i + 1), *ef, storages@, out@));
            }
        } else {
            out.push(st);
            proof {
                assert(wit2(prev, prev_out));
                assert(flush_rel(orig, obuf.take(i + 1), *ef, storages@, out@));
            }
        }
        i += 1;
    }
    proof {
        assert(obuf.take(obuf.len() as int) =~= obuf);
    }
    *buffer = out;
}

/// Whether any trigger filter currently matches a nonzero quantity in the
/// storages.
pub open spec fn spec_any_trigger(storages: Seq<Storage>, triggers: Seq<Filter>) -> bool {
    exists|i: int| 0 <= i < triggers.len() && total_matching(storages, #[trigger] triggers[i]) > 0
}

fn any_trigger(storages: &Vec<Storage>, triggers: &Vec<Filter>) -> (r: bool)
    requires
        all_wf(storages@),
        storages@.len() <= MAX_STORAGES,
    ensures
        r == spec_any_trigger(storages@, triggers@),
{
    let mut i: usize = 0;
    while i < triggers.len()
        invariant
            all_wf(storages@),
            storages@.len() <= MAX_STORAGES,
            i <= triggers@.len(),
            forall|j: int| 0 <= j < i ==> total_matching(storages@, #[trigger] triggers@[j]) <= 0,
        decreases triggers@.len() - i,
    {
        let c = crate::recipe::total_of(storages, &triggers[i]);
        if c > 0 {
            proof {
                assert(total_matching(storages@, triggers@[i as int]) > 0);
            }
            return true;
        }
        i += 1;
    }
    false
}

/// What one advance of a redstone emitter yields: the output level follows
/// the trigger filters alone, and one `SetRedstone` action is emitted per
/// configured access.
pub open spec fn emitter_post(
    p0: Process,
    p1: Process,
    storages: Seq<Storage>,
    actions: Seq<Action>,
) -> bool {
    match p0 {
        Process::RedstoneEmitter { accesses, rule, last_output: _ } => {
            let lvl = if spec_any_trigger(storages, rule.trigger_items@) {
                rule.on_signal
            } else {
                rule.off_signal
            };
            &&& p1 == (Process::RedstoneEmitter { accesses, rule, last_output: Some(lvl) })
            &&& actions.len() == accesses@.len()
            &&& forall|k: int|
                0 <= k < accesses@.len() ==> actions[k] == (Action::SetRedstone {
                    client: accesses@[k].client,
                    addr: accesses@[k].addr,
                    level: lvl,
                })
        },
        _ => true,
    }
}

/// What one advance of a turtle yields: the external program is started at
/// most once; the core does not inspect it further.
pub open spec fn turtle_post(p0: Process, p1: Process, actions: Seq<Action>) -> bool {
    match p0 {
        Process::Turtle { name, file_name, client, started } => {
            &&& p1 == (Process::Turtle { name, file_name, client, started: true })
            &&& if started {
                actions.len() == 0
            } else {
                actions =~= seq![(Action::StartProgram { name, file_name, client })]
            }
        },
        _ => true,
    }
}

/// A `RecipeFired` action reporting this firing: the recipe's name, the
/// set count, and exactly `sets * size` units placed at each input's
/// declared (slot, size) pair, in declared order.
pub open spec fn fired_action_matches(
    a: Action,
    name: String,
    sets: int,
    inputs: Seq<CraftingGridInput>,
) -> bool {
    match a {
        Action::RecipeFired { process, sets: s, placements } => {
            &&& process == name
            &&& s as int == sets
            &&& placements@.len() == inputs.len()
            &&& forall|i: int|
                0 <= i < inputs.len() ==> (#[trigger] placements@[i])@.len()
                    == inputs[i].slots@.len() && forall|j: int|
                    0 <= j < inputs[i].slots@.len() ==> placements@[i]@[j] == (
                    inputs[i].slots@[j].slot,
                    (sets * inputs[i].slots@[j].size as int) as u64,
                )
        },
        _ => false,
    }
}

/// Firing a recipe list in declaration order: each recipe fires per
/// `fire_rel` against the state its predecessors left, and each firing
/// appends one matching `RecipeFired` action.
pub open spec fn run_recipes_rel(
    s0: Seq<Storage>,
    b0: Seq<Storage>,
    recipes: Seq<CraftingGridRecipe>,
    buf0: Seq<DetailStack>,
    name: String,
    s1: Seq<Storage>,
    b1: Seq<Storage>,
    buf1: Seq<DetailStack>,
    acts: Seq<Action>,
) -> bool
    decreases recipes.len(),
{
    if recipes.len() == 0 {
        s1 == s0 && b1 == b0 && buf1 == buf0 && acts == Seq::<Action>::empty()
    } else {
        exists|
            smid: Seq<Storage>,
            bmid: Seq<Storage>,
            bufmid: Seq<DetailStack>,
            amid: Seq<Action>,
            sets: int,
        |
            #![trigger wit3(smid, bmid, bufmid), wit2(amid, sets)]
            {
                &&& wit3(smid, bmid, bufmid)
                &&& wit2(amid, sets)
                &&& run_recipes_rel(s0, b0, recipes.drop_last(), buf0, name, smid, bmid, bufmid, amid)
                &&& fire_rel(smid, bmid, recipes.last(), bufmid, s1, b1, buf1, sets)
                &&& if sets > 0 {
                    exists|a: Action|
                        #![trigger wit1(a)]
                        (wit1(a) && acts == amid.push(a) && fired_action_matches(
                            a,
                            name,
                            sets,
                            recipes.last().inputs@,
                        ))
                } else {
                    acts == amid
                }
            }
    }
}

/// Firing a recipe list under strict priority: recipes are tried in order;
/// every recipe before the first satisfiable one yields zero sets, and
/// only that first satisfiable recipe fires, per `fire_rel`, with one
/// matching `RecipeFired` action. When none is satisfiable nothing changes.
pub open spec fn strict_run_rel(
    s0: Seq<Storage>,
    b0: Seq<Storage>,
    recipes: Seq<CraftingGridRecipe>,
    buf0: Seq<DetailStack>,
    name: String,
    s1: Seq<Storage>,
    b1: Seq<Storage>,
    buf1: Seq<DetailStack>,
    acts: Seq<Action>,
) -> bool {
    exists|k: int|
        #![trigger wit1(k)]
        {
            &&& wit1(k)
            &&& 0 <= k <= recipes.len()
            &&& (forall|j: int| 0 <= j < k ==> recipe_sets(s0, b0, #[trigger] recipes[j]) == 0)
            &&& if k == recipes.len() {
                s1 == s0 && b1 == b0 && buf1 == buf0 && acts == Seq::<Action>::empty()
            } else {
                exists|sets: int, a: Action|
                    #![trigger wit2(sets, a)]
                    {
                        &&& wit2(sets, a)
                        &&& fire_rel(s0, b0, recipes[k], buf0, s1, b1, buf1, sets)
                        &&& sets >= 1
                        &&& acts == seq![a]
                        &&& fired_action_matches(a, name, sets, recipes[k].inputs@)
                    }
            }
        }
}

/// A manual surface does nothing during a cycle.
pub open spec fn manual_post(p0: Process, p1: Process, acts: Seq<Action>) -> bool {
    match p0 {
        Process::ManualUI { .. } => p1 == p0 && acts == Seq::<Action>::empty(),
        _ => true,
    }
}

/// What one advance of a workbench yields: the buffer flushed per
/// `flush_rel`, then every recipe fired in order per `run_recipes_rel`;
/// only the buffer of the process itself changes.
pub open spec fn workbench_post(
    p0: Process,
    p1: Process,
    s0: Seq<Storage>,
    b0: Seq<Storage>,
    s1: Seq<Storage>,
    b1: Seq<Storage>,
    acts: Seq<Action>,
) -> bool {
    match p0 {
        Process::Workbench { name, accesses, recipes, buffer } => match p1 {
            Process::Workbench { name: n1, accesses: a1, recipes: r1, buffer: nb } => {
                &&& n1 == name
                &&& a1 == accesses
                &&& r1 == recipes
                &&& exists|smid: Seq<Storage>, bufmid: Seq<DetailStack>|
                    #![trigger wit2(smid, bufmid)]
                    {
                        &&& wit2(smid, bufmid)
                        &&& flush_rel(s0, buffer@, None::<Filter>, smid, bufmid)
                        &&& run_recipes_rel(smid, b0, recipes@, bufmid, name, s1, b1, nb@, acts)
                    }
            },
            _ => false,
        },
        _ => true,
    }
}

/// What one advance of a slotted machine yields: the buffer flushed per
/// `flush_rel` under its extract filter, then its recipes fired — all of
/// them in order, or only the first satisfiable one under strict priority.
pub open spec fn slotted_post(
    p0: Process,
    p1: Process,
    s0: Seq<Storage>,
    b0: Seq<Storage>,
    s1: Seq<Storage>,
    b1: Seq<Storage>,
    acts: Seq<Action>,
) -> bool {
    match p0 {
        Process::Slotted {
            name,
            accesses,
            input_slots,
            extract_filter,
            recipes,
            strict_priority,
            buffer,
        } => match p1 {
            Process::Slotted {
                name: n1,
                accesses: a1,
                input_slots: is1,
                extract_filter: ef1,
                recipes: r1,
                strict_priority: sp1,
                buffer: nb,
            } => {
                &&& n1 == name
                &&& a1 == accesses
                &&& is1 == input_slots
                &&& ef1 == extract_filter
                &&& r1 == recipes
                &&& sp1 == strict_priority
                &&& exists|smid: Seq<Storage>, bufmid: Seq<DetailStack>|
                    #![trigger wit2(smid, bufmid)]
                    {
                        &&& wit2(smid, bufmid)
                        &&& flush_rel(s0, buffer@, extract_filter, smid, bufmid)
                        &&& if strict_priority {
                            strict_run_rel(smid, b0, recipes@, bufmid, name, s1, b1, nb@, acts)
                        } else {
                            run_recipes_rel(smid, b0, recipes@, bufmid, name, s1, b1, nb@, acts)
                        }
                    }
            },
            _ => false,
        },
        _ => true,
    }
}

/// A variant that never touches the pools leaves them exactly as they are.
pub open spec fn passive_unchanged(
    p0: Process,
    s0: Seq<Storage>,
    b0: Seq<Storage>,
    s1: Seq<Storage>,
    b1: Seq<Storage>,
) -> bool {
    match p0 {
        Process::Workbench { .. } => true,
        Process::Slotted { .. } => true,
        _ => s1 == s0 && b1 == b0,
    }
}

/// The full effect of advancing one process by one cycle step, variant by
/// variant.
pub open spec fn step_post(
    p0: Process,
    p1: Process,
    s0: Seq<Storage>,
    b0: Seq<Storage>,
    s1: Seq<Storage>,
    b1: Seq<Storage>,
    acts: Seq<Action>,
) -> bool {
    &&& emitter_post(p0, p1, s0, acts)
    &&& turtle_post(p0, p1, acts)
    &&& manual_post(p0, p1, acts)
    &&& workbench_post(p0, p1, s0, b0, s1, b1, acts)
    &&& slotted_post(p0, p1, s0, b0, s1, b1, acts)
    &&& passive_unchanged(p0, s0, b0, s1, b1)
}

/// Advance one process by one cycle step against the storage pools; the
/// full effect is `step_post`, variant by variant.
///
/// A process that can make no progress leaves all storage contents
/// unchanged. A redstone emitter's output level is `on_signal` exactly when
/// some trigger filter matches a nonzero quantity, else `off_signal`.
#[verifier::loop_isolation(false)]
pub fn step_process(
    p: &mut Process,
    storages: &mut Vec<Storage>,
    backups: &mut Vec<Storage>,
) -> (actions: Vec<Action>)
    requires
        old(p).wf(),
        all_wf(old(storages)@),
        all_wf(old(backups)@),
        old(storages)@.len() <= MAX_STORAGES,
        old(backups)@.len() <= MAX_STORAGES,
    ensures
        final(p).wf(),
        all_wf(final(storages)@),
        all_wf(final(backups)@),
        final(storages)@.len() == old(storages)@.len(),
        final(backups)@.len() == old(backups)@.len(),
        process_stuck(*old(p), old(storages)@, old(backups)@) ==> same_contents(
            old(storages)@,
            final(storages)@,
        ) && same_contents(old(backups)@, final(backups)@),
        step_post(*old(p), *final(p), old(storages)@, old(backups)@, final(storages)@, final(backups)@, actions@),
{
    let ghost p0 = *p;
    let ghost orig_s = old(storages)@;
    let ghost orig_b = old(backups)@;
    match p {
        Process::ManualUI { accesses: _ } => {
            proof {
                lemma_same_contents_refl(orig_s);
                lemma_same_contents_refl(orig_b);
            }
            Vec::new()
        },
        Process::Workbench { name, accesses: _, recipes, buffer } => {
            let ghost stuck: bool = process_stuck(p0, orig_s, orig_b);
            proof {
                lemma_same_contents_refl(orig_b);
            }
            let none_filter: Option<Filter> = None;
            flush_buffer(storages, buffer, &none_filter);
            let ghost sflush = storages@;
            let ghost bflush = backups@;
            let ghost bufflush = buffer@;
            let mut acts: Vec<Action> = Vec::new();
            let mut i: usize = 0;
            proof {
                assert(recipes@.take(0) =~= Seq::<CraftingGridRecipe>::empty());
                assert(acts@ =~= Seq::<Action>::empty());
            }
            while i < recipes.len()
                invariant
                    buffer_wf(buffer@),
                    all_wf(storages@),
                    all_wf(backups@),
                    storages@.len() == orig_s.len(),
                    backups@.len() == orig_b.len(),
                    i <= recipes@.len(),
                    stuck ==> same_contents(orig_s, storages@) && same_contents(orig_b, backups@),
                    run_recipes_rel(sflush, bflush, recipes@.take(i as int), bufflush, *name, storages@, backups@, buffer@, acts@),
                decreases recipes@.len() - i,
            {
                let ghost prev_s = storages@;
                let ghost prev_b = backups@;
                let ghost prev_buf = buffer@;
                let ghost prev_acts = acts@;
                proof {
                    assert(recipes@[i as int].wf());
                    assert(recipes@.take(i + 1).drop_last() =~= recipes@.take(i as int));
                    assert(recipes@.take(i + 1).last() == recipes@[i as int]);
                    if stuck {
                        lemma_recipe_sets_congruence(
                            orig_s,
                            orig_b,
                            storages@,
                            backups@,
                            recipes@[i as int],
                        );
                    }
                }
                let sets = fire_recipe(storages, backups, &recipes[i], buffer);
                if sets > 0 {
                    let placements = crate::recipe::placements_of(&recipes[i].inputs, sets);
                    let act = Action::RecipeFired { process: name.clone(), sets, placements };
                    let ghost ga = act;
                    acts.push(act);
                    proof {
                        assert(acts@ == prev_acts.push(ga));
                        assert(fired_action_matches(ga, *name, sets as int, recipes@[i as int].inputs@));
                        assert(wit1(ga));
                    }
                }
                proof {
                    assert(wit3(prev_s, prev_b, prev_buf));
                    assert(wit2(prev_acts, sets as int));
                    assert(run_recipes_rel(sflush, bflush, recipes@.take(i + 1), bufflush, *name, storages@, backups@, buffer@, acts@));
                }
                i += 1;
            }
            proof {
                assert(recipes@.take(recipes@.len() as int) =~= recipes@);
                assert(wit2(sflush, bufflush));
            }
            acts
        },
        Process::Slotted {
            name,
            accesses: _,
            input_slots: _,
            extract_filter,
            recipes,
            strict_priority,
            buffer,
        } => {
            let ghost stuck: bool = process_stuck(p0, orig_s, orig_b);
            proof {
                lemma_same_contents_refl(orig_b);
            }
            flush_buffer(storages, buffer, extract_filter);
            let ghost sflush = storages@;
            let ghost bflush = backups@;
            let ghost bufflush = buffer@;
            let mut acts: Vec<Action> = Vec::new();
            if *strict_priority {
                let mut i: usize = 0;
                let mut fired: bool = false;
                while i < recipes.len() && !fired
                    invariant
                        buffer_wf(buffer@),
                        all_wf(storages@),
                        all_wf(backups@),
                        storages@.len() == orig_s.len(),
                        backups@.len() == orig_b.len(),
                        i <= recipes@.len(),
                        stuck ==> same_contents(orig_s, storages@) && same_contents(
                            orig_b,
                            backups@,
                        ),
                        !fired ==> storages@ == sflush && backups@ == bflush && buffer@ == bufflush
                            && acts@ == Seq::<Action>::empty() && (forall|j: int|
                            0 <= j < i ==> recipe_sets(sflush, bflush, #[trigger] recipes@[j])
                                == 0),
                        fired ==> strict_run_rel(sflush, bflush, recipes@, bufflush, *name, storages@, backups@, buffer@, acts@),
                    decreases recipes@.len() - i,
                {
                    proof {
                        assert(recipes@[i as int].wf());
                        if stuck {
                            lemma_recipe_sets_congruence(
                                orig_s,
                                orig_b,
                                storages@,
                                backups@,
                                recipes@[i as int],
                            );
                        }
                    }
                    let sets = fire_recipe(storages, backups, &recipes[i], buffer);
                    if sets > 0 {
                        fired = true;
                        let placements = crate::recipe::placements_of(&recipes[i].inputs, sets);
                        let act = Action::RecipeFired { process: name.clone(), sets, placements };
                        let ghost ga = act;
                        acts.push(act);
                        proof {
                            assert(acts@ =~= seq![ga]);
                            assert(fired_action_matches(ga, *name, sets as int, recipes@[i as int].inputs@));
                            assert(wit2(sets as int, ga));
                            assert(wit1(i as int));
                            assert(strict_run_rel(sflush, bflush, recipes@, bufflush, *name, storages@, backups@, buffer@, acts@));
                        }
                    }
                    i += 1;
                }
                proof {
                    if !fired {
                        assert(wit1(recipes@.len() as int));
                        assert(strict_run_rel(sflush, bflush, recipes@, bufflush, *name, storages@, backups@, buffer@, acts@));
                    }
                }
            } else {
                let mut i: usize = 0;
                proof {
                    assert(recipes@.take(0) =~= Seq::<CraftingGridRecipe>::empty());
                    assert(acts@ =~= Seq::<Action>::empty());
                }
                while i < recipes.len()
                    invariant
                        buffer_wf(buffer@),
                        all_wf(storages@),
                        all_wf(backups@),
                        storages@.len() == orig_s.len(),
                        backups@.len() == orig_b.len(),
                        i <= recipes@.len(),
                        stuck ==> same_contents(orig_s, storages@) && same_contents(
                            orig_b,
                            backups@,
                        ),
                        run_recipes_rel(sflush, bflush, recipes@.take(i as int), bufflush, *name, storages@, backups@, buffer@, acts@),
                    decreases recipes@.len() - i,
                {
                    let ghost prev_s = storages@;
                    let ghost prev_b = backups@;
                    let ghost prev_buf = buffer@;
                    let ghost prev_acts = acts@;
                    proof {
                        assert(recipes@[i as int].wf());
                        assert(recipes@.take(i + 1).drop_last() =~= recipes@.take(i as int));
                        assert(recipes@.take(i + 1).last() == recipes@[i as int]);
                        if stuck {
                            lemma_recipe_sets_congruence(
                                orig_s,
                                orig_b,
                                storages@,
                                backups@,
                                recipes@[i as int],
                            );
                        }
                    }
                    let sets = fire_recipe(storages, backups, &recipes[i], buffer);
                    if sets > 0 {
                        let placements = crate::recipe::placements_of(&recipes[i].inputs, sets);
                        let act = Action::RecipeFired { process: name.clone(), sets, placements };
                        let ghost ga = act;
                        acts.push(act);
                        proof {
                            assert(acts@ == prev_acts.push(ga));
                            assert(fired_action_matches(ga, *name, sets as int, recipes@[i as int].inputs@));
                            assert(wit1(ga));
                        }
                    }
                    proof {
                        assert(wit3(prev_s, prev_b, prev_buf));
                        assert(wit2(prev_acts, sets as int));
                        assert(run_recipes_rel(sflush, bflush, recipes@.take(i + 1), bufflush, *name, storages@, backups@, buffer@, acts@));
                    }
                    i += 1;
                }
                proof {
                    assert(recipes@.take(recipes@.len() as int) =~= recipes@);
                }
            }
            proof {
                assert(wit2(sflush, bufflush));
            }
            acts
        },
        Process::Turtle { name, file_name, client, started } => {
            proof {
                lemma_same_contents_refl(orig_s);
                lemma_same_contents_refl(orig_b);
            }
            if *started {
                Vec::new()
            } else {
                *started = true;
                let mut acts: Vec<Action> = Vec::new();
                acts.push(
                    Action::StartProgram {
                        name: name.clone(),
                        file_name: file_name.clone(),
                        client: client.clone(),
                    },
                );
                acts
            }
        },
        Process::RedstoneEmitter { accesses, rule, last_output } => {
            proof {
                lemma_same_contents_refl(orig_s);
                lemma_same_contents_refl(orig_b);
            }
            let lvl = if any_trigger(storages, &rule.trigger_items) {
                rule.on_signal
            } else {
                rule.off_signal
            };
            *last_output = Some(lvl);
            let mut acts: Vec<Action> = Vec::new();
            let mut k: usize = 0;
            while k < accesses.len()
                invariant
                    k <= accesses@.len(),
                    acts@.len() == k,
                    forall|j: int|
                        0 <= j < k ==> acts@[j] == (Action::SetRedstone {
                            client: accesses@[j].client,
                            addr: accesses@[j].addr,
                            level: lvl,
                        }),
                decreases accesses@.len() - k,
            {
                acts.push(
                    Action::SetRedstone {
                        client: accesses[k].client.clone(),
                        addr: accesses[k].addr.clone(),
                        level: lvl,
                    },
                );
                k += 1;
            }
            acts
        },
    }
}

/// Being stuck depends only on the contents of the pools.
pub proof fn lemma_process_stuck_congruence(
    p: Process,
    s1: Seq<Storage>,
    b1: Seq<Storage>,
    s2: Seq<Storage>,
    b2: Seq<Storage>,
)
    requires
        same_contents(s1, s2),
        same_contents(b1, b2),
    ensures
        process_stuck(p, s1, b1) == process_stuck(p, s2, b2),
{
    match p {
        Process::Workbench { recipes, buffer, .. } => {
            assert forall|i: int| 0 <= i < recipes@.len() implies recipe_sets(
                s1,
                b1,
                #[trigger] recipes@[i],
            ) == recipe_sets(s2, b2, recipes@[i]) by {
                lemma_recipe_sets_congruence(s1, b1, s2, b2, recipes@[i]);
            }
            assert forall|i: int| 0 <= i < buffer@.len() implies stack_routable(
                s1,
                (#[trigger] buffer@[i]).detail,
            ) == stack_routable(s2, buffer@[i].detail) by {
                lemma_routable_congruence(s1, s2, buffer@[i].detail);
            }
        },
        Process::Slotted { recipes, buffer, .. } => {
            assert forall|i: int| 0 <= i < recipes@.len() implies recipe_sets(
                s1,
                b1,
                #[trigger] recipes@[i],
            ) == recipe_sets(s2, b2, recipes@[i]) by {
                lemma_recipe_sets_congruence(s1, b1, s2, b2, recipes@[i]);
            }
            assert forall|i: int| 0 <= i < buffer@.len() implies stack_routable(
                s1,
                (#[trigger] buffer@[i]).detail,
            ) == stack_routable(s2, buffer@[i].detail) by {
                lemma_routable_congruence(s1, s2, buffer@[i].detail);
            }
        },
        _ => {},
    }
}


proof fn lemma_extract_inputs_keeps_slot(
    s0: Seq<Storage>,
    b0: Seq<Storage>,
    inputs: Seq<CraftingGridInput>,
    sets: int,
    s1: Seq<Storage>,
    b1: Seq<Storage>,
    i: int,
    j: int,
)
    requires
        extract_inputs_rel(s0, b0, inputs, sets, s1, b1),
        0 <= i < s0.len(),
        0 <= j < s0[i].slots@.len(),
        forall|k: int|
            0 <= k < inputs.len() ==> slot_count(s0[i].slots@[j], (#[trigger] inputs[k]).item)
                == 0,
    ensures
        s1.len() == s0.len(),
        s1[i].slots@.len() == s0[i].slots@.len(),
        s1[i].slots@[j] == s0[i].slots@[j],
    decreases inputs.len(),
{
    if inputs.len() == 0 {
    } else {
        let (smid, bmid, got): (Seq<Storage>, Seq<Storage>, int) = choose|
            smid: Seq<Storage>,
            bmid: Seq<Storage>,
            got: int,
        |
            #![trigger wit3(smid, bmid, got)]
            {
                &&& wit3(smid, bmid, got)
                &&& extract_inputs_rel(s0, b0, inputs.drop_last(), sets, smid, bmid)
                &&& extract_input_post(smid, bmid, s1, b1, inputs.last(), sets, got)
            };
        lemma_extract_inputs_keeps_slot(s0, b0, inputs.drop_last(), sets, smid, bmid, i, j);
        assert(slot_count(smid[i].slots@[j], inputs.last().item) == 0);
        assert(crate::recipe::only_removed_storage(smid[i], s1[i], inputs.last().item));
    }
}

proof fn lemma_route_outputs_grows_slot(
    s0: Seq<Storage>,
    outputs: Seq<Output>,
    sets: int,
    buf0: Seq<DetailStack>,
    s1: Seq<Storage>,
    buf1: Seq<DetailStack>,
    i: int,
    j: int,
    st: DetailStack,
) -> (st1: DetailStack)
    requires
        route_outputs_rel(s0, outputs, sets, buf0, s1, buf1),
        0 <= i < s0.len(),
        0 <= j < s0[i].slots@.len(),
        s0[i].slots@[j] == Some(st),
    ensures
        s1.len() == s0.len(),
        s1[i].slots@.len() == s0[i].slots@.len(),
        s1[i].slots@[j] == Some(st1),
        st1.detail == st.detail,
        st1.size >= st.size,
    decreases outputs.len(),
{
    if outputs.len() == 0 {
        st
    } else {
        let (smid, bmid, leftover): (Seq<Storage>, Seq<DetailStack>, Option<DetailStack>) =
            choose|smid: Seq<Storage>, bmid: Seq<DetailStack>, leftover: Option<DetailStack>|
            #![trigger wit3(smid, bmid, leftover)]
            {
                &&& wit3(smid, bmid, leftover)
                &&& route_outputs_rel(s0, outputs.drop_last(), sets, buf0, smid, bmid)
                &&& route_post(smid, s1, produced_stack(outputs.last(), sets), leftover)
                &&& buf1 == bmid + (match leftover {
                    Some(l) => seq![l],
                    None => Seq::<DetailStack>::empty(),
                })
            };
        let stm = lemma_route_outputs_grows_slot(
            s0,
            outputs.drop_last(),
            sets,
            buf0,
            smid,
            bmid,
            i,
            j,
            st,
        );
        let d = produced_stack(outputs.last(), sets).detail;
        match best_dest(smid, d) {
            Some(bi) => {
                if bi == i {
                    assert(crate::storage::filled_slot(smid[i].slots@[j], s1[i].slots@[j], d));
                    if s1[i].slots@[j] == smid[i].slots@[j] {
                        stm
                    } else {
                        let (os, sz): (DetailStack, u32) = choose|os: DetailStack, sz: u32|
                            #![trigger wit2(os, sz)]
                            (wit2(os, sz) && smid[i].slots@[j] == Some(os)
                                && crate::storage::same_item(os.detail, d) && os.size < sz
                                && s1[i].slots@[j] == Some(
                                DetailStack { detail: os.detail, size: sz },
                            ));
                        assert(os == stm);
                        DetailStack { detail: os.detail, size: sz }
                    }
                } else {
                    assert(s1[i] == smid[i]);
                    stm
                }
            },
            None => {
                assert(s1 == smid);
                stm
            },
        }
    }
}

/// One firing never decrements a slot whose item matches no input filter
/// of the recipe: the slot keeps its item and its quantity can only stay
/// or grow (a routed output may top it up). In particular a non-consumable
/// is required to be present but is never decremented, wherever its filter
/// is disjoint from every input filter.
pub proof fn lemma_fire_keeps_unconsumed_slots(
    s0: Seq<Storage>,
    b0: Seq<Storage>,
    r: CraftingGridRecipe,
    buf0: Seq<DetailStack>,
    s1: Seq<Storage>,
    b1: Seq<Storage>,
    buf1: Seq<DetailStack>,
    sets: int,
    i: int,
    j: int,
    st: DetailStack,
)
    requires
        fire_rel(s0, b0, r, buf0, s1, b1, buf1, sets),
        0 <= i < s0.len(),
        0 <= j < s0[i].slots@.len(),
        s0[i].slots@[j] == Some(st),
        forall|k: int|
            0 <= k < r.inputs@.len() ==> !(#[trigger] r.inputs@[k]).item.spec_matches(
                st.detail.label@,
                st.detail.name@,
            ),
    ensures
        s1.len() == s0.len(),
        s1[i].slots@.len() == s0[i].slots@.len(),
        exists|st1: DetailStack|
            #![trigger wit1(st1)]
            (s1[i].slots@[j] == Some(st1) && st1.detail == st.detail && st1.size >= st.size),
{
    if sets == 0 {
        assert(wit1(st));
    } else {
        let smid: Seq<Storage> = choose|smid: Seq<Storage>|
            #![trigger wit1(smid)]
            {
                &&& wit1(smid)
                &&& extract_inputs_rel(s0, b0, r.inputs@, sets, smid, b1)
                &&& route_outputs_rel(smid, r.outputs@, sets, buf0, s1, buf1)
            };
        assert forall|k: int| 0 <= k < r.inputs@.len() implies slot_count(
            s0[i].slots@[j],
            (#[trigger] r.inputs@[k]).item,
        ) == 0 by {}
        lemma_extract_inputs_keeps_slot(s0, b0, r.inputs@, sets, smid, b1, i, j);
        let st1 = lemma_route_outputs_grows_slot(smid, r.outputs@, sets, buf0, s1, buf1, i, j, st);
        assert(wit1(st1));
    }
}

} // verus!

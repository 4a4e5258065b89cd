//! The declarative configuration document and its translation into a
//! factory: validation of the invariants that are fatal at bootstrap
//! (duplicate addresses, non-positive set caps or slot sizes), conversion
//! of each configured storage and process, and the hot-reload decision.

use vstd::prelude::*;

use crate::access::{BusAccess, FluidAccess, RedstoneAccess};
use crate::factory::Factory;
use crate::item::Filter;
use crate::process::{EmitterRule, Process};
use crate::recipe::{CraftingGridInput, CraftingGridRecipe, Output, SlotPlacement};
use crate::storage::{Storage, StorageKind};

verus! {

/// The whole configuration document, as deserialized by the host layer.
pub struct DynamicFactoryConfig {
    pub server_port: u16,
    pub min_cycle_time_secs: u64,
    pub log_clients: Vec<String>,
    pub bus_accesses: Vec<BusAccessConfig>,
    pub fluid_bus_accesses: Vec<FluidBusConfig>,
    pub fluid_bus_capacity: i32,
    pub storages: Vec<StorageConfig>,
    pub processes: Vec<ProcessConfig>,
    pub backups: Vec<BusAccessConfig>,
    pub fluid_backups: Vec<FluidBusConfig>,
}

pub struct BusAccessConfig {
    pub client: String,
    pub addr: String,
}

pub struct FluidBusConfig {
    pub client: String,
    pub fluid_bus_addrs: Vec<String>,
    pub tank_addr: String,
}

pub enum StorageConfig {
    Chest { accesses: Vec<BusAccessConfig>, override_max_stack_size: Option<i32> },
    Drawer { accesses: Vec<BusAccessConfig>, filters: Vec<ItemFilter> },
}

pub enum ItemFilter {
    Label { value: String },
    Name { value: String },
    Both { label: String, name: String },
    Custom { desc: String },
}

pub struct SlottedInput {
    pub item: ItemFilter,
    pub slots: Vec<SlotConfig>,
    pub allow_backup: bool,
    pub extra_backup: i32,
}

pub struct SlotConfig {
    pub slot: usize,
    pub size: i32,
}

pub struct CraftingRecipe {
    pub outputs: Vec<ItemFilter>,
    pub inputs: Vec<SlottedInput>,
    pub max_sets: i32,
}

pub enum ProcessConfig {
    ManualUI { accesses: Vec<BusAccessConfig> },
    Workbench { name: String, accesses: Vec<BusAccessConfig>, recipes: Vec<CraftingRecipe> },
    Slotted {
        name: String,
        accesses: Vec<BusAccessConfig>,
        input_slots: Vec<usize>,
        extract_filter: Option<String>,
        recipes: Vec<CraftingRecipe>,
        strict_priority: bool,
    },
    Turtle { name: String, file_name: String, client: String },
    RedstoneEmitter { accesses: Vec<BusAccessConfig>, output_rules: Vec<RedstoneRule> },
}

pub struct RedstoneRule {
    pub name: String,
    pub off_signal: u8,
    pub on_signal: u8,
    pub trigger_items: Vec<ItemFilter>,
}

/// Why a configuration is rejected at bootstrap. A rejection is fatal only
/// to the bootstrap attempt: at initial start the host gives up, on reload
/// the previously active factory keeps running.
#[derive(Debug)]
pub enum ConfigError {
    DuplicateAddress { addr: String },
    TooManyStorages,
    NegativeOverride,
    NegativeFluidCapacity,
    BadRecipe { process: String },
}

impl ItemFilter {
    pub open spec fn spec_to_filter(self) -> Filter {
        match self {
            ItemFilter::Label { value } => Filter::Label(value),
            ItemFilter::Name { value } => Filter::Name(value),
            ItemFilter::Both { label, name } => Filter::Both { label, name },
            ItemFilter::Custom { desc } => Filter::Custom { desc },
        }
    }

    /// The core filter this configured filter denotes.
    pub fn to_filter(&self) -> (f: Filter)
        ensures
            f == self.spec_to_filter(),
    {
        match self {
            ItemFilter::Label { value } => Filter::Label(value.clone()),
            ItemFilter::Name { value } => Filter::Name(value.clone()),
            ItemFilter::Both { label, name } => Filter::Both {
                label: label.clone(),
                name: name.clone(),
            },
            ItemFilter::Custom { desc } => Filter::Custom { desc: desc.clone() },
        }
    }

    /// The recipe output this configured filter denotes: one unit per set.
    pub fn to_outputs(&self) -> (o: Output)
        ensures
            o == (Output { item: self.spec_to_filter(), size: 1u32 }),
    {
        Output { item: self.to_filter(), size: 1 }
    }
}

pub open spec fn sum_slot_cfg(s: Seq<SlotConfig>) -> int
    decreases s.len(),
{
    if s.len() == 0 {
        0
    } else {
        sum_slot_cfg(s.drop_last()) + s.last().size
    }
}

proof fn lemma_sum_slot_cfg_take_le(s: Seq<SlotConfig>, j: int)
    requires
        0 <= j <= s.len(),
        forall|i: int| 0 <= i < s.len() ==> 1 <= (#[trigger] s[i]).size,
    ensures
        sum_slot_cfg(s.take(j)) <= sum_slot_cfg(s),
    decreases s.len(),
{
    if j < s.len() {
        assert(s.drop_last().take(j) =~= s.take(j));
        lemma_sum_slot_cfg_take_le(s.drop_last(), j);
        assert(s.drop_last() =~= s.take(s.len() - 1));
    } else {
        assert(s.take(j) =~= s);
    }
}

proof fn lemma_sum_slot_cfg_lower(s: Seq<SlotConfig>)
    requires
        forall|i: int| 0 <= i < s.len() ==> 1 <= (#[trigger] s[i]).size,
    ensures
        sum_slot_cfg(s) >= s.len(),
    decreases s.len(),
{
    if s.len() > 0 {
        lemma_sum_slot_cfg_lower(s.drop_last());
    }
}

/// A configured slotted input that the engine can use: at least one slot,
/// positive per-slot sizes whose sum fits a stack count, and a nonnegative
/// reserve floor.
pub open spec fn input_cfg_wf(inp: SlottedInput) -> bool {
    &&& 1 <= inp.slots@.len()
    &&& forall|i: int| 0 <= i < inp.slots@.len() ==> 1 <= (#[trigger] inp.slots@[i]).size
    &&& sum_slot_cfg(inp.slots@) <= u32::MAX as int
    &&& 0 <= inp.extra_backup
}

/// A configured recipe that the engine can use: a positive per-cycle set
/// cap and well-formed inputs.
pub open spec fn recipe_cfg_wf(r: CraftingRecipe) -> bool {
    &&& 1 <= r.max_sets
    &&& forall|i: int| 0 <= i < r.inputs@.len() ==> input_cfg_wf(#[trigger] r.inputs@[i])
}

/// Pointwise relation between a configured input and its core form.
pub open spec fn input_corresponds(cfg: SlottedInput, inp: CraftingGridInput) -> bool {
    &&& inp.item == cfg.item.spec_to_filter()
    &&& inp.slots@.len() == cfg.slots@.len()
    &&& forall|i: int|
        0 <= i < cfg.slots@.len() ==> (#[trigger] inp.slots@[i]).slot == cfg.slots@[i].slot
            && inp.slots@[i].size as int == cfg.slots@[i].size as int
    &&& inp.allow_backup == cfg.allow_backup
    &&& inp.extra_backup as int == cfg.extra_backup as int
}

/// Pointwise relation between a configured recipe and its core form: each
/// output filter yields one unit per set, inputs map position by position,
/// and the configuration layer never declares non-consumables.
pub open spec fn recipe_corresponds(cfg: CraftingRecipe, r: CraftingGridRecipe) -> bool {
    &&& r.outputs@.len() == cfg.outputs@.len()
    &&& forall|k: int|
        0 <= k < cfg.outputs@.len() ==> (#[trigger] r.outputs@[k]) == (Output {
            item: cfg.outputs@[k].spec_to_filter(),
            size: 1u32,
        })
    &&& r.inputs@.len() == cfg.inputs@.len()
    &&& forall|i: int|
        0 <= i < cfg.inputs@.len() ==> input_corresponds(cfg.inputs@[i], #[trigger] r.inputs@[i])
    &&& r.max_sets as int == cfg.max_sets as int
    &&& r.non_consumables@.len() == 0
}

fn convert_input(inp: &SlottedInput) -> (r: CraftingGridInput)
    requires
        input_cfg_wf(*inp),
    ensures
        input_corresponds(*inp, r),
        r.wf(),
{
    let mut placements: Vec<SlotPlacement> = Vec::new();
    let mut total: u64 = 0;
    let mut j: usize = 0;
    while j < inp.slots.len()
        invariant
            input_cfg_wf(*inp),
            j <= inp.slots@.len(),
            placements@.len() == j,
            forall|i: int|
                0 <= i < j ==> (#[trigger] placements@[i]).slot == inp.slots@[i].slot
                    && placements@[i].size as int == inp.slots@[i].size as int,
            total as int == sum_slot_cfg(inp.slots@.take(j as int)),
            total as int == crate::recipe::sum_placements(placements@),
            total <= u32::MAX as u64,
        decreases inp.slots@.len() - j,
    {
        proof {
            assert(inp.slots@.take(j + 1).drop_last() =~= inp.slots@.take(j as int));
            assert(placements@.push(
                SlotPlacement { slot: inp.slots@[j as int].slot, size: inp.slots@[j as int].size as u32 },
            ).drop_last() =~= placements@);
            lemma_sum_slot_cfg_take_le(inp.slots@, j + 1);
        }
        let sc = &inp.slots[j];
        placements.push(SlotPlacement { slot: sc.slot, size: sc.size as u32 });
        total = total + (sc.size as u64);
        j += 1;
    }
    proof {
        assert(inp.slots@.take(inp.slots@.len() as int) =~= inp.slots@);
        lemma_sum_slot_cfg_lower(inp.slots@);
    }
    CraftingGridInput {
        item: inp.item.to_filter(),
        size: total as u32,
        slots: placements,
        allow_backup: inp.allow_backup,
        extra_backup: inp.extra_backup as u32,
    }
}

/// Translate a configured recipe into its core form.
pub fn convert_recipe(recipe: &CraftingRecipe) -> (r: CraftingGridRecipe)
    requires
        recipe_cfg_wf(*recipe),
    ensures
        recipe_corresponds(*recipe, r),
        r.wf(),
{
    let mut outputs: Vec<Output> = Vec::new();
    let mut k: usize = 0;
    while k < recipe.outputs.len()
        invariant
            k <= recipe.outputs@.len(),
            outputs@.len() == k,
            forall|i: int|
                0 <= i < k ==> (#[trigger] outputs@[i]) == (Output {
                    item: recipe.outputs@[i].spec_to_filter(),
                    size: 1u32,
                }),
        decreases recipe.outputs@.len() - k,
    {
        outputs.push(recipe.outputs[k].to_outputs());
        k += 1;
    }
    let mut inputs: Vec<CraftingGridInput> = Vec::new();
    let mut i: usize = 0;
    while i < recipe.inputs.len()
        invariant
            recipe_cfg_wf(*recipe),
            i <= recipe.inputs@.len(),
            inputs@.len() == i,
            forall|j: int|
                0 <= j < i ==> input_corresponds(recipe.inputs@[j], #[trigger] inputs@[j])
                    && inputs@[j].wf(),
        decreases recipe.inputs@.len() - i,
    {
        proof {
            assert(input_cfg_wf(recipe.inputs@[i as int]));
        }
        inputs.push(convert_input(&recipe.inputs[i]));
        i += 1;
    }
    let r = CraftingGridRecipe {
        outputs,
        inputs,
        max_sets: recipe.max_sets as u32,
        non_consumables: Vec::new(),
    };
    proof {
        assert forall|k2: int| 0 <= k2 < r.outputs@.len() implies 1 <= (#[trigger] r.outputs@[
            k2
        ]).size && r.max_sets as int * r.outputs@[k2].size as int <= u32::MAX as int by {
            assert(r.outputs@[k2].size == 1);
            assert(r.max_sets as int * 1 == r.max_sets as int) by (nonlinear_arith);
        }
    }
    r
}


/// Whether the offered configured input can drive the engine, deciding
/// exactly `input_cfg_wf`.
fn validate_input(inp: &SlottedInput) -> (r: bool)
    ensures
        r == input_cfg_wf(*inp),
{
    if inp.extra_backup < 0 {
        return false;
    }
    if inp.slots.len() == 0 {
        return false;
    }
    let mut acc: u64 = 0;
    let mut j: usize = 0;
    while j < inp.slots.len()
        invariant
            j <= inp.slots@.len(),
            forall|i: int| 0 <= i < j ==> 1 <= (#[trigger] inp.slots@[i]).size,
            acc as int == sum_slot_cfg(inp.slots@.take(j as int)),
            acc <= u32::MAX as u64,
        decreases inp.slots@.len() - j,
    {
        proof {
            assert(inp.slots@.take(j + 1).drop_last() =~= inp.slots@.take(j as int));
        }
        let sz = inp.slots[j].size;
        if sz < 1 {
            return false;
        }
        acc = acc + (sz as u64);
        if acc > (u32::MAX as u64) {
            proof {
                if input_cfg_wf(*inp) {
                    lemma_sum_slot_cfg_take_le(inp.slots@, j + 1);
                }
            }
            return false;
        }
        j += 1;
    }
    proof {
        assert(inp.slots@.take(inp.slots@.len() as int) =~= inp.slots@);
    }
    true
}

/// Whether the configured recipe can drive the engine, deciding exactly
/// `recipe_cfg_wf`.
fn validate_recipe(r: &CraftingRecipe) -> (b: bool)
    ensures
        b == recipe_cfg_wf(*r),
{
    if r.max_sets < 1 {
        return false;
    }
    let mut i: usize = 0;
    while i < r.inputs.len()
        invariant
            i <= r.inputs@.len(),
            forall|j: int| 0 <= j < i ==> input_cfg_wf(#[trigger] r.inputs@[j]),
        decreases r.inputs@.len() - i,
    {
        if !validate_input(&r.inputs[i]) {
            return false;
        }
        i += 1;
    }
    true
}

/// What a configured storage must satisfy at bootstrap: a chest's stack
/// size override may not be negative.
pub open spec fn storage_cfg_wf(s: StorageConfig) -> bool {
    match s {
        StorageConfig::Chest { accesses: _, override_max_stack_size } => match override_max_stack_size {
            Some(m) => 0 <= m,
            None => true,
        },
        StorageConfig::Drawer { .. } => true,
    }
}

/// The slot is one of the machine's declared input slots.
pub open spec fn slot_allowed(input_slots: Seq<usize>, slot: usize) -> bool {
    exists|m: int| 0 <= m < input_slots.len() && input_slots[m] == slot
}

/// Every placement of the input names a declared machine input slot.
pub open spec fn input_slots_ok(input_slots: Seq<usize>, inp: SlottedInput) -> bool {
    forall|k: int|
        0 <= k < inp.slots@.len() ==> slot_allowed(input_slots, (#[trigger] inp.slots@[k]).slot)
}

/// Every placement of every input of the recipe names a declared machine
/// input slot.
pub open spec fn recipe_slots_allowed(input_slots: Seq<usize>, r: CraftingRecipe) -> bool {
    forall|j: int| 0 <= j < r.inputs@.len() ==> input_slots_ok(input_slots, #[trigger] r.inputs@[j])
}

/// What a configured process must satisfy at bootstrap: every recipe is
/// well formed, and a slotted machine's recipes place only into its
/// declared input slots.
pub open spec fn process_cfg_wf(p: ProcessConfig) -> bool {
    match p {
        ProcessConfig::Workbench { recipes, .. } => forall|i: int|
            0 <= i < recipes@.len() ==> recipe_cfg_wf(#[trigger] recipes@[i]),
        ProcessConfig::Slotted { input_slots, recipes, .. } => (forall|i: int|
            0 <= i < recipes@.len() ==> recipe_cfg_wf(#[trigger] recipes@[i])) && (forall|i: int|
            0 <= i < recipes@.len() ==> recipe_slots_allowed(
                input_slots@,
                #[trigger] recipes@[i],
            )),
        _ => true,
    }
}

fn contains_slot(input_slots: &Vec<usize>, slot: usize) -> (r: bool)
    ensures
        r == slot_allowed(input_slots@, slot),
{
    let mut m: usize = 0;
    while m < input_slots.len()
        invariant
            m <= input_slots@.len(),
            forall|j: int| 0 <= j < m ==> input_slots@[j] != slot,
        decreases input_slots@.len() - m,
    {
        if input_slots[m] == slot {
            return true;
        }
        m += 1;
    }
    false
}

fn validate_input_slots(input_slots: &Vec<usize>, inp: &SlottedInput) -> (b: bool)
    ensures
        b == input_slots_ok(input_slots@, *inp),
{
    let mut k: usize = 0;
    while k < inp.slots.len()
        invariant
            k <= inp.slots@.len(),
            forall|j: int|
                0 <= j < k ==> slot_allowed(input_slots@, (#[trigger] inp.slots@[j]).slot),
        decreases inp.slots@.len() - k,
    {
        if !contains_slot(input_slots, inp.slots[k].slot) {
            return false;
        }
        k += 1;
    }
    true
}

fn validate_recipe_slots(input_slots: &Vec<usize>, r: &CraftingRecipe) -> (b: bool)
    ensures
        b == recipe_slots_allowed(input_slots@, *r),
{
    let mut j: usize = 0;
    while j < r.inputs.len()
        invariant
            j <= r.inputs@.len(),
            forall|i: int| 0 <= i < j ==> input_slots_ok(input_slots@, #[trigger] r.inputs@[i]),
        decreases r.inputs@.len() - j,
    {
        if !validate_input_slots(input_slots, &r.inputs[j]) {
            return false;
        }
        j += 1;
    }
    true
}

fn validate_slotted_slots(input_slots: &Vec<usize>, recipes: &Vec<CraftingRecipe>) -> (b: bool)
    ensures
        b == (forall|i: int|
            0 <= i < recipes@.len() ==> recipe_slots_allowed(
                input_slots@,
                #[trigger] recipes@[i],
            )),
{
    let mut i: usize = 0;
    while i < recipes.len()
        invariant
            i <= recipes@.len(),
            forall|j: int|
                0 <= j < i ==> recipe_slots_allowed(input_slots@, #[trigger] recipes@[j]),
        decreases recipes@.len() - i,
    {
        if !validate_recipe_slots(input_slots, &recipes[i]) {
            return false;
        }
        i += 1;
    }
    true
}

fn validate_recipes(recipes: &Vec<CraftingRecipe>) -> (b: bool)
    ensures
        b == (forall|i: int| 0 <= i < recipes@.len() ==> recipe_cfg_wf(#[trigger] recipes@[i])),
{
    let mut i: usize = 0;
    while i < recipes.len()
        invariant
            i <= recipes@.len(),
            forall|j: int| 0 <= j < i ==> recipe_cfg_wf(#[trigger] recipes@[j]),
        decreases recipes@.len() - i,
    {
        if !validate_recipe(&recipes[i]) {
            return false;
        }
        i += 1;
    }
    true
}

fn validate_process(p: &ProcessConfig) -> (b: bool)
    ensures
        b == process_cfg_wf(*p),
{
    match p {
        ProcessConfig::Workbench { name: _, accesses: _, recipes } => validate_recipes(recipes),
        ProcessConfig::Slotted {
            name: _,
            accesses: _,
            input_slots,
            extract_filter: _,
            recipes,
            strict_priority: _,
        } => validate_recipes(recipes) && validate_slotted_slots(input_slots, recipes),
        _ => true,
    }
}

/// The addresses a list of bus accesses claims.
pub open spec fn access_addrs(accs: Seq<BusAccessConfig>) -> Seq<Seq<char>> {
    accs.map_values(|a: BusAccessConfig| a.addr@)
}

pub open spec fn storage_claimed(s: StorageConfig) -> Seq<Seq<char>> {
    match s {
        StorageConfig::Chest { accesses, .. } => access_addrs(accesses@),
        StorageConfig::Drawer { accesses, .. } => access_addrs(accesses@),
    }
}

pub open spec fn process_claimed(p: ProcessConfig) -> Seq<Seq<char>> {
    match p {
        ProcessConfig::ManualUI { accesses } => access_addrs(accesses@),
        ProcessConfig::Workbench { accesses, .. } => access_addrs(accesses@),
        ProcessConfig::Slotted { accesses, .. } => access_addrs(accesses@),
        ProcessConfig::Turtle { .. } => Seq::empty(),
        ProcessConfig::RedstoneEmitter { accesses, .. } => access_addrs(accesses@),
    }
}

pub open spec fn storages_claimed(ss: Seq<StorageConfig>) -> Seq<Seq<char>>
    decreases ss.len(),
{
    if ss.len() == 0 {
        Seq::empty()
    } else {
        storages_claimed(ss.drop_last()) + storage_claimed(ss.last())
    }
}

pub open spec fn processes_claimed(ps: Seq<ProcessConfig>) -> Seq<Seq<char>>
    decreases ps.len(),
{
    if ps.len() == 0 {
        Seq::empty()
    } else {
        processes_claimed(ps.drop_last()) + process_claimed(ps.last())
    }
}

/// Every address a storage or process of the configuration claims, in
/// declaration order.
pub open spec fn claimed_addrs(c: DynamicFactoryConfig) -> Seq<Seq<char>> {
    storages_claimed(c.storages@) + processes_claimed(c.processes@)
}

/// No address is claimed twice.
pub open spec fn no_dups(s: Seq<Seq<char>>) -> bool {
    forall|i: int, j: int| 0 <= i < j < s.len() ==> s[i] != s[j]
}

fn push_access_addrs(v: &mut Vec<String>, accs: &Vec<BusAccessConfig>)
    ensures
        final(v)@.map_values(|s: String| s@) == old(v)@.map_values(|s: String| s@)
            + access_addrs(accs@),
{
    let mut j: usize = 0;
    while j < accs.len()
        invariant
            j <= accs@.len(),
            v@.map_values(|s: String| s@) =~= old(v)@.map_values(|s: String| s@) + access_addrs(
                accs@.take(j as int),
            ),
        decreases accs@.len() - j,
    {
        let ghost prev = v@;
        v.push(accs[j].addr.clone());
        proof {
            assert(v@ =~= prev.push(accs@[j as int].addr));
            assert(v@.map_values(|s: String| s@) =~= prev.map_values(|s: String| s@).push(
                accs@[j as int].addr@,
            ));
            assert(access_addrs(accs@.take(j + 1)) =~= access_addrs(accs@.take(j as int)).push(
                accs@[j as int].addr@,
            ));
        }
        j += 1;
    }
    proof {
        assert(accs@.take(accs@.len() as int) =~= accs@);
        assert(final(v)@.map_values(|s: String| s@) =~= old(v)@.map_values(|s: String| s@)
            + access_addrs(accs@));
    }
}

fn collect_claimed(c: &DynamicFactoryConfig) -> (v: Vec<String>)
    ensures
        v@.map_values(|s: String| s@) == claimed_addrs(*c),
{
    let mut v: Vec<String> = Vec::new();
    let mut i: usize = 0;
    proof {
        assert(v@.map_values(|s: String| s@) =~= storages_claimed(c.storages@.take(0)));
    }
    while i < c.storages.len()
        invariant
            i <= c.storages@.len(),
            v@.map_values(|s: String| s@) == storages_claimed(c.storages@.take(i as int)),
        decreases c.storages@.len() - i,
    {
        proof {
            assert(c.storages@.take(i + 1).drop_last() =~= c.storages@.take(i as int));
        }
        match &c.storages[i] {
            StorageConfig::Chest { accesses, override_max_stack_size: _ } => {
                push_access_addrs(&mut v, accesses);
            },
            StorageConfig::Drawer { accesses, filters: _ } => {
                push_access_addrs(&mut v, accesses);
            },
        }
        i += 1;
    }
    proof {
        assert(c.storages@.take(c.storages@.len() as int) =~= c.storages@);
    }
    let mut k: usize = 0;
    while k < c.processes.len()
        invariant
            k <= c.processes@.len(),
            v@.map_values(|s: String| s@) == storages_claimed(c.storages@) + processes_claimed(
                c.processes@.take(k as int),
            ),
        decreases c.processes@.len() - k,
    {
        proof {
            assert(c.processes@.take(k + 1).drop_last() =~= c.processes@.take(k as int));
        }
        match &c.processes[k] {
            ProcessConfig::ManualUI { accesses } => {
                push_access_addrs(&mut v, accesses);
            },
            ProcessConfig::Workbench { name: _, accesses, recipes: _ } => {
                push_access_addrs(&mut v, accesses);
            },
            ProcessConfig::Slotted {
                name: _,
                accesses,
                input_slots: _,
                extract_filter: _,
                recipes: _,
                strict_priority: _,
            } => {
                push_access_addrs(&mut v, accesses);
            },
            ProcessConfig::Turtle { name: _, file_name: _, client: _ } => {},
            ProcessConfig::RedstoneEmitter { accesses, output_rules: _ } => {
                push_access_addrs(&mut v, accesses);
            },
        }
        proof {
            assert(v@.map_values(|s: String| s@) =~= storages_claimed(c.storages@)
                + processes_claimed(c.processes@.take(k + 1)));
        }
        k += 1;
    }
    proof {
        assert(c.processes@.take(c.processes@.len() as int) =~= c.processes@);
    }
    v
}

fn find_duplicate(v: &Vec<String>) -> (r: Option<String>)
    ensures
        r is None <==> no_dups(v@.map_values(|s: String| s@)),
{
    let mut i: usize = 0;
    while i < v.len()
        invariant
            i <= v@.len(),
            forall|a: int, b: int| 0 <= a < b < v@.len() && a < i ==> v@[a]@ != v@[b]@,
        decreases v@.len() - i,
    {
        let mut j: usize = i + 1;
        while j < v.len()
            invariant
                i < j,
                j <= v@.len(),
                i < v@.len(),
                forall|b: int| i < b < j ==> v@[i as int]@ != v@[b]@,
            decreases v@.len() - j,
        {
            if v[i] == v[j] {
                proof {
                    let m = v@.map_values(|s: String| s@);
                    assert(m[i as int] == v@[i as int]@);
                    assert(m[j as int] == v@[j as int]@);
                    assert(!no_dups(m));
                }
                return Some(v[i].clone());
            }
            j += 1;
        }
        i += 1;
    }
    None
}


/// Pointwise relation between a configured access and the bus access it
/// becomes: the configured address serves as both inventory and bus
/// address.
pub open spec fn access_corresponds(cfg: BusAccessConfig, a: BusAccess) -> bool {
    a.client == cfg.client && a.inv_addr@ == cfg.addr@ && a.bus_addr@ == cfg.addr@
}

pub open spec fn accesses_correspond(cfgs: Seq<BusAccessConfig>, accs: Seq<BusAccess>) -> bool {
    accs.len() == cfgs.len() && forall|i: int|
        0 <= i < cfgs.len() ==> access_corresponds(cfgs[i], #[trigger] accs[i])
}

fn convert_bus_accesses(cfgs: &Vec<BusAccessConfig>) -> (r: Vec<BusAccess>)
    ensures
        accesses_correspond(cfgs@, r@),
{
    let mut r: Vec<BusAccess> = Vec::new();
    let mut i: usize = 0;
    while i < cfgs.len()
        invariant
            i <= cfgs@.len(),
            r@.len() == i,
            forall|j: int| 0 <= j < i ==> access_corresponds(cfgs@[j], #[trigger] r@[j]),
        decreases cfgs@.len() - i,
    {
        r.push(
            BusAccess {
                client: cfgs[i].client.clone(),
                inv_addr: cfgs[i].addr.clone(),
                bus_addr: cfgs[i].addr.clone(),
            },
        );
        i += 1;
    }
    r
}

fn convert_filters(cfgs: &Vec<ItemFilter>) -> (r: Vec<Filter>)
    ensures
        r@.len() == cfgs@.len(),
        forall|i: int| 0 <= i < cfgs@.len() ==> (#[trigger] r@[i]) == cfgs@[i].spec_to_filter(),
{
    let mut r: Vec<Filter> = Vec::new();
    let mut i: usize = 0;
    while i < cfgs.len()
        invariant
            i <= cfgs@.len(),
            r@.len() == i,
            forall|j: int| 0 <= j < i ==> (#[trigger] r@[j]) == cfgs@[j].spec_to_filter(),
        decreases cfgs@.len() - i,
    {
        r.push(cfgs[i].to_filter());
        i += 1;
    }
    r
}

/// Relation between a configured storage and the storage it becomes. The
/// slot row starts empty: it is sized when the remote inventory is first
/// listed.
pub open spec fn storage_corresponds(cfg: StorageConfig, s: Storage) -> bool {
    &&& s.slots@.len() == 0
    &&& match cfg {
        StorageConfig::Chest { accesses, override_max_stack_size } => {
            &&& accesses_correspond(accesses@, s.accesses@)
            &&& match s.kind {
                StorageKind::Chest { override_max_stack_size: o } => match (
                    override_max_stack_size,
                    o,
                ) {
                    (Option::<i32>::None, Option::<u32>::None) => true,
                    (Some(a), Some(b)) => a as int == b as int,
                    _ => false,
                },
                _ => false,
            }
        },
        StorageConfig::Drawer { accesses, filters } => {
            &&& accesses_correspond(accesses@, s.accesses@)
            &&& match s.kind {
                StorageKind::Drawer { filters: fs } => fs@.len() == filters@.len()
                    && forall|i: int|
                        0 <= i < filters@.len() ==> (#[trigger] fs@[i])
                            == filters@[i].spec_to_filter(),
                _ => false,
            }
        },
    }
}

/// Translate one configured storage into an empty storage of the right
/// kind.
pub fn convert_storage(cfg: &StorageConfig) -> (s: Storage)
    requires
        storage_cfg_wf(*cfg),
    ensures
        storage_corresponds(*cfg, s),
        s.wf(),
{
    match cfg {
        StorageConfig::Chest { accesses, override_max_stack_size } => {
            let o: Option<u32> = match override_max_stack_size {
                Some(m) => Some(*m as u32),
                None => None,
            };
            Storage::new_chest(convert_bus_accesses(accesses), o, 0)
        },
        StorageConfig::Drawer { accesses, filters } => {
            Storage::new_drawer(convert_bus_accesses(accesses), convert_filters(filters), 0)
        },
    }
}

pub open spec fn emitter_rule_corresponds(cfg: RedstoneRule, r: EmitterRule) -> bool {
    &&& r.name == cfg.name
    &&& r.off_signal == cfg.off_signal
    &&& r.on_signal == cfg.on_signal
    &&& r.trigger_items@.len() == cfg.trigger_items@.len()
    &&& forall|i: int|
        0 <= i < cfg.trigger_items@.len() ==> (#[trigger] r.trigger_items@[i])
            == cfg.trigger_items@[i].spec_to_filter()
}

pub open spec fn redstone_accesses_correspond(
    cfgs: Seq<BusAccessConfig>,
    accs: Seq<RedstoneAccess>,
) -> bool {
    accs.len() == cfgs.len() && forall|i: int|
        0 <= i < cfgs.len() ==> (#[trigger] accs[i]).client == cfgs[i].client && accs[i].addr
            == cfgs[i].addr
}

fn convert_redstone_accesses(cfgs: &Vec<BusAccessConfig>) -> (r: Vec<RedstoneAccess>)
    ensures
        redstone_accesses_correspond(cfgs@, r@),
{
    let mut r: Vec<RedstoneAccess> = Vec::new();
    let mut i: usize = 0;
    while i < cfgs.len()
        invariant
            i <= cfgs@.len(),
            r@.len() == i,
            forall|j: int|
                0 <= j < i ==> (#[trigger] r@[j]).client == cfgs@[j].client && r@[j].addr
                    == cfgs@[j].addr,
        decreases cfgs@.len() - i,
    {
        r.push(RedstoneAccess { client: cfgs[i].client.clone(), addr: cfgs[i].addr.clone() });
        i += 1;
    }
    r
}

/// How many processes one configured process yields: one, except a
/// redstone emitter, which yields one process per configured rule.
pub open spec fn chunk_len(cfg: ProcessConfig) -> int {
    match cfg {
        ProcessConfig::RedstoneEmitter { output_rules, .. } => output_rules@.len() as int,
        _ => 1,
    }
}

/// Relation between one configured process and the processes it becomes.
pub open spec fn chunk_corresponds(cfg: ProcessConfig, chunk: Seq<Process>) -> bool {
    match cfg {
        ProcessConfig::ManualUI { accesses } => chunk.len() == 1 && match chunk[0] {
            Process::ManualUI { accesses: a } => accesses_correspond(accesses@, a@),
            _ => false,
        },
        ProcessConfig::Workbench { name, accesses, recipes } => chunk.len() == 1 && match chunk[0] {
            Process::Workbench { name: n, accesses: a, recipes: rs, buffer } => {
                &&& n == name
                &&& accesses_correspond(accesses@, a@)
                &&& rs@.len() == recipes@.len()
                &&& forall|i: int|
                    0 <= i < recipes@.len() ==> recipe_corresponds(
                        recipes@[i],
                        #[trigger] rs@[i],
                    )
                &&& buffer@.len() == 0
            },
            _ => false,
        },
        ProcessConfig::Slotted {
            name,
            accesses,
            input_slots,
            extract_filter,
            recipes,
            strict_priority,
        } => chunk.len() == 1 && match chunk[0] {
            Process::Slotted {
                name: n,
                accesses: a,
                input_slots: isl,
                extract_filter: ef,
                recipes: rs,
                strict_priority: sp,
                buffer,
            } => {
                &&& n == name
                &&& accesses_correspond(accesses@, a@)
                &&& isl@ == input_slots@
                &&& (match extract_filter {
                    Some(v) => ef == Some(Filter::Name(v)),
                    None => ef is None,
                })
                &&& rs@.len() == recipes@.len()
                &&& forall|i: int|
                    0 <= i < recipes@.len() ==> recipe_corresponds(
                        recipes@[i],
                        #[trigger] rs@[i],
                    )
                &&& sp == strict_priority
                &&& buffer@.len() == 0
            },
            _ => false,
        },
        ProcessConfig::Turtle { name, file_name, client } => chunk.len() == 1 && chunk[0]
            == (Process::Turtle { name, file_name, client, started: false }),
        ProcessConfig::RedstoneEmitter { accesses, output_rules } => {
            &&& chunk.len() == output_rules@.len()
            &&& forall|i: int|
                0 <= i < output_rules@.len() ==> match #[trigger] chunk[i] {
                    Process::RedstoneEmitter { accesses: a, rule, last_output } => {
                        &&& redstone_accesses_correspond(accesses@, a@)
                        &&& emitter_rule_corresponds(output_rules@[i], rule)
                        &&& last_output is None
                    },
                    _ => false,
                }
        },
    }
}

/// Relation between the configured process list and the flat process list
/// of the factory, chunk by chunk.
pub open spec fn processes_correspond(cfgs: Seq<ProcessConfig>, ps: Seq<Process>) -> bool
    decreases cfgs.len(),
{
    if cfgs.len() == 0 {
        ps.len() == 0
    } else {
        let n = chunk_len(cfgs.last());
        &&& ps.len() >= n
        &&& processes_correspond(cfgs.drop_last(), ps.take(ps.len() - n))
        &&& chunk_corresponds(cfgs.last(), ps.skip(ps.len() - n))
    }
}

fn convert_emitter_rule(cfg: &RedstoneRule) -> (r: EmitterRule)
    ensures
        emitter_rule_corresponds(*cfg, r),
{
    EmitterRule {
        name: cfg.name.clone(),
        off_signal: cfg.off_signal,
        on_signal: cfg.on_signal,
        trigger_items: convert_filters(&cfg.trigger_items),
    }
}

/// Translate one configured process, appending what it becomes: one
/// process, or one redstone emitter per configured rule.
pub fn convert_process(cfg: &ProcessConfig, out: &mut Vec<Process>)
    requires
        process_cfg_wf(*cfg),
    ensures
        final(out)@.len() == old(out)@.len() + chunk_len(*cfg),
        final(out)@.take(old(out)@.len() as int) == old(out)@,
        chunk_corresponds(*cfg, final(out)@.skip(old(out)@.len() as int)),
        forall|i: int|
            old(out)@.len() <= i < final(out)@.len() ==> (#[trigger] final(out)@[i]).wf(),
{
    match cfg {
        ProcessConfig::ManualUI { accesses } => {
            out.push(Process::ManualUI { accesses: convert_bus_accesses(accesses) });
            proof {
                assert(out@.take(old(out)@.len() as int) =~= old(out)@);
                assert(out@.skip(old(out)@.len() as int) =~= seq![out@.last()]);
                assert(out@.last().wf());
            }
        },
        ProcessConfig::Workbench { name, accesses, recipes } => {
            let mut rs: Vec<CraftingGridRecipe> = Vec::new();
            let mut i: usize = 0;
            while i < recipes.len()
                invariant
                    forall|j: int| 0 <= j < recipes@.len() ==> recipe_cfg_wf(#[trigger] recipes@[j]),
                    i <= recipes@.len(),
                    rs@.len() == i,
                    forall|j: int|
                        0 <= j < i ==> recipe_corresponds(recipes@[j], #[trigger] rs@[j])
                            && rs@[j].wf(),
                decreases recipes@.len() - i,
            {
                proof {
                    assert(recipe_cfg_wf(recipes@[i as int]));
                }
                rs.push(convert_recipe(&recipes[i]));
                i += 1;
            }
            out.push(
                Process::Workbench {
                    name: name.clone(),
                    accesses: convert_bus_accesses(accesses),
                    recipes: rs,
                    buffer: Vec::new(),
                },
            );
            proof {
                assert(out@.take(old(out)@.len() as int) =~= old(out)@);
                assert(out@.skip(old(out)@.len() as int) =~= seq![out@.last()]);
                assert(out@.last().wf());
            }
        },
        ProcessConfig::Slotted {
            name,
            accesses,
            input_slots,
            extract_filter,
            recipes,
            strict_priority,
        } => {
            let mut rs: Vec<CraftingGridRecipe> = Vec::new();
            let mut i: usize = 0;
            while i < recipes.len()
                invariant
                    forall|j: int| 0 <= j < recipes@.len() ==> recipe_cfg_wf(#[trigger] recipes@[j]),
                    i <= recipes@.len(),
                    rs@.len() == i,
                    forall|j: int|
                        0 <= j < i ==> recipe_corresponds(recipes@[j], #[trigger] rs@[j])
                            && rs@[j].wf(),
                decreases recipes@.len() - i,
            {
                rs.push(convert_recipe(&recipes[i]));
                i += 1;
            }
            let ef: Option<Filter> = match extract_filter {
                Some(v) => Some(Filter::Name(v.clone())),
                None => None,
            };
            let mut isl: Vec<usize> = Vec::new();
            let mut k: usize = 0;
            while k < input_slots.len()
                invariant
                    k <= input_slots@.len(),
                    isl@ =~= input_slots@.take(k as int),
                decreases input_slots@.len() - k,
            {
                proof {
                    assert(input_slots@.take(k + 1).drop_last() =~= input_slots@.take(k as int));
                }
                isl.push(input_slots[k]);
                k += 1;
            }
            proof {
                assert(input_slots@.take(input_slots@.len() as int) =~= input_slots@);
            }
            out.push(
                Process::Slotted {
                    name: name.clone(),
                    accesses: convert_bus_accesses(accesses),
                    input_slots: isl,
                    extract_filter: ef,
                    recipes: rs,
                    strict_priority: *strict_priority,
                    buffer: Vec::new(),
                },
            );
            proof {
                assert(out@.take(old(out)@.len() as int) =~= old(out)@);
                assert(out@.skip(old(out)@.len() as int) =~= seq![out@.last()]);
                assert(out@.last().wf());
            }
        },
        ProcessConfig::Turtle { name, file_name, client } => {
            out.push(
                Process::Turtle {
                    name: name.clone(),
                    file_name: file_name.clone(),
                    client: client.clone(),
                    started: false,
                },
            );
            proof {
                assert(out@.take(old(out)@.len() as int) =~= old(out)@);
                assert(out@.skip(old(out)@.len() as int) =~= seq![out@.last()]);
                assert(out@.last().wf());
            }
        },
        ProcessConfig::RedstoneEmitter { accesses, output_rules } => {
            let mut i: usize = 0;
            while i < output_rules.len()
                invariant
                    i <= output_rules@.len(),
                    out@.len() == old(out)@.len() + i,
                    out@.take(old(out)@.len() as int) == old(out)@,
                    forall|j: int|
                        0 <= j < i ==> match #[trigger] out@[old(out)@.len() + j] {
                            Process::RedstoneEmitter { accesses: a, rule, last_output } => {
                                &&& redstone_accesses_correspond(accesses@, a@)
                                &&& emitter_rule_corresponds(output_rules@[j], rule)
                                &&& last_output is None
                            },
                            _ => false,
                        },
                decreases output_rules@.len() - i,
    {
                let ghost prev = out@;
                out.push(
                    Process::RedstoneEmitter {
                        accesses: convert_redstone_accesses(accesses),
                        rule: convert_emitter_rule(&output_rules[i]),
                        last_output: None,
                    },
                );
                proof {
                    assert(out@.take(old(out)@.len() as int) =~= prev.take(
                        old(out)@.len() as int,
                    ));
                }
                i += 1;
            }
            proof {
                let oldn = old(out)@.len() as int;
                assert forall|j: int| 0 <= j < out@.len() - oldn implies #[trigger] out@.skip(
                    oldn,
                )[j] == out@[oldn + j] by {}
                assert(chunk_corresponds(*cfg, out@.skip(oldn)));
                assert forall|j: int| oldn <= j < out@.len() implies (#[trigger] out@[j]).wf()
                    by {
                    assert(out@[oldn + (j - oldn)] is RedstoneEmitter);
                }
            }
        },
    }
}


/// Relation between a configured fluid endpoint and its access form.
pub open spec fn fluid_corresponds(cfg: FluidBusConfig, a: FluidAccess) -> bool {
    &&& a.client == cfg.client
    &&& a.fluid_bus_addrs@ == cfg.fluid_bus_addrs@
    &&& a.tank_addr == cfg.tank_addr
}

fn convert_fluid_accesses(cfgs: &Vec<FluidBusConfig>) -> (r: Vec<FluidAccess>)
    ensures
        r@.len() == cfgs@.len(),
        forall|i: int| 0 <= i < cfgs@.len() ==> fluid_corresponds(cfgs@[i], #[trigger] r@[i]),
{
    let mut r: Vec<FluidAccess> = Vec::new();
    let mut i: usize = 0;
    while i < cfgs.len()
        invariant
            i <= cfgs@.len(),
            r@.len() == i,
            forall|j: int| 0 <= j < i ==> fluid_corresponds(cfgs@[j], #[trigger] r@[j]),
        decreases cfgs@.len() - i,
    {
        r.push(
            FluidAccess {
                client: cfgs[i].client.clone(),
                fluid_bus_addrs: crate::util::clone_string_vec(&cfgs[i].fluid_bus_addrs),
                tank_addr: cfgs[i].tank_addr.clone(),
            },
        );
        i += 1;
    }
    r
}

/// Relation between a configured backup access and the backup storage it
/// becomes: an empty, unfiltered pool behind that one access.
pub open spec fn backup_corresponds(cfg: BusAccessConfig, s: Storage) -> bool {
    &&& s.kind == (StorageKind::Chest { override_max_stack_size: None::<u32> })
    &&& s.accesses@.len() == 1
    &&& access_corresponds(cfg, s.accesses@[0])
    &&& s.slots@.len() == 0
}

/// What the whole configuration must satisfy at bootstrap. A violation is
/// an invariant violation: fatal to the bootstrap attempt.
pub open spec fn config_wf(c: DynamicFactoryConfig) -> bool {
    &&& c.storages@.len() <= crate::recipe::MAX_STORAGES
    &&& c.backups@.len() <= crate::recipe::MAX_STORAGES
    &&& 0 <= c.fluid_bus_capacity
    &&& forall|i: int| 0 <= i < c.storages@.len() ==> storage_cfg_wf(#[trigger] c.storages@[i])
    &&& forall|i: int| 0 <= i < c.processes@.len() ==> process_cfg_wf(#[trigger] c.processes@[i])
    &&& no_dups(claimed_addrs(c))
}

/// Relation between a configuration and the factory built from it.
pub open spec fn factory_matches_config(c: DynamicFactoryConfig, f: Factory) -> bool {
    &&& f.server_port == c.server_port
    &&& f.min_cycle_time_secs == c.min_cycle_time_secs
    &&& f.log_clients@ == c.log_clients@
    &&& f.fluid_bus_capacity as int == c.fluid_bus_capacity as int
    &&& f.storages@.len() == c.storages@.len()
    &&& forall|i: int|
        0 <= i < c.storages@.len() ==> storage_corresponds(c.storages@[i], #[trigger] f.storages@[i])
    &&& f.backup_storages@.len() == c.backups@.len()
    &&& forall|i: int|
        0 <= i < c.backups@.len() ==> backup_corresponds(
            c.backups@[i],
            #[trigger] f.backup_storages@[i],
        )
    &&& processes_correspond(c.processes@, f.processes@)
    &&& f.fluid_bus_accesses@.len() == c.fluid_bus_accesses@.len()
    &&& forall|i: int|
        0 <= i < c.fluid_bus_accesses@.len() ==> fluid_corresponds(
            c.fluid_bus_accesses@[i],
            #[trigger] f.fluid_bus_accesses@[i],
        )
    &&& f.fluid_backups@.len() == c.fluid_backups@.len()
    &&& forall|i: int|
        0 <= i < c.fluid_backups@.len() ==> fluid_corresponds(
            c.fluid_backups@[i],
            #[trigger] f.fluid_backups@[i],
        )
    &&& f.detail_cache.entries@.len() == 0
}

/// Build a factory from a fully resolved configuration in a single
/// bootstrap step. The build succeeds exactly when the configuration is
/// well formed; on success the factory matches the configuration piece by
/// piece, with one emitter process per configured redstone rule.
pub fn build_factory_from_json(config: &DynamicFactoryConfig) -> (r: Result<Factory, ConfigError>)
    ensures
        (r matches Ok(f) ==> f.wf() && config_wf(*config) && factory_matches_config(*config, f)),
        (r is Err ==> !config_wf(*config)),
        (r matches Err(ConfigError::TooManyStorages) ==> config.storages@.len()
            > crate::recipe::MAX_STORAGES || config.backups@.len() > crate::recipe::MAX_STORAGES),
        (r matches Err(ConfigError::NegativeFluidCapacity) ==> config.fluid_bus_capacity < 0),
        (r matches Err(ConfigError::NegativeOverride) ==> exists|i: int|
            0 <= i < config.storages@.len() && !storage_cfg_wf(#[trigger] config.storages@[i])),
        (r matches Err(ConfigError::BadRecipe { process: _ }) ==> exists|i: int|
            0 <= i < config.processes@.len() && !process_cfg_wf(#[trigger] config.processes@[i])),
        (r matches Err(ConfigError::DuplicateAddress { addr: _ }) ==> !no_dups(
            claimed_addrs(*config),
        )),
{
    if config.storages.len() > crate::recipe::MAX_STORAGES
        || config.backups.len() > crate::recipe::MAX_STORAGES {
        return Err(ConfigError::TooManyStorages);
    }
    if config.fluid_bus_capacity < 0 {
        return Err(ConfigError::NegativeFluidCapacity);
    }
    let mut i: usize = 0;
    while i < config.storages.len()
        invariant
            i <= config.storages@.len(),
            forall|j: int| 0 <= j < i ==> storage_cfg_wf(#[trigger] config.storages@[j]),
        decreases config.storages@.len() - i,
    {
        let ok = match &config.storages[i] {
            StorageConfig::Chest { accesses: _, override_max_stack_size } => {
                match override_max_stack_size {
                    Some(m) => *m >= 0,
                    None => true,
                }
            },
            StorageConfig::Drawer { .. } => true,
        };
        if !ok {
            proof {
                assert(!storage_cfg_wf(config.storages@[i as int]));
            }
            return Err(ConfigError::NegativeOverride);
        }
        i += 1;
    }
    let mut k: usize = 0;
    while k < config.processes.len()
        invariant
            k <= config.processes@.len(),
            forall|j: int| 0 <= j < k ==> process_cfg_wf(#[trigger] config.processes@[j]),
        decreases config.processes@.len() - k,
    {
        if !validate_process(&config.processes[k]) {
            proof {
                assert(!process_cfg_wf(config.processes@[k as int]));
            }
            let name = match &config.processes[k] {
                ProcessConfig::Workbench { name, .. } => name.clone(),
                ProcessConfig::Slotted { name, .. } => name.clone(),
                ProcessConfig::Turtle { name, .. } => name.clone(),
                _ => String::new(),
            };
            return Err(ConfigError::BadRecipe { process: name });
        }
        k += 1;
    }
    let claimed = collect_claimed(config);
    match find_duplicate(&claimed) {
        Some(addr) => {
            return Err(ConfigError::DuplicateAddress { addr });
        },
        None => {},
    }
    let mut storages: Vec<Storage> = Vec::new();
    let mut si: usize = 0;
    while si < config.storages.len()
        invariant
            si <= config.storages@.len(),
            storages@.len() == si,
            forall|j: int| 0 <= j < config.storages@.len() ==> storage_cfg_wf(#[trigger] config.storages@[j]),
            forall|j: int|
                0 <= j < si ==> storage_corresponds(config.storages@[j], #[trigger] storages@[j])
                    && storages@[j].wf(),
        decreases config.storages@.len() - si,
    {
        storages.push(convert_storage(&config.storages[si]));
        si += 1;
    }
    let mut backup_storages: Vec<Storage> = Vec::new();
    let mut bi: usize = 0;
    while bi < config.backups.len()
        invariant
            bi <= config.backups@.len(),
            backup_storages@.len() == bi,
            forall|j: int|
                0 <= j < bi ==> backup_corresponds(
                    config.backups@[j],
                    #[trigger] backup_storages@[j],
                ) && backup_storages@[j].wf(),
        decreases config.backups@.len() - bi,
    {
        let cfg = &config.backups[bi];
        let mut accs: Vec<BusAccess> = Vec::new();
        accs.push(
            BusAccess {
                client: cfg.client.clone(),
                inv_addr: cfg.addr.clone(),
                bus_addr: cfg.addr.clone(),
            },
        );
        backup_storages.push(Storage::new_chest(accs, None, 0));
        bi += 1;
    }
    let mut processes: Vec<Process> = Vec::new();
    let mut pi: usize = 0;
    while pi < config.processes.len()
        invariant
            pi <= config.processes@.len(),
            forall|j: int| 0 <= j < config.processes@.len() ==> process_cfg_wf(#[trigger] config.processes@[j]),
            processes_correspond(config.processes@.take(pi as int), processes@),
            forall|j: int| 0 <= j < processes@.len() ==> (#[trigger] processes@[j]).wf(),
        decreases config.processes@.len() - pi,
    {
        let ghost prev = processes@;
        convert_process(&config.processes[pi], &mut processes);
        proof {
            let cfgs1 = config.processes@.take(pi + 1);
            assert(cfgs1.drop_last() =~= config.processes@.take(pi as int));
            assert(cfgs1.last() == config.processes@[pi as int]);
            assert(processes@.take(processes@.len() - chunk_len(cfgs1.last())) =~= prev);
            assert(processes@.skip(processes@.len() - chunk_len(cfgs1.last())) =~= processes@.skip(
                prev.len() as int,
            ));
            assert forall|j: int| 0 <= j < processes@.len() implies (#[trigger] processes@[
                j
            ]).wf() by {
                if j < prev.len() {
                    assert(processes@[j] == processes@.take(prev.len() as int)[j]);
                }
            }
        }
        pi += 1;
    }
    proof {
        assert(config.processes@.take(config.processes@.len() as int) =~= config.processes@);
    }
    let f = Factory {
        storages,
        backup_storages,
        processes,
        detail_cache: crate::detail_cache::DetailCache::new(),
        server_port: config.server_port,
        min_cycle_time_secs: config.min_cycle_time_secs,
        log_clients: crate::util::clone_string_vec(&config.log_clients),
        fluid_bus_accesses: convert_fluid_accesses(&config.fluid_bus_accesses),
        fluid_backups: convert_fluid_accesses(&config.fluid_backups),
        fluid_bus_capacity: config.fluid_bus_capacity as u32,
    };
    Ok(f)
}

/// The hot-reload decision: only a fully successful rebuild replaces the
/// active factory, atomically and wholesale; a failed attempt leaves the
/// previously active factory exactly as it was.
pub fn apply_reload(current: Factory, attempt: Result<Factory, ConfigError>) -> (f: Factory)
    ensures
        (attempt matches Ok(n) ==> f == n),
        (attempt matches Err(_) ==> f == current),
{
    match attempt {
        Ok(n) => n,
        Err(_) => current,
    }
}

} // verus!

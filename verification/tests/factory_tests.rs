use factory::config::{
    apply_reload, build_factory_from_json, BusAccessConfig, ConfigError, CraftingRecipe,
    DynamicFactoryConfig, ItemFilter, ProcessConfig, RedstoneRule, SlotConfig, SlottedInput,
    StorageConfig,
};
use factory::detail_cache::DetailCache;
use factory::factory::next_cycle_delay;
use factory::item::{Detail, DetailStack, Filter};
use factory::process::{Action, Process};
use factory::ui::NonInteractiveTui;

fn acc(client: &str, addr: &str) -> BusAccessConfig {
    BusAccessConfig {
        client: String::from(client),
        addr: String::from(addr),
    }
}

fn empty_config() -> DynamicFactoryConfig {
    DynamicFactoryConfig {
        server_port: 1847,
        min_cycle_time_secs: 1,
        log_clients: Vec::new(),
        bus_accesses: Vec::new(),
        fluid_bus_accesses: Vec::new(),
        fluid_bus_capacity: 16000,
        storages: Vec::new(),
        processes: Vec::new(),
        backups: Vec::new(),
        fluid_backups: Vec::new(),
    }
}

fn chest_cfg(addr: &str, override_max: Option<i32>) -> StorageConfig {
    StorageConfig::Chest {
        accesses: vec![acc("c1", addr)],
        override_max_stack_size: override_max,
    }
}

fn workbench_recipe(input_label: &str, per_set: i32, max_sets: i32, out_label: &str) -> CraftingRecipe {
    CraftingRecipe {
        outputs: vec![ItemFilter::Label {
            value: String::from(out_label),
        }],
        inputs: vec![SlottedInput {
            item: ItemFilter::Label {
                value: String::from(input_label),
            },
            slots: vec![SlotConfig {
                slot: 0,
                size: per_set,
            }],
            allow_backup: false,
            extra_backup: 0,
        }],
        max_sets,
    }
}

fn stack(label: &str, size: u32) -> DetailStack {
    DetailStack {
        detail: Detail {
            label: String::from(label),
            name: String::from(label),
            max_stack_size: 64,
        },
        size,
    }
}

fn flabel(l: &str) -> Filter {
    Filter::Label(String::from(l))
}

#[test]
fn workbench_cycle_extracts_and_routes_output() {
    // a chest with 10 X (override stack size 16); a workbench recipe needs
    // 5 X per set, one set per cycle, and the chest accepts the output
    let mut cfg = empty_config();
    cfg.storages.push(chest_cfg("inv0", Some(16)));
    cfg.processes.push(ProcessConfig::Workbench {
        name: String::from("bench"),
        accesses: vec![acc("c1", "wb0")],
        recipes: vec![workbench_recipe("X", 5, 1, "Y")],
    });
    let mut f = build_factory_from_json(&cfg).expect("valid config");
    f.storages[0].add_slots(4);
    assert_eq!(f.storages[0].insert(&stack("X", 10)), 10);
    let actions = f.run_cycle();
    assert_eq!(actions.len(), 1);
    match &actions[0] {
        Action::RecipeFired {
            process,
            sets,
            placements,
        } => {
            assert_eq!(process, "bench");
            assert_eq!(*sets, 1);
            // one set places exactly 5 units at the recipe's declared slot 0
            assert_eq!(placements.len(), 1);
            assert_eq!(placements[0], vec![(0, 5)]);
        }
        _ => panic!("expected a firing report"),
    }
    assert_eq!(f.storages[0].count_of(&flabel("X")), 5);
    assert_eq!(f.storages[0].count_of(&flabel("Y")), 1);
}

#[test]
fn workbench_cycle_does_not_fire_below_one_set() {
    // same recipe, but the chest holds only 3 X: nothing moves
    let mut cfg = empty_config();
    cfg.storages.push(chest_cfg("inv0", Some(16)));
    cfg.processes.push(ProcessConfig::Workbench {
        name: String::from("bench"),
        accesses: vec![acc("c1", "wb0")],
        recipes: vec![workbench_recipe("X", 5, 1, "Y")],
    });
    let mut f = build_factory_from_json(&cfg).expect("valid config");
    f.storages[0].add_slots(4);
    assert_eq!(f.storages[0].insert(&stack("X", 3)), 3);
    f.run_cycle();
    assert_eq!(f.storages[0].count_of(&flabel("X")), 3);
    assert_eq!(f.storages[0].count_of(&flabel("Y")), 0);
}

#[test]
fn cycle_with_no_feasible_work_changes_nothing() {
    let mut cfg = empty_config();
    cfg.storages.push(chest_cfg("inv0", None));
    cfg.processes.push(ProcessConfig::ManualUI {
        accesses: vec![acc("c1", "m0")],
    });
    cfg.processes.push(ProcessConfig::Workbench {
        name: String::from("bench"),
        accesses: vec![acc("c1", "wb0")],
        recipes: vec![workbench_recipe("Missing", 5, 1, "Y")],
    });
    let mut f = build_factory_from_json(&cfg).expect("valid config");
    f.storages[0].add_slots(2);
    assert_eq!(f.storages[0].insert(&stack("Other", 7)), 7);
    let before = f.storages[0].list();
    f.run_cycle();
    let after = f.storages[0].list();
    assert_eq!(before.len(), after.len());
    for (b, a) in before.iter().zip(after.iter()) {
        assert_eq!(b.detail.label, a.detail.label);
        assert_eq!(b.size, a.size);
    }
}

#[test]
fn redstone_emitter_follows_trigger_quantity() {
    let mut cfg = empty_config();
    cfg.storages.push(chest_cfg("inv0", None));
    cfg.processes.push(ProcessConfig::RedstoneEmitter {
        accesses: vec![acc("c1", "rs0")],
        output_rules: vec![
            RedstoneRule {
                name: String::from("x present"),
                off_signal: 0,
                on_signal: 15,
                trigger_items: vec![ItemFilter::Label {
                    value: String::from("X"),
                }],
            },
            RedstoneRule {
                name: String::from("z present"),
                off_signal: 1,
                on_signal: 9,
                trigger_items: vec![ItemFilter::Label {
                    value: String::from("Z"),
                }],
            },
        ],
    });
    let mut f = build_factory_from_json(&cfg).expect("valid config");
    // one emitter process exists per configured rule
    assert_eq!(f.processes.len(), 2);
    f.storages[0].add_slots(2);
    assert_eq!(f.storages[0].insert(&stack("X", 3)), 3);
    let actions = f.run_cycle();
    assert_eq!(actions.len(), 2);
    match &actions[0] {
        Action::SetRedstone { addr, level, .. } => {
            assert_eq!(addr, "rs0");
            assert_eq!(*level, 15);
        }
        _ => panic!("expected a redstone action"),
    }
    match &actions[1] {
        Action::SetRedstone { level, .. } => assert_eq!(*level, 1),
        _ => panic!("expected a redstone action"),
    }
    match &f.processes[0] {
        Process::RedstoneEmitter { last_output, .. } => assert_eq!(*last_output, Some(15)),
        _ => panic!("expected an emitter"),
    }
    match &f.processes[1] {
        Process::RedstoneEmitter { last_output, .. } => assert_eq!(*last_output, Some(1)),
        _ => panic!("expected an emitter"),
    }
}

#[test]
fn turtle_program_starts_exactly_once() {
    let mut cfg = empty_config();
    cfg.processes.push(ProcessConfig::Turtle {
        name: String::from("digger"),
        file_name: String::from("dig.lua"),
        client: String::from("t1"),
    });
    let mut f = build_factory_from_json(&cfg).expect("valid config");
    let first = f.run_cycle();
    assert_eq!(first.len(), 1);
    match &first[0] {
        Action::StartProgram {
            name,
            file_name,
            client,
        } => {
            assert_eq!(name, "digger");
            assert_eq!(file_name, "dig.lua");
            assert_eq!(client, "t1");
        }
        _ => panic!("expected a program start"),
    }
    let second = f.run_cycle();
    assert!(second.is_empty());
}

#[test]
fn strict_priority_claims_only_first_satisfiable_recipe() {
    let mut cfg = empty_config();
    cfg.storages.push(chest_cfg("inv0", None));
    let slotted = |strict: bool| ProcessConfig::Slotted {
        name: String::from("machine"),
        accesses: vec![acc("c1", "sl0")],
        input_slots: vec![0],
        extract_filter: None,
        recipes: vec![
            workbench_recipe("X", 1, 1, "A"),
            workbench_recipe("X", 1, 1, "B"),
        ],
        strict_priority: strict,
    };
    cfg.processes.push(slotted(true));
    let mut f = build_factory_from_json(&cfg).expect("valid config");
    f.storages[0].add_slots(4);
    assert_eq!(f.storages[0].insert(&stack("X", 10)), 10);
    f.run_cycle();
    assert_eq!(f.storages[0].count_of(&flabel("X")), 9);
    assert_eq!(f.storages[0].count_of(&flabel("A")), 1);
    assert_eq!(f.storages[0].count_of(&flabel("B")), 0);

    let mut cfg2 = empty_config();
    cfg2.storages.push(chest_cfg("inv0", None));
    cfg2.processes.push(slotted(false));
    let mut f2 = build_factory_from_json(&cfg2).expect("valid config");
    f2.storages[0].add_slots(4);
    assert_eq!(f2.storages[0].insert(&stack("X", 10)), 10);
    f2.run_cycle();
    assert_eq!(f2.storages[0].count_of(&flabel("X")), 8);
    assert_eq!(f2.storages[0].count_of(&flabel("A")), 1);
    assert_eq!(f2.storages[0].count_of(&flabel("B")), 1);
}

#[test]
fn duplicate_address_is_rejected() {
    let mut cfg = empty_config();
    cfg.storages.push(chest_cfg("shared", None));
    cfg.processes.push(ProcessConfig::ManualUI {
        accesses: vec![acc("c2", "shared")],
    });
    match build_factory_from_json(&cfg) {
        Err(ConfigError::DuplicateAddress { addr }) => assert_eq!(addr, "shared"),
        _ => panic!("expected a duplicate-address rejection"),
    }
}

#[test]
fn non_positive_max_sets_is_rejected() {
    let mut cfg = empty_config();
    cfg.processes.push(ProcessConfig::Workbench {
        name: String::from("bench"),
        accesses: vec![acc("c1", "wb0")],
        recipes: vec![workbench_recipe("X", 5, 0, "Y")],
    });
    match build_factory_from_json(&cfg) {
        Err(ConfigError::BadRecipe { process }) => assert_eq!(process, "bench"),
        _ => panic!("expected a recipe rejection"),
    }
}

#[test]
fn non_positive_slot_size_is_rejected() {
    let mut cfg = empty_config();
    let mut recipe = workbench_recipe("X", 5, 1, "Y");
    recipe.inputs[0].slots[0].size = 0;
    cfg.processes.push(ProcessConfig::Workbench {
        name: String::from("bench"),
        accesses: vec![acc("c1", "wb0")],
        recipes: vec![recipe],
    });
    assert!(matches!(
        build_factory_from_json(&cfg),
        Err(ConfigError::BadRecipe { .. })
    ));
}

#[test]
fn negative_extra_backup_is_rejected() {
    let mut cfg = empty_config();
    let mut recipe = workbench_recipe("X", 5, 1, "Y");
    recipe.inputs[0].extra_backup = -1;
    cfg.processes.push(ProcessConfig::Workbench {
        name: String::from("bench"),
        accesses: vec![acc("c1", "wb0")],
        recipes: vec![recipe],
    });
    assert!(matches!(
        build_factory_from_json(&cfg),
        Err(ConfigError::BadRecipe { .. })
    ));
}

#[test]
fn negative_override_is_rejected() {
    let mut cfg = empty_config();
    cfg.storages.push(chest_cfg("inv0", Some(-3)));
    assert!(matches!(
        build_factory_from_json(&cfg),
        Err(ConfigError::NegativeOverride)
    ));
}

#[test]
fn negative_fluid_capacity_is_rejected() {
    let mut cfg = empty_config();
    cfg.fluid_bus_capacity = -1;
    assert!(matches!(
        build_factory_from_json(&cfg),
        Err(ConfigError::NegativeFluidCapacity)
    ));
}

#[test]
fn reload_with_invalid_config_keeps_active_factory() {
    let mut good = empty_config();
    good.min_cycle_time_secs = 5;
    good.storages.push(chest_cfg("inv0", None));
    let active = build_factory_from_json(&good).expect("valid config");

    let mut bad = empty_config();
    bad.storages.push(chest_cfg("dup", None));
    bad.processes.push(ProcessConfig::ManualUI {
        accesses: vec![acc("c2", "dup")],
    });
    let attempt = build_factory_from_json(&bad);
    assert!(attempt.is_err());
    let after = apply_reload(active, attempt);
    assert_eq!(after.min_cycle_time_secs, 5);
    assert_eq!(after.storages.len(), 1);
}

#[test]
fn reload_with_valid_config_swaps_wholesale() {
    let mut a = empty_config();
    a.min_cycle_time_secs = 5;
    a.server_port = 1000;
    let active = build_factory_from_json(&a).expect("valid config");

    let mut b = empty_config();
    b.min_cycle_time_secs = 9;
    b.server_port = 2000;
    b.storages.push(chest_cfg("inv0", None));
    let attempt = build_factory_from_json(&b);
    let after = apply_reload(active, attempt);
    // every parameter the next cycles observe is B's, never a mix
    assert_eq!(after.min_cycle_time_secs, 9);
    assert_eq!(after.server_port, 2000);
    assert_eq!(after.storages.len(), 1);
}

#[test]
fn built_factory_carries_config_parameters() {
    let mut cfg = empty_config();
    cfg.server_port = 1847;
    cfg.min_cycle_time_secs = 3;
    cfg.log_clients.push(String::from("main"));
    cfg.backups.push(acc("c1", "backup0"));
    let f = build_factory_from_json(&cfg).expect("valid config");
    assert_eq!(f.server_port, 1847);
    assert_eq!(f.min_cycle_time_secs, 3);
    assert_eq!(f.log_clients.len(), 1);
    assert_eq!(f.backup_storages.len(), 1);
    assert_eq!(f.fluid_bus_capacity, 16000);
}

#[test]
fn detail_cache_memoizes_first_fetch() {
    let mut cache = DetailCache::new();
    let key = String::from("sig:iron");
    let miss = cache.get_detail(&key, None);
    assert!(miss.is_none());
    let d = Detail {
        label: String::from("Iron Ingot"),
        name: String::from("minecraft:iron_ingot"),
        max_stack_size: 64,
    };
    let stored = cache.get_detail(&key, Some(d));
    assert_eq!(stored.as_ref().map(|x| x.max_stack_size), Some(64));
    // a later, different fetch result does not displace the cached entry
    let other = Detail {
        label: String::from("Wrong"),
        name: String::from("wrong:item"),
        max_stack_size: 1,
    };
    let cached = cache.get_detail(&key, Some(other));
    assert_eq!(cached.map(|x| x.label), Some(String::from("Iron Ingot")));
}

#[test]
fn next_cycle_delay_enforces_min_cycle_time() {
    assert_eq!(next_cycle_delay(100, 103, 5), 2);
    assert_eq!(next_cycle_delay(100, 105, 5), 0);
    assert_eq!(next_cycle_delay(100, 200, 5), 0);
    assert_eq!(next_cycle_delay(100, 100, 0), 0);
}

#[test]
fn noninteractive_sink_keeps_recent_lines() {
    let mut t = NonInteractiveTui::new();
    t.push_log(String::from("first"));
    t.push_log(String::from("second"));
    assert_eq!(t.logs.len(), 2);
    assert_eq!(t.logs[0], "first");
    for i in 0..1100 {
        t.push_log(format!("line {}", i));
    }
    assert_eq!(t.logs.len(), 1000);
    assert_eq!(t.logs[999], "line 1099");
}

#[test]
fn slotted_recipe_outside_input_slots_is_rejected() {
    let mut cfg = empty_config();
    cfg.processes.push(ProcessConfig::Slotted {
        name: String::from("machine"),
        accesses: vec![acc("c1", "sl0")],
        input_slots: vec![1, 2],
        extract_filter: None,
        // the recipe places into slot 0, which the machine does not declare
        recipes: vec![workbench_recipe("X", 5, 1, "Y")],
        strict_priority: false,
    });
    match build_factory_from_json(&cfg) {
        Err(ConfigError::BadRecipe { process }) => assert_eq!(process, "machine"),
        _ => panic!("expected a recipe rejection"),
    }
}

use factory::item::{Detail, DetailStack, Filter};
use factory::recipe::{
    compute_recipe_sets, extract_for_input, placements_for, route_output, CraftingGridInput,
    CraftingGridRecipe, Output, SlotPlacement,
};
use factory::storage::Storage;
use factory::config::{convert_recipe, CraftingRecipe, ItemFilter, SlotConfig, SlottedInput};

fn detail(label: &str, name: &str, max: u32) -> Detail {
    Detail {
        label: String::from(label),
        name: String::from(name),
        max_stack_size: max,
    }
}

fn stack(label: &str, size: u32) -> DetailStack {
    DetailStack {
        detail: detail(label, label, 64),
        size,
    }
}

fn chest(slots: usize, override_max: Option<u32>) -> Storage {
    Storage::new_chest(Vec::new(), override_max, slots)
}

fn label(l: &str) -> Filter {
    Filter::Label(String::from(l))
}

fn input(l: &str, per_set: u32, allow_backup: bool, extra_backup: u32) -> CraftingGridInput {
    CraftingGridInput {
        item: label(l),
        size: per_set,
        slots: vec![SlotPlacement {
            slot: 0,
            size: per_set,
        }],
        allow_backup,
        extra_backup,
    }
}

#[test]
fn both_filter_matches_only_both_fields() {
    let f = Filter::Both {
        label: String::from("Iron Ingot"),
        name: String::from("minecraft:iron_ingot"),
    };
    let ok = f.matches(
        &String::from("Iron Ingot"),
        &String::from("minecraft:iron_ingot"),
    );
    let label_only = f.matches(&String::from("Iron Ingot"), &String::from("other:name"));
    let name_only = f.matches(
        &String::from("Other Label"),
        &String::from("minecraft:iron_ingot"),
    );
    let neither = f.matches(&String::from("a"), &String::from("b"));
    assert!(ok);
    assert!(!label_only);
    assert!(!name_only);
    assert!(!neither);
}

#[test]
fn label_and_name_filters_match_their_field() {
    let l = Filter::Label(String::from("Iron Ingot"));
    assert!(l.matches(&String::from("Iron Ingot"), &String::from("anything")));
    assert!(!l.matches(&String::from("Gold Ingot"), &String::from("anything")));
    let n = Filter::Name(String::from("minecraft:iron_ingot"));
    assert!(n.matches(&String::from("x"), &String::from("minecraft:iron_ingot")));
    assert!(!n.matches(&String::from("x"), &String::from("minecraft:gold_ingot")));
}

#[test]
fn custom_filter_matches_everything() {
    let f = Filter::Custom {
        desc: String::from("anything goes"),
    };
    assert!(f.matches(&String::from("a"), &String::from("b")));
    assert!(f.matches(&String::from(""), &String::from("")));
}

#[test]
fn chest_insert_respects_override_stack_size() {
    let mut c = chest(2, Some(16));
    // 40 offered, but two slots of at most 16 each accept only 32
    let accepted = c.insert(&stack("X", 40));
    assert_eq!(accepted, 32);
    assert_eq!(c.count_of(&label("X")), 32);
}

#[test]
fn chest_insert_tops_up_existing_stack_first() {
    let mut c = chest(2, None);
    assert_eq!(c.insert(&stack("X", 60)), 60);
    assert_eq!(c.insert(&stack("X", 10)), 10);
    let listed = c.list();
    assert_eq!(listed.len(), 2);
    assert_eq!(listed[0].size, 64);
    assert_eq!(listed[1].size, 6);
}

#[test]
fn extract_is_best_effort_and_never_exceeds_available() {
    let mut c = chest(1, None);
    assert_eq!(c.insert(&stack("X", 10)), 10);
    let got = c.extract(&label("X"), 25);
    assert_eq!(got, 10);
    assert_eq!(c.count_of(&label("X")), 0);
    let listed = c.list();
    assert!(listed.is_empty());
}

#[test]
fn extract_takes_exactly_what_was_asked() {
    let mut c = chest(1, None);
    assert_eq!(c.insert(&stack("X", 10)), 10);
    let got = c.extract(&label("X"), 4);
    assert_eq!(got, 4);
    assert_eq!(c.count_of(&label("X")), 6);
}

#[test]
fn drawer_rejects_items_not_matching_its_filters() {
    let mut d = Storage::new_drawer(Vec::new(), vec![label("X")], 2);
    assert_eq!(d.insert(&stack("X", 5)), 5);
    assert_eq!(d.insert(&stack("Y", 5)), 0);
    assert_eq!(d.count_of(&label("X")), 5);
    assert_eq!(d.count_of(&label("Y")), 0);
}

#[test]
fn extracted_quantity_is_exact_multiple_of_per_set_size() {
    // 13 available, 5 per set: only whole sets move, so 2 sets = 10 units
    let mut storages = vec![chest(2, None)];
    let mut backups: Vec<Storage> = Vec::new();
    assert_eq!(storages[0].insert(&stack("X", 13)), 13);
    let inp = input("X", 5, false, 0);
    let got = extract_for_input(&mut storages, &mut backups, &inp, 4);
    assert_eq!(got, 10);
    assert_eq!(got % 5, 0);
    assert_eq!(storages[0].count_of(&label("X")), 3);
}

#[test]
fn no_backup_input_never_touches_backup_reserve() {
    let mut storages = vec![chest(1, None)];
    let mut backups = vec![chest(1, None)];
    assert_eq!(storages[0].insert(&stack("X", 4)), 4);
    assert_eq!(backups[0].insert(&stack("X", 50)), 50);
    let inp = input("X", 5, false, 0);
    // normal pool alone cannot supply one set
    let got = extract_for_input(&mut storages, &mut backups, &inp, 3);
    assert_eq!(got, 0);
    assert_eq!(storages[0].count_of(&label("X")), 4);
    assert_eq!(backups[0].count_of(&label("X")), 50);
}

#[test]
fn backup_reserve_never_drops_below_extra_backup() {
    let mut storages = vec![chest(1, None)];
    let mut backups = vec![chest(1, None)];
    assert_eq!(backups[0].insert(&stack("X", 5)), 5);
    let inp = input("X", 1, true, 2);
    // surplus over the reserve floor of 2 is 3, so at most 3 sets fire
    let got = extract_for_input(&mut storages, &mut backups, &inp, 10);
    assert_eq!(got, 3);
    assert_eq!(backups[0].count_of(&label("X")), 2);
}

#[test]
fn backup_draw_uses_normal_pool_first() {
    let mut storages = vec![chest(1, None)];
    let mut backups = vec![chest(1, None)];
    assert_eq!(storages[0].insert(&stack("X", 2)), 2);
    assert_eq!(backups[0].insert(&stack("X", 10)), 10);
    let inp = input("X", 1, true, 0);
    let got = extract_for_input(&mut storages, &mut backups, &inp, 5);
    assert_eq!(got, 5);
    assert_eq!(storages[0].count_of(&label("X")), 0);
    assert_eq!(backups[0].count_of(&label("X")), 7);
}

#[test]
fn recipe_sets_is_floor_of_available_over_size_capped_by_max_sets() {
    let mut storages = vec![chest(2, None)];
    let backups: Vec<Storage> = Vec::new();
    assert_eq!(storages[0].insert(&stack("X", 17)), 17);
    let r = CraftingGridRecipe {
        outputs: Vec::new(),
        inputs: vec![input("X", 5, false, 0)],
        max_sets: 10,
        non_consumables: Vec::new(),
    };
    assert_eq!(compute_recipe_sets(&storages, &backups, &r), 3);
    let capped = CraftingGridRecipe {
        outputs: Vec::new(),
        inputs: vec![input("X", 5, false, 0)],
        max_sets: 2,
        non_consumables: Vec::new(),
    };
    assert_eq!(compute_recipe_sets(&storages, &backups, &capped), 2);
}

#[test]
fn recipe_sets_is_minimum_over_all_inputs() {
    let mut storages = vec![chest(4, None)];
    let backups: Vec<Storage> = Vec::new();
    assert_eq!(storages[0].insert(&stack("X", 12)), 12);
    assert_eq!(storages[0].insert(&stack("Y", 5)), 5);
    let r = CraftingGridRecipe {
        outputs: Vec::new(),
        inputs: vec![input("X", 3, false, 0), input("Y", 2, false, 0)],
        max_sets: 10,
        non_consumables: Vec::new(),
    };
    // X supplies 4 sets, Y only 2
    assert_eq!(compute_recipe_sets(&storages, &backups, &r), 2);
}

#[test]
fn missing_non_consumable_blocks_the_recipe() {
    let mut storages = vec![chest(2, None)];
    let backups: Vec<Storage> = Vec::new();
    assert_eq!(storages[0].insert(&stack("X", 10)), 10);
    let r = CraftingGridRecipe {
        outputs: Vec::new(),
        inputs: vec![input("X", 1, false, 0)],
        max_sets: 10,
        non_consumables: vec![label("Hammer")],
    };
    assert_eq!(compute_recipe_sets(&storages, &backups, &r), 0);
    assert_eq!(storages[0].insert(&stack("Hammer", 1)), 1);
    let n = compute_recipe_sets(&storages, &backups, &r);
    assert_eq!(n, 10);
    // the non-consumable is present but would not be decremented by firing
    assert_eq!(storages[0].count_of(&label("Hammer")), 1);
}

#[test]
fn route_output_prefers_largest_free_capacity() {
    // two unfiltered chests: the second has more room
    let mut storages = vec![chest(1, None), chest(3, None)];
    let left = route_output(&mut storages, stack("X", 10));
    assert!(left.is_none());
    assert_eq!(storages[0].count_of(&label("X")), 0);
    assert_eq!(storages[1].count_of(&label("X")), 10);
}

#[test]
fn route_output_hands_back_what_nothing_accepts() {
    let mut storages = vec![Storage::new_drawer(Vec::new(), vec![label("Y")], 2)];
    let left = route_output(&mut storages, stack("X", 10));
    let l = left.expect("nothing accepts X");
    assert_eq!(l.size, 10);
    assert_eq!(storages[0].count_of(&label("X")), 0);
}

#[test]
fn route_output_splits_overflow_back_to_caller() {
    let mut storages = vec![chest(1, Some(4))];
    let left = route_output(&mut storages, stack("X", 10));
    let l = left.expect("only 4 fit");
    assert_eq!(l.size, 6);
    assert_eq!(storages[0].count_of(&label("X")), 4);
}

#[test]
fn convert_recipe_sums_slot_sizes_and_keeps_placements() {
    let cfg = CraftingRecipe {
        outputs: vec![ItemFilter::Label {
            value: String::from("Out"),
        }],
        inputs: vec![SlottedInput {
            item: ItemFilter::Label {
                value: String::from("X"),
            },
            slots: vec![
                SlotConfig { slot: 1, size: 2 },
                SlotConfig { slot: 3, size: 3 },
            ],
            allow_backup: false,
            extra_backup: 0,
        }],
        max_sets: 4,
    };
    let r = convert_recipe(&cfg);
    assert_eq!(r.max_sets, 4);
    assert_eq!(r.inputs.len(), 1);
    assert_eq!(r.inputs[0].size, 5);
    assert_eq!(r.inputs[0].slots.len(), 2);
    assert_eq!(r.inputs[0].slots[0].slot, 1);
    assert_eq!(r.inputs[0].slots[0].size, 2);
    assert_eq!(r.inputs[0].slots[1].slot, 3);
    assert_eq!(r.inputs[0].slots[1].size, 3);
    assert_eq!(r.outputs.len(), 1);
    assert_eq!(r.outputs[0].size, 1);
    assert!(r.non_consumables.is_empty());
    match &r.outputs[0] {
        Output { item, size: _ } => match item {
            Filter::Label(v) => assert_eq!(v, "Out"),
            _ => panic!("wrong filter kind"),
        },
    }
}

#[test]
fn placements_put_sets_times_size_at_each_declared_slot() {
    let inp = CraftingGridInput {
        item: label("X"),
        size: 5,
        slots: vec![
            SlotPlacement { slot: 1, size: 2 },
            SlotPlacement { slot: 4, size: 3 },
        ],
        allow_backup: false,
        extra_backup: 0,
    };
    let p = placements_for(&inp, 3);
    assert_eq!(p.len(), 2);
    assert_eq!(p[0], (1, 6));
    assert_eq!(p[1], (4, 9));
}

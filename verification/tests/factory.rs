use infinite_flux::blueprint::Blueprint;
use infinite_flux::building::{Building, BuildingMap, BuildingType};
use infinite_flux::common::GridPosition;
use infinite_flux::inventory::{restore_inventory, Inventory};
use infinite_flux::item::{ItemStack, ItemType};
use infinite_flux::mining::{ResourceNode, MINING_XP_PER_ITEM};
use infinite_flux::production::Machine;
use infinite_flux::recipe::Recipe;
use infinite_flux::skill::{PlayerSkills, SkillType};
use infinite_flux::stats::{ThroughputTracker, TRACKING_WINDOW};
use infinite_flux::transport::{transport_step, TransitItem, TransportLine};
use infinite_flux::building::is_valid_placement;
use infinite_flux::common::TileType;
use infinite_flux::blueprint::paste_target;

// -------------------------------------------------------------- inventory

#[test]
fn new_inventory_is_empty() {
    let inv = Inventory::new(100);
    assert!(inv.is_empty());
    assert_eq!(inv.total_count(), 0);
    assert_eq!(inv.space_available(), 100);
}

#[test]
fn add_and_count() {
    let mut inv = Inventory::new(100);
    inv.try_add(ItemType::CopperOre, 5);
    assert_eq!(inv.count(ItemType::CopperOre), 5);
    assert_eq!(inv.total_count(), 5);
    inv.try_add(ItemType::CopperOre, 3);
    assert_eq!(inv.count(ItemType::CopperOre), 8);
}

#[test]
fn capacity_limits_addition() {
    let mut inv = Inventory::new(5);
    let added = inv.try_add(ItemType::IronOre, 10);
    assert_eq!(added, 5);
    assert_eq!(inv.count(ItemType::IronOre), 5);
    assert_eq!(inv.space_available(), 0);
    let added = inv.try_add(ItemType::CopperOre, 1);
    assert_eq!(added, 0);
}

#[test]
fn remove_items() {
    let mut inv = Inventory::new(100);
    inv.try_add(ItemType::CopperOre, 10);
    let removed = inv.try_remove(ItemType::CopperOre, 3);
    assert_eq!(removed, 3);
    assert_eq!(inv.count(ItemType::CopperOre), 7);
    let removed = inv.try_remove(ItemType::CopperOre, 20);
    assert_eq!(removed, 7);
    assert!(inv.is_empty());
}

#[test]
fn has_all_checks_multiple_items() {
    let mut inv = Inventory::new(100);
    inv.try_add(ItemType::CopperWire, 5);
    inv.try_add(ItemType::IronPlate, 2);
    let required = vec![ItemStack::new(ItemType::CopperWire, 3), ItemStack::new(ItemType::IronPlate, 1)];
    assert!(inv.has_all(&required));
    let too_much = vec![ItemStack::new(ItemType::CopperWire, 3), ItemStack::new(ItemType::IronPlate, 5)];
    assert!(!inv.has_all(&too_much));
}

#[test]
fn remove_all_consumes_exact_amounts() {
    let mut inv = Inventory::new(100);
    inv.try_add(ItemType::CopperWire, 5);
    inv.try_add(ItemType::IronPlate, 3);
    let to_remove = vec![ItemStack::new(ItemType::CopperWire, 3), ItemStack::new(ItemType::IronPlate, 1)];
    inv.remove_all(&to_remove);
    assert_eq!(inv.count(ItemType::CopperWire), 2);
    assert_eq!(inv.count(ItemType::IronPlate), 2);
}

#[test]
fn add_then_remove_round_trip() {
    let mut inv = Inventory::new(50);
    inv.try_add(ItemType::IronOre, 7);
    let added = inv.try_add(ItemType::CopperOre, 12);
    assert_eq!(inv.try_remove(ItemType::CopperOre, added), added);
    assert_eq!(inv.count(ItemType::CopperOre), 0);
    assert_eq!(inv.count(ItemType::IronOre), 7);
    assert_eq!(inv.total_count(), 7);
}

#[test]
fn contents_lists_held_items_in_item_order() {
    let mut inv = Inventory::new(100);
    inv.try_add(ItemType::HullPlate, 1);
    inv.try_add(ItemType::CopperOre, 4);
    assert_eq!(
        inv.contents(),
        vec![ItemStack::new(ItemType::CopperOre, 4), ItemStack::new(ItemType::HullPlate, 1)]
    );
    assert!(Inventory::default().contents().is_empty());
}

#[test]
fn space_is_zero_when_capacity_was_lowered() {
    let mut inv = Inventory::new(10);
    inv.try_add(ItemType::IronOre, 8);
    inv.capacity = 4;
    assert_eq!(inv.space_available(), 0);
    assert_eq!(inv.try_add(ItemType::IronOre, 1), 0);
    assert_eq!(inv.try_add_stack(ItemStack::new(ItemType::IronOre, 1)), 0);
}

// ------------------------------------------------------------- production

fn copper_smelting_recipe() -> Recipe {
    Recipe::new(
        "Smelt Copper",
        vec![ItemStack::new(ItemType::CopperOre, 1)],
        vec![ItemStack::new(ItemType::CopperIngot, 1)],
        3,
    )
}

#[test]
fn machine_processes_recipe() {
    let mut inv = Inventory::new(100);
    inv.try_add(ItemType::CopperOre, 5);
    let mut machine = Machine::new(copper_smelting_recipe());
    for _ in 0..4 {
        machine.step(&mut inv, 1);
    }
    assert_eq!(inv.count(ItemType::CopperOre), 4);
    assert_eq!(inv.count(ItemType::CopperIngot), 1);
}

#[test]
fn machine_stalls_without_inputs() {
    let mut inv = Inventory::new(100);
    let mut machine = Machine::new(copper_smelting_recipe());
    for _ in 0..20 {
        machine.step(&mut inv, 1);
    }
    assert_eq!(inv.count(ItemType::CopperIngot), 0);
}

#[test]
fn machine_stalls_when_output_full() {
    let mut inv = Inventory::new(2);
    inv.try_add(ItemType::CopperOre, 2);
    let mut machine = Machine::new(copper_smelting_recipe());
    for _ in 0..4 {
        machine.step(&mut inv, 1);
    }
    assert_eq!(inv.count(ItemType::CopperOre), 1);
    assert_eq!(inv.count(ItemType::CopperIngot), 1);
    for _ in 0..4 {
        machine.step(&mut inv, 1);
    }
    assert_eq!(inv.count(ItemType::CopperOre), 0);
    assert_eq!(inv.count(ItemType::CopperIngot), 2);
}

#[test]
fn machine_waits_for_room_and_keeps_its_cycle() {
    let mut inv = Inventory::new(1);
    inv.try_add(ItemType::CopperOre, 1);
    let mut machine = Machine::new(copper_smelting_recipe());
    machine.step(&mut inv, 1);
    assert!(machine.is_processing());
    assert_eq!(machine.processing_ticks_remaining(), 3);
    inv.try_add(ItemType::IronOre, 1);
    for _ in 0..5 {
        machine.step(&mut inv, 1);
    }
    assert!(machine.is_processing());
    assert_eq!(machine.processing_ticks_remaining(), 0);
    assert_eq!(inv.count(ItemType::CopperIngot), 0);
    inv.try_remove(ItemType::IronOre, 1);
    machine.step(&mut inv, 0);
    assert!(!machine.is_processing());
    assert_eq!(inv.count(ItemType::CopperIngot), 1);
}

#[test]
fn machine_at_partial_power_counts_whole_ticks() {
    let mut inv = Inventory::new(10);
    inv.try_add(ItemType::CopperOre, 1);
    let mut machine = Machine::new(copper_smelting_recipe());
    machine.step(&mut inv, 1);
    machine.step(&mut inv, 0);
    assert_eq!(machine.processing_ticks_remaining(), 3);
    machine.step(&mut inv, 2);
    assert_eq!(machine.processing_ticks_remaining(), 1);
    machine.step(&mut inv, 5);
    assert_eq!(inv.count(ItemType::CopperIngot), 1);
}

// ---------------------------------------------------------------- buildings

#[test]
fn building_map_insert_and_lookup() {
    let mut map = BuildingMap::default();
    let pos = GridPosition::new(3, 5);
    let entity = 7u64;
    assert!(!map.is_occupied(&pos));
    assert!(map.insert(pos, entity));
    assert!(map.is_occupied(&pos));
    assert_eq!(map.get(&pos), Some(entity));
}

#[test]
fn building_map_rejects_duplicate() {
    let mut map = BuildingMap::default();
    let pos = GridPosition::new(1, 1);
    let e1 = 1u64;
    let e2 = 2u64;
    assert!(map.insert(pos, e1));
    assert!(!map.insert(pos, e2));
    assert_eq!(map.get(&pos), Some(e1));
}

#[test]
fn building_map_remove() {
    let mut map = BuildingMap::default();
    let pos = GridPosition::new(2, 2);
    let entity = 9u64;
    map.insert(pos, entity);
    assert_eq!(map.remove(&pos), Some(entity));
    assert!(!map.is_occupied(&pos));
    assert_eq!(map.remove(&pos), None);
}

#[test]
fn building_map_keeps_cells_apart() {
    let mut map = BuildingMap::new();
    assert!(map.insert(GridPosition::new(0, 1), 10));
    assert!(map.insert(GridPosition::new(1, 0), 11));
    assert!(map.insert(GridPosition::new(u32::MAX, u32::MAX), 12));
    assert_eq!(map.get(&GridPosition::new(0, 1)), Some(10));
    assert_eq!(map.get(&GridPosition::new(1, 0)), Some(11));
    assert_eq!(map.get(&GridPosition::new(u32::MAX, u32::MAX)), Some(12));
    assert_eq!(map.get(&GridPosition::new(1, 1)), None);
}

#[test]
fn building_names() {
    assert_eq!(BuildingType::MiningDrill.name(), "Mining Drill");
    assert_eq!(BuildingType::TransportLine.name(), "Transport Line");
    let b = Building { building_type: BuildingType::Generator };
    assert_eq!(b.building_type.name(), "Generator");
}

// ------------------------------------------------------------------ mining

#[test]
fn drill_extracts_over_time() {
    let mut node = ResourceNode::new(ItemType::CopperOre, 100);
    let mut inv = Inventory::new(50);
    let mut skills = PlayerSkills::default();
    node.extract_into(&mut inv, &mut skills, 0);
    assert_eq!(inv.count(ItemType::CopperOre), 0);
    node.extract_into(&mut inv, &mut skills, 1);
    assert_eq!(inv.count(ItemType::CopperOre), 1);
}

#[test]
fn drill_stops_when_inventory_full() {
    let mut node = ResourceNode::new(ItemType::CopperOre, 100);
    let mut inv = Inventory::new(5);
    let mut skills = PlayerSkills::default();
    for _ in 0..20 {
        node.extract_into(&mut inv, &mut skills, 10);
    }
    assert_eq!(inv.count(ItemType::CopperOre), 5);
    assert_eq!(node.remaining, 95);
}

#[test]
fn drill_stops_when_node_depleted() {
    let mut node = ResourceNode::new(ItemType::CopperOre, 3);
    let mut inv = Inventory::new(50);
    let mut skills = PlayerSkills::default();
    for _ in 0..10 {
        node.extract_into(&mut inv, &mut skills, 10);
    }
    assert_eq!(inv.count(ItemType::CopperOre), 3);
    assert!(node.is_depleted());
}

#[test]
fn mining_grants_xp() {
    let mut node = ResourceNode::new(ItemType::CopperOre, 100);
    let mut inv = Inventory::new(50);
    let mut skills = PlayerSkills::default();
    node.extract_into(&mut inv, &mut skills, 10);
    assert_eq!(skills.get_level(SkillType::Mining).xp(), 50);
    assert_eq!(MINING_XP_PER_ITEM, 5);
}

#[test]
fn extraction_reports_when_blocked() {
    let mut node = ResourceNode::new(ItemType::IronOre, 10);
    let mut inv = Inventory::new(2);
    let mut skills = PlayerSkills::default();
    let e = node.extract_into(&mut inv, &mut skills, 5);
    assert_eq!(e.extracted, 2);
    assert!(e.blocked);
    let e = node.extract_into(&mut inv, &mut skills, 5);
    assert_eq!(e.extracted, 0);
    assert!(e.blocked);
    assert_eq!(skills.get_level(SkillType::Mining).xp(), 10);
    assert_eq!(node.remaining, 8);
}

// --------------------------------------------------------------- transport

fn run_line(line: &mut TransportLine, source: &mut Inventory, dest: &mut Inventory) {
    line.tick_transit();
    line.deliver_arrived(dest);
    line.pull_from(source);
}

#[test]
fn transport_moves_items() {
    let mut source = Inventory::new(100);
    let mut dest = Inventory::new(100);
    let mut line = TransportLine::new(1, 2, 2, 50);
    source.try_add(ItemType::CopperOre, 5);
    run_line(&mut line, &mut source, &mut dest);
    assert_eq!(source.count(ItemType::CopperOre), 0);
    assert_eq!(dest.count(ItemType::CopperOre), 0);
    run_line(&mut line, &mut source, &mut dest);
    assert_eq!(dest.count(ItemType::CopperOre), 0);
    run_line(&mut line, &mut source, &mut dest);
    assert_eq!(dest.count(ItemType::CopperOre), 5);
}

#[test]
fn transport_respects_destination_capacity() {
    let mut source = Inventory::new(100);
    let mut dest = Inventory::new(3);
    let mut line = TransportLine::new(1, 2, 1, 50);
    source.try_add(ItemType::IronOre, 10);
    run_line(&mut line, &mut source, &mut dest);
    run_line(&mut line, &mut source, &mut dest);
    assert_eq!(dest.count(ItemType::IronOre), 3);
}

#[test]
fn transport_respects_line_capacity() {
    let mut source = Inventory::new(100);
    let mut dest = Inventory::new(100);
    let mut line = TransportLine::new(1, 2, 5, 4);
    source.try_add(ItemType::CopperOre, 10);
    run_line(&mut line, &mut source, &mut dest);
    assert_eq!(source.count(ItemType::CopperOre), 6);
}

#[test]
fn transport_partial_delivery_keeps_rest_on_line() {
    let mut source = Inventory::new(100);
    let mut dest = Inventory::new(3);
    let mut line = TransportLine::new(1, 2, 1, 50);
    source.try_add(ItemType::IronOre, 10);
    run_line(&mut line, &mut source, &mut dest);
    run_line(&mut line, &mut source, &mut dest);
    assert_eq!(line.items_in_transit_count(), 7);
    assert_eq!(line.space_available(), 43);
    assert_eq!(line.items_in_transit()[0].quantity, 7);
}

#[test]
fn transport_filter_only_carries_its_item() {
    let mut source = Inventory::new(100);
    let mut line = TransportLine::with_transit_items(1, 2, 3, 10, Some(ItemType::IronOre), Vec::new());
    source.try_add(ItemType::CopperOre, 5);
    source.try_add(ItemType::IronOre, 4);
    line.pull_from(&mut source);
    assert_eq!(source.count(ItemType::CopperOre), 5);
    assert_eq!(source.count(ItemType::IronOre), 0);
    assert_eq!(
        line.items_in_transit().to_vec(),
        vec![TransitItem { item: ItemType::IronOre, quantity: 4, ticks_remaining: 3 }]
    );
}

// ------------------------------------------------------------------- stats

#[test]
fn tracker_starts_at_zero() {
    let mut tracker = ThroughputTracker::new();
    assert_eq!(tracker.record(0), 0);
}

#[test]
fn stable_inventory_has_zero_throughput() {
    let inv = Inventory::new(1000);
    let mut tracker = ThroughputTracker::new();
    let mut last = u32::MAX;
    for _ in 0..TRACKING_WINDOW {
        last = tracker.observe(&inv);
    }
    assert_eq!(last, 0);
}

#[test]
fn tracker_reflects_additions() {
    let mut inv = Inventory::new(1000);
    let mut tracker = ThroughputTracker::new();
    for _ in 0..10 {
        tracker.observe(&inv);
    }
    inv.try_add(ItemType::CopperOre, 100);
    let mut last = 0;
    for _ in 0..(TRACKING_WINDOW - 10) {
        last = tracker.observe(&inv);
    }
    assert!(last > 0);
    assert_eq!(last, 100);
}

#[test]
fn tracker_compares_with_total_one_window_ago() {
    let mut tracker = ThroughputTracker::default();
    for t in 0..TRACKING_WINDOW as u32 {
        tracker.record(t);
    }
    assert_eq!(tracker.record(1000), 1000);
    assert_eq!(tracker.record(5), 4);
    assert_eq!(tracker.record(0), 0);
}

// --------------------------------------------------------------- blueprints

#[test]
fn empty_blueprint() {
    let bp = Blueprint::new("empty");
    assert_eq!(bp.name, "empty");
    assert!(bp.entries.is_empty());
}

#[test]
fn from_buildings_computes_offsets() {
    let buildings = vec![
        (5, 5, BuildingType::MiningDrill, None),
        (7, 5, BuildingType::Smelter, Some("Smelt Copper".to_string())),
        (5, 7, BuildingType::Generator, None),
    ];
    let bp = Blueprint::from_buildings("test", &buildings);
    assert_eq!(bp.entries.len(), 3);
    assert_eq!(bp.entries[0].offset, (0, 0));
    assert_eq!(bp.entries[0].building_type, BuildingType::MiningDrill);
    assert_eq!(bp.entries[1].offset, (2, 0));
    assert_eq!(bp.entries[1].building_type, BuildingType::Smelter);
    assert_eq!(bp.entries[1].recipe_name, Some("Smelt Copper".to_string()));
    assert_eq!(bp.entries[2].offset, (0, 2));
    assert_eq!(bp.entries[2].building_type, BuildingType::Generator);
}

#[test]
fn from_buildings_with_single_building() {
    let buildings = vec![(10, 20, BuildingType::Assembler, Some("Test".to_string()))];
    let bp = Blueprint::from_buildings("single", &buildings);
    assert_eq!(bp.entries.len(), 1);
    assert_eq!(bp.entries[0].offset, (0, 0));
}

#[test]
fn from_empty_buildings() {
    let bp = Blueprint::from_buildings("none", &[]);
    assert!(bp.entries.is_empty());
}

#[test]
fn offset_calculation_with_non_zero_origin() {
    let buildings = vec![
        (10, 20, BuildingType::MiningDrill, None),
        (12, 22, BuildingType::Smelter, None),
        (11, 21, BuildingType::Generator, None),
    ];
    let bp = Blueprint::from_buildings("offset test", &buildings);
    assert_eq!(bp.entries[0].offset, (0, 0));
    assert_eq!(bp.entries[1].offset, (2, 2));
    assert_eq!(bp.entries[2].offset, (1, 1));
}

#[test]
fn blueprint_entry_clone_is_equal() {
    let bp = Blueprint::from_buildings("c", &[(4, 9, BuildingType::Smelter, Some("Smelt Iron".to_string()))]);
    let copy = bp.entries[0].clone();
    assert_eq!(copy.offset, (0, 0));
    assert_eq!(copy.recipe_name.as_deref(), Some("Smelt Iron"));
    assert_eq!(bp.name, "c");
}

#[test]
fn machine_restored_from_save_continues_its_cycle() {
    let mut inv = Inventory::new(10);
    let mut machine = Machine::with_state(copper_smelting_recipe(), 1, true);
    assert!(machine.is_processing());
    machine.step(&mut inv, 1);
    assert!(!machine.is_processing());
    assert_eq!(inv.count(ItemType::CopperIngot), 1);
}

#[test]
fn placement_rules() {
    assert!(is_valid_placement(BuildingType::MiningDrill, Some(TileType::CopperDeposit), false));
    assert!(!is_valid_placement(BuildingType::MiningDrill, Some(TileType::Empty), false));
    assert!(!is_valid_placement(BuildingType::MiningDrill, Some(TileType::IronDeposit), true));
    assert!(!is_valid_placement(BuildingType::Smelter, Some(TileType::Rock), false));
    assert!(is_valid_placement(BuildingType::Smelter, None, false));
    assert!(is_valid_placement(BuildingType::TransportLine, Some(TileType::Empty), true));
}

#[test]
fn paste_target_offsets_from_origin_and_clips_to_grid() {
    assert_eq!(paste_target(GridPosition::new(10, 20), (2, 3), 32, 32), Some(GridPosition::new(12, 23)));
    assert_eq!(paste_target(GridPosition::new(0, 0), (-1, 0), 32, 32), None);
    assert_eq!(paste_target(GridPosition::new(31, 0), (1, 0), 32, 32), None);
    let bp = Blueprint::from_buildings("b", &[(12, 22, BuildingType::Smelter, None), (10, 20, BuildingType::Generator, None)]);
    assert_eq!(paste_target(GridPosition::new(10, 20), bp.entries[0].offset, 32, 32), Some(GridPosition::new(12, 22)));
}

#[test]
fn restore_inventory_adds_saved_items_in_order_up_to_capacity() {
    let inv = restore_inventory(&Some((10, vec![(ItemType::IronOre, 6), (ItemType::CopperOre, 7)])));
    assert_eq!(inv.capacity, 10);
    assert_eq!(inv.count(ItemType::IronOre), 6);
    assert_eq!(inv.count(ItemType::CopperOre), 4);
    let inv = restore_inventory(&Some((10, vec![(ItemType::CopperOre, 7), (ItemType::IronOre, 6)])));
    assert_eq!(inv.count(ItemType::CopperOre), 7);
    assert_eq!(inv.count(ItemType::IronOre), 3);
    let none = restore_inventory(&None);
    assert_eq!(none.capacity, 0);
    assert!(none.is_empty());
}

#[test]
fn transport_step_moves_items_between_inventories_and_conserves_them() {
    let mut src = Inventory::new(100);
    src.try_add(ItemType::IronOre, 5);
    let dst = Inventory::new(100);
    let owners = vec![1u64, 2u64];
    let mut invs = vec![src, dst];
    let mut lines = vec![TransportLine::new(1, 2, 1, 10), TransportLine::new(1, 99, 1, 10)];
    let total = |invs: &Vec<Inventory>, lines: &Vec<TransportLine>| -> u32 {
        invs.iter().map(|i| i.total_count()).sum::<u32>()
            + lines.iter().map(|l| l.items_in_transit_count()).sum::<u32>()
    };
    assert_eq!(total(&invs, &lines), 5);
    transport_step(&mut lines, &owners, &mut invs);
    assert_eq!(invs[0].count(ItemType::IronOre), 0);
    assert_eq!(lines[0].items_in_transit_count(), 5);
    assert_eq!(lines[1].items_in_transit_count(), 0);
    assert_eq!(total(&invs, &lines), 5);
    transport_step(&mut lines, &owners, &mut invs);
    assert_eq!(invs[1].count(ItemType::IronOre), 5);
    assert_eq!(lines[0].items_in_transit_count(), 0);
    assert_eq!(total(&invs, &lines), 5);
}

#[test]
fn machine_with_a_repeated_input_consumes_their_sum() {
    let recipe = Recipe::new(
        "Double Press",
        vec![ItemStack::new(ItemType::IronOre, 1), ItemStack::new(ItemType::IronOre, 2)],
        vec![ItemStack::new(ItemType::IronPlate, 1)],
        1,
    );
    let mut machine = Machine::new(recipe);
    let mut inv = Inventory::new(50);
    inv.try_add(ItemType::IronOre, 3);
    machine.step(&mut inv, 0);
    assert!(machine.is_processing());
    assert_eq!(inv.count(ItemType::IronOre), 0);
    assert_eq!(machine.recipe().name, "Double Press");
}

#[test]
fn filtered_line_pulls_only_its_item_and_each_item_is_conserved() {
    let mut src = Inventory::new(100);
    src.try_add(ItemType::IronOre, 4);
    src.try_add(ItemType::CopperOre, 6);
    let owners = vec![1u64, 2u64];
    let mut invs = vec![src, Inventory::new(100)];
    let mut line = TransportLine::new(1, 2, 1, 10);
    line.item_filter = Some(ItemType::CopperOre);
    let mut lines = vec![line];
    transport_step(&mut lines, &owners, &mut invs);
    assert!(lines[0].items_in_transit().iter().all(|t| t.item == ItemType::CopperOre));
    assert_eq!(invs[0].count(ItemType::IronOre), 4);
    assert_eq!(invs[0].count(ItemType::CopperOre), 0);
    transport_step(&mut lines, &owners, &mut invs);
    assert_eq!(invs[1].count(ItemType::CopperOre), 6);
    assert_eq!(invs[1].count(ItemType::IronOre), 0);
    assert_eq!(lines[0].capacity(), 10);
    assert_eq!(lines[0].item_filter(), Some(ItemType::CopperOre));
    assert_eq!(lines[0].source(), 1);
    assert_eq!(lines[0].destination(), 2);
    assert_eq!(lines[0].transit_ticks(), 1);
}

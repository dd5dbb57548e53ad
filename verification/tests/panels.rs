use std::collections::VecDeque;

use infinite_flux::blueprint::{can_paste, region_cells, BlueprintMode, Blueprints};
use infinite_flux::building::{BuildingMap, BuildingType, TransportClick, TransportLinePlacement};
use infinite_flux::client::{
    building_placed_notice, chat_send, resource_depleted_notice, FleetOrder, FleetUi, NotificationKind,
};
use infinite_flux::mining::ResourceNode;
use infinite_flux::common::{GridPosition, TileType};
use infinite_flux::inventory::Inventory;
use infinite_flux::item::ItemType;
use infinite_flux::logistics::{FreightRouteUi, LogisticsUiState, Waypoint, WaypointAction};
use infinite_flux::market_panel::{book_rows, chart_bounds, post_draft};
use infinite_flux::market_ui::{
    ContractBoardUi, ContractKindUi, ContractUiState, CreditsUi, MarketUiState, OrderBookUi, OrderSideUi, OrderUi,
};
use infinite_flux::messages::ClientMessage;
use infinite_flux::overview::{building_counts, power_health, stock_totals, PowerHealth};
use infinite_flux::save_ids::{number_for_save, LoadIds, SaveIds, MISSING_SAVE_ID, PLACEHOLDER_ENTITY};
use infinite_flux::galaxy::{apply_pending_warp, PendingWarp};
use infinite_flux::ship_fit::{fit_selection, fit_ship_names};

fn history(prices: &[i64]) -> VecDeque<CreditsUi> {
    prices.iter().map(|p| CreditsUi(*p)).collect()
}

#[test]
fn chart_bounds_need_two_points() {
    assert_eq!(chart_bounds(&history(&[])), None);
    assert_eq!(chart_bounds(&history(&[500])), None);
}

#[test]
fn chart_bounds_span_lowest_to_highest() {
    assert_eq!(chart_bounds(&history(&[700, 400, 900, 650])), Some((400, 900)));
}

#[test]
fn chart_bounds_widen_a_flat_history() {
    assert_eq!(chart_bounds(&history(&[1000, 1000, 1000])), Some((950, 1050)));
}

fn order(id: u64, side: OrderSideUi, price: i64) -> OrderUi {
    OrderUi { id, side, item: ItemType::IronOre, price: CreditsUi(price), quantity: 1, placed_by: 0 }
}

#[test]
fn book_rows_follow_the_longer_side_up_to_ten() {
    let mut book = OrderBookUi::new(ItemType::IronOre);
    assert_eq!(book_rows(&book), 0);
    for i in 0..3 {
        book.insert_sorted(order(i, OrderSideUi::Buy, 100 + i as i64));
    }
    book.insert_sorted(order(10, OrderSideUi::Sell, 900));
    assert_eq!(book_rows(&book), 3);
    for i in 0..12 {
        book.insert_sorted(order(20 + i, OrderSideUi::Sell, 1000 + i as i64));
    }
    assert_eq!(book_rows(&book), 10);
}

#[test]
fn price_and_quantity_entry_clamp() {
    let mut s = MarketUiState::default();
    s.enter_price(12, 34);
    assert_eq!(s.draft_price, CreditsUi(1234));
    s.enter_price(-5, 150);
    assert_eq!(s.draft_price, CreditsUi(99));
    s.enter_price(2_000_000, 0);
    assert_eq!(s.draft_price, CreditsUi(100_000_000));
    s.enter_quantity(0);
    assert_eq!(s.draft_quantity, 1);
    s.enter_quantity(50_000);
    assert_eq!(s.draft_quantity, 10_000);
    s.enter_quantity(7);
    s.enter_price(10, 50);
    assert_eq!(s.draft_total(), CreditsUi(7350));
}

#[test]
fn contract_draft_posts_as_anonymous_when_unnamed() {
    let mut state = ContractUiState::default();
    state.draft_poster = String::new();
    state.enter_quantity(25);
    state.enter_reward(300);
    let mut board = ContractBoardUi::default();
    let id = post_draft(&mut board, &state);
    assert_eq!(id, 0);
    let c = &board.contracts[0];
    assert_eq!(c.poster, "Anonymous");
    assert_eq!(c.kind, ContractKindUi::Courier);
    assert_eq!(c.quantity, 25);
    assert_eq!(c.reward, CreditsUi(30_000));
    assert!(c.accepted_by.is_none());
    state.draft_poster = "Guild".to_string();
    assert_eq!(post_draft(&mut board, &state), 1);
    assert_eq!(board.contracts[1].poster, "Guild");
}

#[test]
fn accepting_takes_only_open_contracts() {
    let state = ContractUiState::default();
    let mut board = ContractBoardUi::default();
    post_draft(&mut board, &state);
    assert!(board.accept(0, 42));
    assert_eq!(board.contracts[0].accepted_by, Some(42));
    assert!(!board.accept(0, 7));
    assert_eq!(board.contracts[0].accepted_by, Some(42));
    assert!(!board.accept(5, 7));
}

#[test]
fn stock_totals_sum_over_inventories_in_item_order() {
    let mut a = Inventory::new(100);
    a.try_add(ItemType::IronOre, 5);
    a.try_add(ItemType::HullPlate, 2);
    let mut b = Inventory::new(100);
    b.try_add(ItemType::IronOre, 7);
    b.try_add(ItemType::CopperOre, 1);
    let totals = stock_totals(&[a, b, Inventory::new(10)]);
    assert_eq!(
        totals,
        vec![(ItemType::CopperOre, 1), (ItemType::IronOre, 12), (ItemType::HullPlate, 2)]
    );
    assert!(stock_totals(&[]).is_empty());
}

#[test]
fn building_counts_list_present_kinds_in_dashboard_order() {
    let kinds = [
        BuildingType::Generator,
        BuildingType::MiningDrill,
        BuildingType::Generator,
        BuildingType::Smelter,
        BuildingType::MiningDrill,
        BuildingType::MiningDrill,
    ];
    assert_eq!(
        building_counts(&kinds),
        vec![(BuildingType::MiningDrill, 3), (BuildingType::Smelter, 1), (BuildingType::Generator, 2)]
    );
    assert!(building_counts(&[]).is_empty());
}

#[test]
fn power_health_bands() {
    assert_eq!(power_health(100), PowerHealth::Full);
    assert_eq!(power_health(99), PowerHealth::Strained);
    assert_eq!(power_health(50), PowerHealth::Strained);
    assert_eq!(power_health(49), PowerHealth::Critical);
    assert_eq!(power_health(0), PowerHealth::Critical);
}

#[test]
fn logistics_editor_and_activation() {
    let mut s = LogisticsUiState::default();
    s.open = true;
    s.new_route();
    s.new_route();
    s.open_editor(0);
    assert_eq!(s.editing_route, Some(0));
    assert!(s.toggle_active(1));
    assert!(s.routes[1].active);
    assert!(!s.routes[0].active);
    assert!(!s.toggle_active(9));
    s.open_editor(7);
    s.clamp_editor();
    assert_eq!(s.editing_route, None);
    s.open_editor(1);
    s.close_editor();
    assert_eq!(s.editing_route, None);
    s.open_editor(1);
    s.close_panel();
    assert!(!s.open);
    assert_eq!(s.editing_route, None);
    assert_eq!(s.routes.len(), 2);
}

#[test]
fn waypoints_are_added_reordered_and_removed() {
    let mut r = FreightRouteUi::new("R");
    r.add_waypoint();
    r.add_waypoint();
    r.add_waypoint();
    assert_eq!(r.waypoints[0].body, "Mercurius");
    assert_eq!(r.waypoints[0].action, WaypointAction::Visit);
    r.waypoints[0].enter_quantity(1);
    r.waypoints[1].enter_quantity(2);
    r.waypoints[2].enter_quantity(99_999);
    r.move_waypoint_up(1);
    let q: Vec<u32> = r.waypoints.iter().map(|w| w.quantity).collect();
    assert_eq!(q, vec![2, 1, 10_000]);
    r.move_waypoint_down(1);
    let q: Vec<u32> = r.waypoints.iter().map(|w| w.quantity).collect();
    assert_eq!(q, vec![2, 10_000, 1]);
    r.move_waypoint_down(0);
    r.move_waypoint_up(1);
    let q: Vec<u32> = r.waypoints.iter().map(|w| w.quantity).collect();
    assert_eq!(q, vec![2, 10_000, 1]);
    r.remove_waypoint(0);
    assert_eq!(r.waypoints.len(), 2);
    let mut w = Waypoint::default();
    w.enter_quantity(-3);
    assert_eq!(w.quantity, 0);
}

#[test]
fn fleet_orders_announce_and_disengage() {
    let mut f = FleetUi::default();
    f.name = "Alpha Wing".to_string();
    let n = f.order(FleetOrder::Assemble);
    assert_eq!(n.text, "Alpha Wing: Assemble!");
    assert_eq!(n.kind, NotificationKind::Info);
    let n = f.order(FleetOrder::Engage);
    assert_eq!(n.text, "Alpha Wing: Engage primary");
    assert_eq!(n.kind, NotificationKind::Warning);
    f.engaged_target = Some("Drone Beta".to_string());
    assert_eq!(f.order(FleetOrder::Engage).text, "Alpha Wing: Engage Drone Beta");
    let n = f.order(FleetOrder::Disengage);
    assert_eq!(n.text, "Alpha Wing: Disengage");
    assert!(f.engaged_target.is_none());
    assert_eq!(f.order(FleetOrder::Warp).text, "Warp initiated");
}

#[test]
fn join_candidates_skip_hostiles_and_members() {
    let mut f = FleetUi::default();
    f.add_ship("Falcon");
    let ships = vec![
        ("Falcon".to_string(), false),
        ("Drone".to_string(), true),
        ("Corvette".to_string(), false),
        ("Hauler".to_string(), false),
    ];
    assert_eq!(f.join_candidates(&ships), vec!["Corvette".to_string(), "Hauler".to_string()]);
}

#[test]
fn chat_send_trims_and_clears() {
    let mut draft = "  hello there \t".to_string();
    match chat_send(&mut draft, true) {
        Some(ClientMessage::Chat { text }) => assert_eq!(text, "hello there"),
        other => panic!("expected a chat message, got {other:?}"),
    }
    assert!(draft.is_empty());
    let mut blank = "   ".to_string();
    assert!(chat_send(&mut blank, true).is_none());
    assert_eq!(blank, "   ");
    let mut offline = "hi".to_string();
    assert!(chat_send(&mut offline, false).is_none());
    assert!(offline.is_empty());
}

#[test]
fn blueprint_mode_transitions() {
    let m = BlueprintMode::default();
    assert_eq!(m, BlueprintMode::Inactive);
    let m = m.toggle();
    assert_eq!(m, BlueprintMode::Browsing);
    let m = m.copy_key();
    assert_eq!(m, BlueprintMode::CopySelectFirst);
    let (m, region) = m.copy_click(GridPosition::new(5, 2));
    assert_eq!(m, BlueprintMode::CopySelectSecond(GridPosition::new(5, 2)));
    assert!(region.is_none());
    let (m, region) = m.copy_click(GridPosition::new(3, 4));
    assert_eq!(m, BlueprintMode::Browsing);
    assert_eq!(region, Some((GridPosition::new(3, 2), GridPosition::new(5, 4))));
    assert_eq!(BlueprintMode::Pasting(2).after_delete(2), BlueprintMode::Browsing);
    assert_eq!(BlueprintMode::Pasting(3).after_delete(1), BlueprintMode::Pasting(2));
    assert_eq!(BlueprintMode::Pasting(0).after_delete(1), BlueprintMode::Pasting(0));
    assert_eq!(BlueprintMode::Pasting(0).toggle(), BlueprintMode::Inactive);
    assert_eq!(BlueprintMode::Pasting(0).copy_key(), BlueprintMode::Pasting(0));
}

#[test]
fn region_cells_go_column_by_column() {
    let cells = region_cells(GridPosition::new(1, 5), GridPosition::new(2, 7));
    let expected: Vec<GridPosition> = [(1, 5), (1, 6), (1, 7), (2, 5), (2, 6), (2, 7)]
        .iter()
        .map(|(x, y)| GridPosition::new(*x, *y))
        .collect();
    assert_eq!(cells, expected);
    assert_eq!(region_cells(GridPosition::new(4, 4), GridPosition::new(4, 4)), vec![GridPosition::new(4, 4)]);
}

#[test]
fn save_copy_names_blueprints_by_number() {
    let mut bps = Blueprints::default();
    assert!(!bps.save_copy(&[]));
    assert!(bps.blueprints.is_empty());
    assert!(bps.save_copy(&[(3, 4, BuildingType::Smelter, Some("Smelt Iron".to_string()))]));
    assert!(bps.save_copy(&[(1, 1, BuildingType::Generator, None), (2, 1, BuildingType::Generator, None)]));
    assert_eq!(bps.blueprints[0].name, "Blueprint 1");
    assert_eq!(bps.blueprints[1].name, "Blueprint 2");
    assert_eq!(bps.blueprints[1].entries.len(), 2);
}

#[test]
fn paste_skips_transport_lines_and_follows_placement_rules() {
    assert!(!can_paste(BuildingType::TransportLine, Some(TileType::Empty), false));
    assert!(can_paste(BuildingType::MiningDrill, Some(TileType::IronDeposit), false));
    assert!(!can_paste(BuildingType::MiningDrill, Some(TileType::Empty), false));
    assert!(!can_paste(BuildingType::Smelter, Some(TileType::Empty), true));
    assert!(!can_paste(BuildingType::Assembler, Some(TileType::Rock), false));
    assert!(can_paste(BuildingType::Generator, Some(TileType::Empty), false));
}

#[test]
fn transport_tool_connects_two_buildings() {
    let mut map = BuildingMap::new();
    map.insert(GridPosition::new(1, 1), 100);
    map.insert(GridPosition::new(4, 1), 200);
    let mut tool = TransportLinePlacement::default();
    assert_eq!(tool.click(GridPosition::new(9, 9), &map), TransportClick::Ignored);
    assert_eq!(tool.source, None);
    assert_eq!(tool.click(GridPosition::new(1, 1), &map), TransportClick::SourceMarked);
    assert_eq!(tool.source, Some(GridPosition::new(1, 1)));
    assert_eq!(tool.click(GridPosition::new(9, 9), &map), TransportClick::Ignored);
    assert_eq!(tool.source, Some(GridPosition::new(1, 1)));
    assert_eq!(
        tool.click(GridPosition::new(4, 1), &map),
        TransportClick::Connect { source: 100, destination: 200, source_pos: GridPosition::new(1, 1) }
    );
    assert_eq!(tool.source, None);
    tool.click(GridPosition::new(4, 1), &map);
    map.remove(&GridPosition::new(4, 1));
    assert_eq!(tool.click(GridPosition::new(1, 1), &map), TransportClick::SourceLost);
    assert_eq!(tool.source, None);
}

#[test]
fn save_ids_are_sequential_and_missing_refs_are_max() {
    let mut ids = SaveIds::new();
    assert_eq!(ids.assign(900), 0);
    assert_eq!(ids.assign(17), 1);
    assert_eq!(ids.assign(5), 2);
    assert_eq!(ids.id_of(17), 1);
    assert_eq!(ids.id_of(900), 0);
    assert_eq!(ids.id_of(4), MISSING_SAVE_ID);
    assert_eq!(MISSING_SAVE_ID, u32::MAX);
}

#[test]
fn placement_and_depletion_notices() {
    let n = building_placed_notice(BuildingType::MiningDrill);
    assert_eq!(n.text, "Building placed: Mining Drill");
    assert_eq!(n.kind, NotificationKind::Info);
    assert!(resource_depleted_notice(&ResourceNode::new(ItemType::IronOre, 3)).is_none());
    let n = resource_depleted_notice(&ResourceNode::new(ItemType::CopperOre, 0)).expect("depleted node alerts");
    assert_eq!(n.text, "Resource depleted! (Copper Ore node exhausted)");
    assert_eq!(n.kind, NotificationKind::Alert);
}

#[test]
fn warp_makes_only_the_target_active() {
    let mut pending = PendingWarp::default();
    let mut systems = vec![(0, true), (1, false), (2, false)];
    assert!(!pending.order(0, true));
    assert_eq!(pending.target_index, None);
    apply_pending_warp(&mut pending, &mut systems);
    assert_eq!(systems, vec![(0, true), (1, false), (2, false)]);
    assert!(pending.order(2, false));
    apply_pending_warp(&mut pending, &mut systems);
    assert_eq!(systems, vec![(0, false), (1, false), (2, true)]);
    assert_eq!(pending.target_index, None);
}

#[test]
fn save_numbers_nodes_first_then_buildings() {
    let ids = number_for_save(&[70, 71], &[10, 11, 12]);
    assert_eq!(ids.id_of(70), 0);
    assert_eq!(ids.id_of(71), 1);
    assert_eq!(ids.id_of(10), 2);
    assert_eq!(ids.id_of(12), 4);
    assert_eq!(ids.id_of(5), MISSING_SAVE_ID);
}

#[test]
fn load_remaps_saved_targets_to_restored_entities() {
    // A drill saved with target node id 1; the node restored as entity 500.
    let map = LoadIds::from_records(&[(0, 400), (1, 500), (2, 600)]);
    assert_eq!(map.resolve(1), 500);
    assert_eq!(map.resolve(2), 600);
    assert_eq!(map.resolve(MISSING_SAVE_ID), PLACEHOLDER_ENTITY);
    let mut m = LoadIds::new();
    m.record(7, 70);
    assert_eq!(m.resolve(7), 70);
    assert_eq!(m.resolve(8), PLACEHOLDER_ENTITY);
}

#[test]
fn fitting_lists_own_ships_sorted_and_clamps_the_choice() {
    let ships = vec![
        ("Falcon".to_string(), false),
        ("Silica Drone".to_string(), true),
        ("Corvette".to_string(), false),
        ("Albatross".to_string(), false),
        ("Corvette".to_string(), false),
    ];
    assert_eq!(fit_ship_names(&ships), vec!["Albatross", "Corvette", "Corvette", "Falcon"]);
    assert!(fit_ship_names(&[]).is_empty());
    assert_eq!(fit_selection(None, 4), 0);
    assert_eq!(fit_selection(Some(2), 4), 2);
    assert_eq!(fit_selection(Some(9), 4), 3);
    assert_eq!(fit_selection(Some(5), 0), 0);
}

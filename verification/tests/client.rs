use infinite_flux::cargo::{cargo_used, transfer, ShipCargo, StationStorage};
use infinite_flux::client::{handle_server_message, ChatMessages, FleetUi, ViewMode, CHAT_HISTORY_MAX};
use infinite_flux::item::ItemType;
use infinite_flux::logistics::{LogisticsUiState, Waypoint, WaypointAction};
use infinite_flux::market_ui::{
    init_contracts_ui, init_markets_ui, match_order_ui, submit_order_ui, ui_market_items, validate_order_ui, ContractBoardUi,
    ContractKindUi, ContractUi, CreditsUi, MarketUiState, MarketsUi, OrderBookUi, OrderSideUi, OrderUi,
    PRICE_HISTORY_MAX,
};
use infinite_flux::messages::{ServerMessage, WorldSnapshot};
use infinite_flux::tutorial::{tutorial_steps, TutorialObservations, TutorialState};
use infinite_flux::destinations::{collect_destinations, OrbitalKind};

// ---------------------------------------------------------------- logistics

#[test]
fn new_route_opens_editor() {
    let mut state = LogisticsUiState::default();
    assert!(state.routes.is_empty());
    assert_eq!(state.editing_route, None);
    let idx = state.new_route();
    assert_eq!(idx, 0);
    assert_eq!(state.routes.len(), 1);
    assert_eq!(state.editing_route, Some(0));
}

#[test]
fn delete_route_closes_editor_when_target() {
    let mut state = LogisticsUiState::default();
    state.new_route();
    assert_eq!(state.editing_route, Some(0));
    let deleted = state.delete_route(0);
    assert!(deleted);
    assert!(state.routes.is_empty());
    assert_eq!(state.editing_route, None);
}

#[test]
fn delete_route_shifts_editor_index() {
    let mut state = LogisticsUiState::default();
    state.new_route();
    state.new_route();
    state.new_route();
    assert!(state.delete_route(1));
    assert_eq!(state.routes.len(), 2);
    assert_eq!(state.editing_route, Some(1));
}

#[test]
fn delete_route_out_of_range_is_noop() {
    let mut state = LogisticsUiState::default();
    assert!(!state.delete_route(0));
    assert!(!state.delete_route(999));
}

#[test]
fn clamp_editor_closes_if_out_of_range() {
    let mut state = LogisticsUiState::default();
    state.editing_route = Some(5);
    state.clamp_editor();
    assert_eq!(state.editing_route, None);
    state.new_route();
    state.editing_route = Some(0);
    state.clamp_editor();
    assert_eq!(state.editing_route, Some(0));
}

#[test]
fn new_route_has_default_name_and_no_waypoints() {
    let mut state = LogisticsUiState::default();
    state.new_route();
    state.new_route();
    assert_eq!(state.routes[0].name, "Route 1");
    assert_eq!(state.routes[1].name, "Route 2");
    assert!(state.routes[0].waypoints.is_empty());
    assert!(!state.routes[0].active);
    assert!(state.routes[0].ship.is_empty());
}

#[test]
fn waypoint_default_is_sane() {
    let wp = Waypoint::default();
    assert_eq!(wp.action, WaypointAction::Visit);
    assert_eq!(wp.quantity, 10);
    assert_eq!(wp.system, "Sol");
}

#[test]
fn waypoint_action_has_three_variants() {
    assert_eq!(WaypointAction::all().len(), 3);
    assert_eq!(WaypointAction::Unload.label(), "Unload");
}

#[test]
fn deleting_earlier_route_keeps_editor_on_same_route() {
    let mut state = LogisticsUiState::default();
    for _ in 0..4 {
        state.new_route();
    }
    state.editing_route = Some(2);
    assert!(state.delete_route(0));
    assert_eq!(state.editing_route, Some(1));
    assert_eq!(state.routes[1].name, "Route 3");
    assert!(state.delete_route(3) == false);
    assert_eq!(state.new_route(), 3);
    assert_eq!(state.routes[3].name, "Route 4");
}

// ----------------------------------------------------------------- tutorial

#[test]
fn tutorial_state_starts_active_when_flag_missing() {
    let total = tutorial_steps().len() as u32;
    let state = TutorialState { current_step: 0, active: true, total_steps: total, has_panned: false };
    assert_eq!(state.current_step, 0);
    assert!(state.active);
    assert_eq!(state.total_steps, total);
    assert_eq!(TutorialState::new_for_first_run(false), state);
    assert!(!TutorialState::new_for_first_run(true).active);
}

#[test]
fn tutorial_advance_moves_forward() {
    let total = tutorial_steps().len() as u32;
    let mut state = TutorialState { current_step: 0, active: true, total_steps: total, has_panned: false };
    state.advance();
    assert_eq!(state.current_step, 1);
    assert!(state.active);
}

#[test]
fn tutorial_advance_past_end_completes() {
    let total = tutorial_steps().len() as u32;
    let mut state = TutorialState { current_step: total - 1, active: true, total_steps: total, has_panned: false };
    assert!(state.advance());
    assert!(!state.active);
}

#[test]
fn tutorial_inactive_advance_noop() {
    let total = tutorial_steps().len() as u32;
    let mut state = TutorialState { current_step: 0, active: false, total_steps: total, has_panned: false };
    state.advance();
    assert_eq!(state.current_step, 0);
    assert!(!state.active);
}

#[test]
fn tutorial_steps_are_nonempty_and_unique() {
    let steps = tutorial_steps();
    assert!(!steps.is_empty());
    for s in &steps {
        assert!(!s.message.is_empty());
        assert!(!s.hint.is_empty());
    }
}

#[test]
fn tutorial_update_follows_the_steps() {
    let mut state = TutorialState::new_for_first_run(false);
    let none = TutorialObservations {
        panned: false,
        generator_placed: false,
        drill_placed: false,
        transport_exists: false,
        smelter_placed: false,
        stats_open: false,
    };
    assert!(!state.update(TutorialObservations { generator_placed: true, ..none }));
    assert_eq!(state.current_step, 0);
    state.update(TutorialObservations { panned: true, ..none });
    assert_eq!(state.current_step, 1);
    state.update(TutorialObservations { generator_placed: true, ..none });
    state.update(TutorialObservations { drill_placed: true, ..none });
    state.update(TutorialObservations { transport_exists: true, ..none });
    state.update(TutorialObservations { smelter_placed: true, ..none });
    assert_eq!(state.current_step, 5);
    assert!(state.update(TutorialObservations { stats_open: true, ..none }));
    assert!(!state.active);
    assert_eq!(state.current_step, 6);
}

// -------------------------------------------------------------------- cargo

#[test]
fn ship_cargo_add_and_remove() {
    let mut c = ShipCargo::default();
    c.add(ItemType::CopperOre, 10);
    c.add(ItemType::CopperOre, 5);
    assert_eq!(c.get(ItemType::CopperOre), 15);
    let removed = c.remove(ItemType::CopperOre, 7);
    assert_eq!(removed, 7);
    assert_eq!(c.get(ItemType::CopperOre), 8);
    let removed = c.remove(ItemType::CopperOre, 100);
    assert_eq!(removed, 8);
    assert_eq!(c.get(ItemType::CopperOre), 0);
}

#[test]
fn transfer_respects_capacity() {
    let mut cargo = ShipCargo::default();
    let mut storage = StationStorage::default();
    storage.add(ItemType::IronOre, 50);
    let moved = transfer(&mut cargo, &mut storage, 10, ItemType::IronOre, 20, true);
    assert_eq!(moved, 10);
    assert_eq!(cargo.get(ItemType::IronOre), 10);
    assert_eq!(storage.get(ItemType::IronOre), 40);
    let moved = transfer(&mut cargo, &mut storage, 10, ItemType::IronOre, 5, true);
    assert_eq!(moved, 0);
}

#[test]
fn transfer_ship_to_station_limited_by_cargo() {
    let mut cargo = ShipCargo::default();
    cargo.add(ItemType::CopperIngot, 3);
    let mut storage = StationStorage::default();
    let moved = transfer(&mut cargo, &mut storage, 100, ItemType::CopperIngot, 10, false);
    assert_eq!(moved, 3);
    assert_eq!(cargo.get(ItemType::CopperIngot), 0);
    assert_eq!(storage.get(ItemType::CopperIngot), 3);
}

#[test]
fn cargo_used_sums_every_entry() {
    let mut c = ShipCargo::default();
    c.add(ItemType::IronOre, 25);
    c.add(ItemType::CopperOre, 25);
    c.add(ItemType::HullPlate, 0);
    assert_eq!(cargo_used(&c), 50);
    assert_eq!(c.items.len(), 2);
    c.add(ItemType::IronOre, u32::MAX);
    assert_eq!(c.get(ItemType::IronOre), u32::MAX);
}

// ------------------------------------------------------- view, fleet, chat

#[test]
fn view_mode_toggle_cycles() {
    let mut m = ViewMode::default();
    assert_eq!(m, ViewMode::Surface);
    m = m.toggle();
    assert_eq!(m, ViewMode::System);
    m = m.toggle();
    assert_eq!(m, ViewMode::Galaxy);
    m = m.toggle();
    assert_eq!(m, ViewMode::Surface);
}

#[test]
fn fleet_add_remove() {
    let mut f = FleetUi::default();
    assert!(f.add_ship("Falcon"));
    assert!(f.add_ship("Corvette"));
    assert!(!f.add_ship("Falcon"));
    assert_eq!(f.member_count(), 2);
    assert!(f.remove_ship("Falcon"));
    assert!(!f.remove_ship("Falcon"));
    assert_eq!(f.member_count(), 1);
}

#[test]
fn chat_keeps_only_the_newest_lines() {
    let mut chat = ChatMessages::default();
    for i in 0..(CHAT_HISTORY_MAX + 3) {
        chat.push("a".to_string(), format!("msg {i}"));
    }
    assert_eq!(chat.entries.len(), CHAT_HISTORY_MAX);
    assert_eq!(chat.entries[0].text, "msg 3");
    assert_eq!(chat.entries[CHAT_HISTORY_MAX - 1].text, format!("msg {}", CHAT_HISTORY_MAX + 2));
}

#[test]
fn client_handles_server_messages() {
    let mut player_id = None;
    let mut chat = ChatMessages::default();
    handle_server_message(
        &mut player_id,
        &mut chat,
        ServerMessage::Welcome { player_id: 42, snapshot: WorldSnapshot::default() },
    );
    assert_eq!(player_id, Some(42));
    assert_eq!(chat.entries[0].from, "system");
    assert_eq!(chat.entries[0].text, "welcome! you are player 42");
    handle_server_message(
        &mut player_id,
        &mut chat,
        ServerMessage::Chat { from: "alice".to_string(), text: "hi".to_string() },
    );
    handle_server_message(&mut player_id, &mut chat, ServerMessage::Error { reason: "protocol mismatch".to_string() });
    handle_server_message(&mut player_id, &mut chat, ServerMessage::Pong { timestamp_ms: 5 });
    assert_eq!(chat.entries.len(), 3);
    assert_eq!(chat.entries[1].from, "alice");
    assert_eq!(chat.entries[2].from, "server");
    assert_eq!(chat.entries[2].text, "error: protocol mismatch");
}

// ------------------------------------------------------------------ market

fn fresh_markets() -> MarketsUi {
    MarketsUi { player_wallet: CreditsUi::from_whole(10_000), player_id: 1, ..Default::default() }
}

fn key(item: ItemType) -> u8 {
    item.index() as u8
}

#[test]
fn credits_display() {
    assert_eq!(CreditsUi(1050).display(), "10.50 cr");
    assert_eq!(CreditsUi(100).display(), "1.00 cr");
    assert_eq!(CreditsUi(-305).display(), "-3.05 cr");
}

#[test]
fn credits_display_of_small_negative_amount() {
    assert_eq!(CreditsUi(-5).display(), "-0.05 cr");
    assert_eq!(CreditsUi(i64::MIN).display(), "-92233720368547758.08 cr");
    assert_eq!((CreditsUi(150) - CreditsUi(200)).0, -50);
}

#[test]
fn insert_sorted_maintains_order() {
    let mut book = OrderBookUi::new(ItemType::CopperOre);
    let mk = |side, price_cents| OrderUi {
        id: 0,
        side,
        item: ItemType::CopperOre,
        price: CreditsUi(price_cents),
        quantity: 1,
        placed_by: 1,
    };
    book.insert_sorted(mk(OrderSideUi::Buy, 500));
    book.insert_sorted(mk(OrderSideUi::Buy, 700));
    book.insert_sorted(mk(OrderSideUi::Buy, 600));
    let prices: Vec<i64> = book.buys.iter().map(|o| o.price.0).collect();
    assert_eq!(prices, vec![700, 600, 500]);
    book.insert_sorted(mk(OrderSideUi::Sell, 900));
    book.insert_sorted(mk(OrderSideUi::Sell, 800));
    book.insert_sorted(mk(OrderSideUi::Sell, 1000));
    let prices: Vec<i64> = book.sells.iter().map(|o| o.price.0).collect();
    assert_eq!(prices, vec![800, 900, 1000]);
}

#[test]
fn buy_crosses_best_ask_executes_at_ask_price() {
    let mut m = fresh_markets();
    m.book_mut(ItemType::CopperOre).insert_sorted(OrderUi {
        id: 1,
        side: OrderSideUi::Sell,
        item: ItemType::CopperOre,
        price: CreditsUi::from_whole(5),
        quantity: 10,
        placed_by: 99,
    });
    let trades = match_order_ui(&mut m, OrderSideUi::Buy, ItemType::CopperOre, CreditsUi::from_whole(7), 4);
    assert_eq!(trades.len(), 1);
    assert_eq!(trades[0].price, CreditsUi::from_whole(5));
    assert_eq!(trades[0].quantity, 4);
    let book = m.book(ItemType::CopperOre).unwrap();
    assert_eq!(book.sells.len(), 1);
    assert_eq!(book.sells[0].quantity, 6);
    assert_eq!(book.last_price, Some(CreditsUi::from_whole(5)));
    assert_eq!(m.player_wallet, CreditsUi::from_whole(10_000 - 20));
    assert_eq!(m.holdings(ItemType::CopperOre), 4);
}

#[test]
fn sell_crosses_best_bid_executes_at_bid_price() {
    let mut m = fresh_markets();
    m.player_holdings.insert(key(ItemType::IronOre), 50);
    m.book_mut(ItemType::IronOre).insert_sorted(OrderUi {
        id: 1,
        side: OrderSideUi::Buy,
        item: ItemType::IronOre,
        price: CreditsUi::from_whole(8),
        quantity: 10,
        placed_by: 99,
    });
    let trades = match_order_ui(&mut m, OrderSideUi::Sell, ItemType::IronOre, CreditsUi::from_whole(6), 3);
    assert_eq!(trades.len(), 1);
    assert_eq!(trades[0].price, CreditsUi::from_whole(8));
    assert_eq!(m.player_wallet, CreditsUi::from_whole(10_000 + 24));
    assert_eq!(m.holdings(ItemType::IronOre), 47);
}

#[test]
fn partial_fill_leaves_remainder_on_book() {
    let mut m = fresh_markets();
    m.book_mut(ItemType::CopperIngot).insert_sorted(OrderUi {
        id: 1,
        side: OrderSideUi::Sell,
        item: ItemType::CopperIngot,
        price: CreditsUi::from_whole(10),
        quantity: 5,
        placed_by: 99,
    });
    let trades = match_order_ui(&mut m, OrderSideUi::Buy, ItemType::CopperIngot, CreditsUi::from_whole(20), 8);
    assert_eq!(trades.len(), 1);
    assert_eq!(trades[0].quantity, 5);
    let book = m.book(ItemType::CopperIngot).unwrap();
    assert!(book.sells.is_empty());
    assert_eq!(book.buys.len(), 1);
    assert_eq!(book.buys[0].quantity, 3);
    assert_eq!(book.buys[0].price, CreditsUi::from_whole(20));
}

#[test]
fn no_cross_means_order_rests() {
    let mut m = fresh_markets();
    m.book_mut(ItemType::HullPlate).insert_sorted(OrderUi {
        id: 1,
        side: OrderSideUi::Sell,
        item: ItemType::HullPlate,
        price: CreditsUi::from_whole(200),
        quantity: 5,
        placed_by: 99,
    });
    let trades = match_order_ui(&mut m, OrderSideUi::Buy, ItemType::HullPlate, CreditsUi::from_whole(150), 2);
    assert!(trades.is_empty());
    let book = m.book(ItemType::HullPlate).unwrap();
    assert_eq!(book.buys.len(), 1);
    assert_eq!(book.sells.len(), 1);
    assert_eq!(book.last_price, None);
    assert_eq!(m.player_wallet, CreditsUi::from_whole(10_000));
}

#[test]
fn price_history_ring_buffer_caps() {
    let mut book = OrderBookUi::new(ItemType::CopperOre);
    for i in 0..(PRICE_HISTORY_MAX as i64 + 5) {
        book.record_trade(CreditsUi(i));
    }
    assert_eq!(book.price_history.len(), PRICE_HISTORY_MAX);
    assert_eq!(book.price_history.front().copied(), Some(CreditsUi(5)));
    assert_eq!(book.price_history.back().copied(), Some(CreditsUi(PRICE_HISTORY_MAX as i64 + 4)));
}

#[test]
fn validate_buy_rejects_over_wallet() {
    let m = fresh_markets();
    let reason = validate_order_ui(&m, OrderSideUi::Buy, ItemType::CopperOre, CreditsUi(1_000_001), 1);
    assert!(reason.is_some());
    assert_eq!(reason.unwrap(), "Insufficient credits (need 10000.01 cr, have 10000.00 cr)");
}

#[test]
fn validate_sell_rejects_over_holdings() {
    let mut m = fresh_markets();
    m.player_holdings.insert(key(ItemType::IronOre), 5);
    let reason = validate_order_ui(&m, OrderSideUi::Sell, ItemType::IronOre, CreditsUi::from_whole(10), 6);
    assert!(reason.is_some());
    assert_eq!(reason.unwrap(), "Insufficient holdings (5 in stock, 6 requested)");
    let ok = validate_order_ui(&m, OrderSideUi::Sell, ItemType::IronOre, CreditsUi::from_whole(10), 5);
    assert!(ok.is_none());
}

#[test]
fn validate_rejects_zero_quantity_and_nonpositive_price() {
    let m = fresh_markets();
    assert!(validate_order_ui(&m, OrderSideUi::Buy, ItemType::CopperOre, CreditsUi::from_whole(1), 0).is_some());
    assert!(validate_order_ui(&m, OrderSideUi::Buy, ItemType::CopperOre, CreditsUi(0), 1).is_some());
    assert_eq!(
        validate_order_ui(&m, OrderSideUi::Sell, ItemType::CopperOre, CreditsUi(-1), 1).unwrap(),
        "Price must be positive"
    );
}

#[test]
fn contract_board_post_assigns_ids() {
    let mut board = ContractBoardUi::default();
    let id1 = board.post(ContractUi {
        id: 0,
        kind: ContractKindUi::Courier,
        item: ItemType::CopperOre,
        quantity: 10,
        reward: CreditsUi::from_whole(100),
        poster: "X".to_string(),
        accepted_by: None,
    });
    let id2 = board.post(ContractUi {
        id: 0,
        kind: ContractKindUi::Courier,
        item: ItemType::IronOre,
        quantity: 10,
        reward: CreditsUi::from_whole(100),
        poster: "Y".to_string(),
        accepted_by: None,
    });
    assert_ne!(id1, id2);
    assert_eq!(board.contracts.len(), 2);
    assert_eq!(board.contracts[1].id, id2);
}

#[test]
fn init_markets_ui_populates_all_items() {
    let mut markets = MarketsUi::default();
    init_markets_ui(&mut markets);
    assert_eq!(markets.player_wallet, CreditsUi::from_whole(10_000));
    for item in ui_market_items() {
        let book = markets.book(item).expect("book missing");
        assert!(!book.buys.is_empty(), "no bids for {item:?}");
        assert!(!book.sells.is_empty(), "no asks for {item:?}");
    }
}

#[test]
fn init_markets_ui_seeds_sorted_books_around_base_prices() {
    let mut markets = MarketsUi::default();
    init_markets_ui(&mut markets);
    assert_eq!(markets.next_order_id, 10_000);
    assert_eq!(markets.player_id, 1);
    assert_eq!(markets.books.len(), 9);
    let book = markets.book(ItemType::HullPlate).unwrap();
    assert_eq!(book.buys.len(), 3);
    assert_eq!(book.sells.len(), 3);
    assert_eq!(book.price_history.len(), 10);
    assert!(book.buys.windows(2).all(|w| w[0].price >= w[1].price));
    assert!(book.sells.windows(2).all(|w| w[0].price <= w[1].price));
    assert!(book.best_bid().unwrap() < CreditsUi(15_000));
    assert!(book.best_ask().unwrap() > CreditsUi(15_000));
    for item in ui_market_items() {
        assert_eq!(markets.holdings(item), 50);
    }
}

#[test]
fn init_contracts_ui_posts_three_jobs() {
    let mut board = ContractBoardUi::default();
    init_contracts_ui(&mut board);
    assert_eq!(board.contracts.len(), 3);
    assert_eq!(board.contracts[0].poster, "Mercurius Mining Co.");
    assert_eq!(board.contracts[1].kind, ContractKindUi::Manufacturing);
    assert_eq!(board.contracts[2].reward, CreditsUi::from_whole(2000));
    assert_eq!(board.next_id, 3);
    let s = MarketUiState::default();
    assert_eq!(s.draft_price, CreditsUi::from_whole(10));
}

#[test]
fn destinations_unique_and_exclude_star() {
    let bodies = vec![
        ("Sol".to_string(), OrbitalKind::Star, (0.0f32, 0.0f32)),
        ("Home".to_string(), OrbitalKind::Planet, (100.0, 0.0)),
        ("Home".to_string(), OrbitalKind::Planet, (100.0, 0.0)),
        ("Outer".to_string(), OrbitalKind::Planet, (500.0, 0.0)),
    ];
    let stations = vec![("Home Station".to_string(), (130.0f32, 0.0f32))];
    let dests = collect_destinations(&bodies, &stations);
    let names: Vec<&str> = dests.iter().map(|d| d.name.as_str()).collect();
    assert_eq!(names, vec!["Home", "Outer", "Home Station"]);
}

#[test]
fn destinations_station_and_planet_same_name_dedupes() {
    let bodies = vec![("Home".to_string(), OrbitalKind::Planet, (100.0f32, 0.0f32))];
    let stations = vec![("Home".to_string(), (130.0f32, 0.0f32))];
    let dests = collect_destinations(&bodies, &stations);
    assert_eq!(dests.len(), 1);
    assert_eq!(dests[0].position, (100.0, 0.0));
}

#[test]
fn submit_refuses_an_invalid_order_and_matches_a_valid_one() {
    let mut m = fresh_markets();
    m.book_mut(ItemType::CopperOre).insert_sorted(OrderUi {
        id: 1,
        side: OrderSideUi::Sell,
        item: ItemType::CopperOre,
        price: CreditsUi::from_whole(5),
        quantity: 10,
        placed_by: 99,
    });
    let refused = submit_order_ui(&mut m, OrderSideUi::Buy, ItemType::CopperOre, CreditsUi::from_whole(20_000), 1);
    assert_eq!(refused.unwrap_err(), "Insufficient credits (need 20000.00 cr, have 10000.00 cr)");
    assert_eq!(m.player_wallet, CreditsUi::from_whole(10_000));
    assert_eq!(m.book(ItemType::CopperOre).unwrap().sells[0].quantity, 10);
    let trades = submit_order_ui(&mut m, OrderSideUi::Buy, ItemType::CopperOre, CreditsUi::from_whole(7), 4).unwrap();
    assert_eq!(trades.len(), 1);
    assert_eq!(trades[0].price, CreditsUi::from_whole(5));
    assert_eq!(m.player_wallet, CreditsUi::from_whole(10_000 - 20));
    assert_eq!(m.holdings(ItemType::CopperOre), 4);
}

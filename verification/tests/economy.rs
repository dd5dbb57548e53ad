use infinite_flux::contract::{ContractBoard, ContractKind};
use infinite_flux::credits::Credits;
use infinite_flux::item::ItemType;
use infinite_flux::markets::Markets;
use infinite_flux::order_book::{Order, OrderBook, OrderSide};
use infinite_flux::price_history::PriceHistory;
use infinite_flux::wallet::{Corporation, Wallet};

// ---------------------------------------------------------------- credits

#[test]
fn from_whole_and_cents() {
    assert_eq!(Credits::from_whole(1).cents(), 100);
    assert_eq!(Credits::from_whole(0).cents(), 0);
    assert_eq!(Credits::from_cents(250).whole(), 2);
    assert_eq!(Credits::from_cents(99).whole(), 0);
}

#[test]
fn zero_is_additive_identity() {
    let a = Credits::from_whole(42);
    assert_eq!(a + Credits::zero(), a);
    assert_eq!(Credits::zero() + a, a);
}

#[test]
fn add_and_sub() {
    let a = Credits::from_whole(10);
    let b = Credits::from_cents(50);
    assert_eq!((a + b).cents(), 1050);
    assert_eq!((a - b).cents(), 950);
}

#[test]
fn neg_and_abs() {
    let a = Credits::from_whole(5);
    assert_eq!(-a, Credits::from_cents(-500));
    assert_eq!((-a).abs(), a);
    assert_eq!(a.abs(), a);
}

#[test]
fn add_assign_sub_assign() {
    let mut a = Credits::from_whole(10);
    a += Credits::from_whole(5);
    assert_eq!(a, Credits::from_whole(15));
    a -= Credits::from_whole(3);
    assert_eq!(a, Credits::from_whole(12));
}

#[test]
fn mul_by_scalar() {
    let price = Credits::from_cents(250);
    let total = price * 10i64;
    assert_eq!(total, Credits::from_whole(25));
    let total2 = 10i64 * price;
    assert_eq!(total, total2);
}

#[test]
fn mul_by_u32_quantity() {
    let price = Credits::from_cents(125);
    let total = price * 4u32;
    assert_eq!(total, Credits::from_whole(5));
    let total2 = 4u32 * price;
    assert_eq!(total, total2);
}

#[test]
fn div_truncates() {
    let a = Credits::from_whole(10);
    assert_eq!((a / 3).cents(), 333);
    assert_eq!((Credits::from_whole(10) / 4).cents(), 250);
}

#[test]
fn credits_display_format() {
    assert_eq!(Credits::from_whole(1234).to_display_string(), "1234.00 cr");
    assert_eq!(Credits::from_cents(123456).to_display_string(), "1234.56 cr");
    assert_eq!(Credits::from_cents(5).to_display_string(), "0.05 cr");
    assert_eq!(Credits::from_cents(-123456).to_display_string(), "-1234.56 cr");
    assert_eq!(Credits::zero().to_display_string(), "0.00 cr");
}

#[test]
fn ordering() {
    let a = Credits::from_whole(5);
    let b = Credits::from_whole(10);
    assert!(a < b);
    assert!(b > a);
    assert!(a <= a);
    assert!(a.lt(b));
    assert!(a.le(a));
    assert!(!b.lt(a));
}

#[test]
fn overflow_saturates_not_panics() {
    let huge = Credits::from_cents(i64::MAX);
    let more = huge + Credits::from_cents(1);
    assert_eq!(more.cents(), i64::MAX);
    let neg = Credits::from_cents(i64::MIN);
    let less = neg - Credits::from_cents(1);
    assert_eq!(less.cents(), i64::MIN);
}

#[test]
fn reasonable_game_values_do_not_overflow() {
    let price = Credits::from_whole(1_000_000);
    let qty = 1_000_000u32;
    let total = price * qty;
    assert!(total.cents() > 0);
    assert_eq!(total.whole(), 1_000_000_000_000);
}

#[test]
fn sign_predicates() {
    assert!(Credits::from_whole(1).is_positive());
    assert!(!Credits::from_whole(1).is_negative());
    assert!(Credits::from_whole(-1).is_negative());
    assert!(!Credits::from_whole(-1).is_positive());
    assert!(!Credits::zero().is_positive());
    assert!(!Credits::zero().is_negative());
}

#[test]
fn from_whole_saturates_at_the_cent_range() {
    assert_eq!(Credits::from_whole(i64::MAX).cents(), i64::MAX);
    assert_eq!(Credits::from_whole(i64::MIN).cents(), i64::MIN);
}

#[test]
fn negation_of_the_minimum_saturates() {
    assert_eq!((-Credits::from_cents(i64::MIN)).cents(), i64::MAX);
    assert_eq!(Credits::from_cents(i64::MIN).abs().cents(), i64::MAX);
}

#[test]
fn division_truncates_toward_zero_for_negatives() {
    assert_eq!((Credits::from_cents(-1000) / 3).cents(), -333);
    assert_eq!((Credits::from_cents(1000) / -3).cents(), -333);
    assert_eq!(Credits::from_cents(-250).whole(), -2);
}

#[test]
fn display_of_small_negative_amount_keeps_sign() {
    assert_eq!(Credits::from_cents(-5).to_display_string(), "-0.05 cr");
    assert_eq!(Credits::from_cents(-100).to_display_string(), "-1.00 cr");
}

#[test]
fn default_credits_are_zero() {
    assert_eq!(Credits::default(), Credits::zero());
}

// ---------------------------------------------------------- price history

#[test]
fn new_empty_history() {
    let h = PriceHistory::new(10);
    assert!(h.is_empty());
    assert!(h.latest().is_none());
    assert!(h.avg().is_none());
    assert!(h.min_max().is_none());
}

#[test]
fn record_adds_samples() {
    let mut h = PriceHistory::new(10);
    h.record(1, Credits::from_whole(10));
    h.record(2, Credits::from_whole(20));
    assert_eq!(h.len(), 2);
    assert_eq!(h.latest(), Some(Credits::from_whole(20)));
}

#[test]
fn ring_buffer_evicts_oldest() {
    let mut h = PriceHistory::new(3);
    h.record(1, Credits::from_whole(10));
    h.record(2, Credits::from_whole(20));
    h.record(3, Credits::from_whole(30));
    h.record(4, Credits::from_whole(40));
    assert_eq!(h.len(), 3);
    let ticks: Vec<u64> = h.samples.iter().map(|(t, _)| *t).collect();
    assert_eq!(ticks, vec![2, 3, 4]);
}

#[test]
fn avg_of_samples() {
    let mut h = PriceHistory::new(10);
    h.record(1, Credits::from_whole(10));
    h.record(2, Credits::from_whole(20));
    h.record(3, Credits::from_whole(30));
    assert_eq!(h.avg(), Some(Credits::from_whole(20)));
}

#[test]
fn avg_truncates_toward_zero() {
    let mut h = PriceHistory::new(10);
    h.record(1, Credits::from_cents(100));
    h.record(2, Credits::from_cents(101));
    assert_eq!(h.avg(), Some(Credits::from_cents(100)));
}

#[test]
fn min_max() {
    let mut h = PriceHistory::new(10);
    h.record(1, Credits::from_whole(10));
    h.record(2, Credits::from_whole(5));
    h.record(3, Credits::from_whole(20));
    h.record(4, Credits::from_whole(8));
    let (lo, hi) = h.min_max().unwrap();
    assert_eq!(lo, Credits::from_whole(5));
    assert_eq!(hi, Credits::from_whole(20));
}

#[test]
fn min_max_single_sample() {
    let mut h = PriceHistory::new(10);
    h.record(1, Credits::from_whole(7));
    let (lo, hi) = h.min_max().unwrap();
    assert_eq!(lo, Credits::from_whole(7));
    assert_eq!(hi, Credits::from_whole(7));
}

#[test]
fn zero_max_samples_clamped_to_one() {
    let mut h = PriceHistory::new(0);
    h.record(1, Credits::from_whole(5));
    h.record(2, Credits::from_whole(10));
    assert_eq!(h.len(), 1);
    assert_eq!(h.latest(), Some(Credits::from_whole(10)));
}

#[test]
fn default_has_reasonable_size() {
    let h = PriceHistory::default();
    assert!(h.max_samples >= 64);
}

#[test]
fn avg_of_negative_prices_truncates_toward_zero() {
    let mut h = PriceHistory::new(10);
    h.record(1, Credits::from_cents(-100));
    h.record(2, Credits::from_cents(-101));
    assert_eq!(h.avg(), Some(Credits::from_cents(-100)));
}

#[test]
fn window_keeps_last_samples_in_order() {
    let mut h = PriceHistory::new(2);
    for t in 0..5u64 {
        h.record(t, Credits::from_whole(t as i64));
    }
    let ticks: Vec<u64> = h.samples.iter().map(|(t, _)| *t).collect();
    assert_eq!(ticks, vec![3, 4]);
    assert_eq!(h.min_max(), Some((Credits::from_whole(3), Credits::from_whole(4))));
}

// -------------------------------------------------------------- order book

fn cr(whole: i64) -> Credits {
    Credits::from_whole(whole)
}

fn buy(id: u64, price: i64, qty: u32, placed_by: u64) -> Order {
    Order::new(id, OrderSide::Buy, ItemType::IronOre, cr(price), qty, placed_by)
}

fn sell(id: u64, price: i64, qty: u32, placed_by: u64) -> Order {
    Order::new(id, OrderSide::Sell, ItemType::IronOre, cr(price), qty, placed_by)
}

#[test]
fn new_book_is_empty() {
    let b = OrderBook::new(ItemType::IronOre);
    assert_eq!(b.item, ItemType::IronOre);
    assert!(b.best_bid().is_none());
    assert!(b.best_ask().is_none());
    assert!(b.last_price.is_none());
}

#[test]
fn resting_buy_no_match() {
    let mut b = OrderBook::new(ItemType::IronOre);
    let trades = b.submit(buy(1, 10, 5, 100), 0);
    assert!(trades.is_empty());
    assert_eq!(b.best_bid(), Some(cr(10)));
    assert_eq!(b.buys().len(), 1);
}

#[test]
fn resting_sell_no_match() {
    let mut b = OrderBook::new(ItemType::IronOre);
    let trades = b.submit(sell(1, 12, 5, 200), 0);
    assert!(trades.is_empty());
    assert_eq!(b.best_ask(), Some(cr(12)));
}

#[test]
fn buy_matches_sell_at_ask_price() {
    let mut b = OrderBook::new(ItemType::IronOre);
    b.submit(sell(1, 10, 5, 200), 0);
    let trades = b.submit(buy(2, 12, 5, 100), 1);
    assert_eq!(trades.len(), 1);
    let t = &trades[0];
    assert_eq!(t.price, cr(10));
    assert_eq!(t.quantity, 5);
    assert_eq!(t.buyer, 100);
    assert_eq!(t.seller, 200);
    assert_eq!(b.last_price, Some(cr(10)));
    assert!(b.sells().is_empty());
    assert!(b.buys().is_empty());
}

#[test]
fn sell_matches_buy_at_bid_price() {
    let mut b = OrderBook::new(ItemType::IronOre);
    b.submit(buy(1, 15, 5, 100), 0);
    let trades = b.submit(sell(2, 10, 5, 200), 1);
    assert_eq!(trades.len(), 1);
    assert_eq!(trades[0].price, cr(15));
    assert_eq!(b.last_price, Some(cr(15)));
}

#[test]
fn no_cross_when_spread_positive() {
    let mut b = OrderBook::new(ItemType::IronOre);
    b.submit(buy(1, 10, 5, 100), 0);
    let trades = b.submit(sell(2, 12, 5, 200), 1);
    assert!(trades.is_empty());
    assert_eq!(b.best_bid(), Some(cr(10)));
    assert_eq!(b.best_ask(), Some(cr(12)));
    assert_eq!(b.spread(), Some(cr(2)));
}

#[test]
fn partial_fill_taker_remainder_rests() {
    let mut b = OrderBook::new(ItemType::IronOre);
    b.submit(sell(1, 10, 3, 200), 0);
    let trades = b.submit(buy(2, 10, 10, 100), 1);
    assert_eq!(trades.len(), 1);
    assert_eq!(trades[0].quantity, 3);
    assert_eq!(b.best_bid(), Some(cr(10)));
    assert_eq!(b.buys()[0].quantity, 7);
    assert!(b.sells().is_empty());
}

#[test]
fn partial_fill_maker_remainder_on_book() {
    let mut b = OrderBook::new(ItemType::IronOre);
    b.submit(sell(1, 10, 10, 200), 0);
    let trades = b.submit(buy(2, 10, 3, 100), 1);
    assert_eq!(trades.len(), 1);
    assert_eq!(trades[0].quantity, 3);
    assert_eq!(b.sells()[0].quantity, 7);
    assert!(b.buys().is_empty());
}

#[test]
fn match_walks_multiple_levels() {
    let mut b = OrderBook::new(ItemType::IronOre);
    b.submit(sell(1, 10, 5, 200), 0);
    b.submit(sell(2, 11, 5, 201), 0);
    b.submit(sell(3, 12, 5, 202), 0);
    let trades = b.submit(buy(10, 11, 12, 100), 1);
    assert_eq!(trades.len(), 2);
    assert_eq!(trades[0].price, cr(10));
    assert_eq!(trades[0].quantity, 5);
    assert_eq!(trades[1].price, cr(11));
    assert_eq!(trades[1].quantity, 5);
    assert_eq!(b.best_bid(), Some(cr(11)));
    assert_eq!(b.buys()[0].quantity, 2);
    assert_eq!(b.best_ask(), Some(cr(12)));
}

#[test]
fn best_bid_sorted_descending() {
    let mut b = OrderBook::new(ItemType::IronOre);
    b.submit(buy(1, 8, 1, 100), 0);
    b.submit(buy(2, 12, 1, 100), 0);
    b.submit(buy(3, 10, 1, 100), 0);
    let prices: Vec<_> = b.buys().iter().map(|o| o.price).collect();
    assert_eq!(prices, vec![cr(12), cr(10), cr(8)]);
}

#[test]
fn best_ask_sorted_ascending() {
    let mut b = OrderBook::new(ItemType::IronOre);
    b.submit(sell(1, 12, 1, 200), 0);
    b.submit(sell(2, 8, 1, 200), 0);
    b.submit(sell(3, 10, 1, 200), 0);
    let prices: Vec<_> = b.sells().iter().map(|o| o.price).collect();
    assert_eq!(prices, vec![cr(8), cr(10), cr(12)]);
}

#[test]
fn fifo_at_same_price_level_buy() {
    let mut b = OrderBook::new(ItemType::IronOre);
    b.submit(buy(1, 10, 5, 100), 0);
    b.submit(buy(2, 10, 5, 101), 1);
    let trades = b.submit(sell(3, 10, 5, 200), 2);
    assert_eq!(trades.len(), 1);
    assert_eq!(trades[0].buyer, 100);
    assert_eq!(b.buys().len(), 1);
    assert_eq!(b.buys()[0].id, 2);
}

#[test]
fn fifo_at_same_price_level_sell() {
    let mut b = OrderBook::new(ItemType::IronOre);
    b.submit(sell(1, 10, 5, 200), 0);
    b.submit(sell(2, 10, 5, 201), 1);
    let trades = b.submit(buy(3, 10, 5, 100), 2);
    assert_eq!(trades.len(), 1);
    assert_eq!(trades[0].seller, 200);
    assert_eq!(b.sells().len(), 1);
    assert_eq!(b.sells()[0].id, 2);
}

#[test]
fn cancel_removes_buy() {
    let mut b = OrderBook::new(ItemType::IronOre);
    b.submit(buy(1, 10, 5, 100), 0);
    b.submit(buy(2, 9, 5, 100), 0);
    let cancelled = b.cancel(1).unwrap();
    assert_eq!(cancelled.id, 1);
    assert_eq!(b.buys().len(), 1);
    assert_eq!(b.buys()[0].id, 2);
}

#[test]
fn cancel_removes_sell() {
    let mut b = OrderBook::new(ItemType::IronOre);
    b.submit(sell(1, 10, 5, 200), 0);
    b.submit(sell(2, 11, 5, 200), 0);
    assert!(b.cancel(2).is_some());
    assert_eq!(b.sells().len(), 1);
    assert_eq!(b.sells()[0].id, 1);
}

#[test]
fn cancel_unknown_id_returns_none() {
    let mut b = OrderBook::new(ItemType::IronOre);
    b.submit(buy(1, 10, 5, 100), 0);
    assert!(b.cancel(999).is_none());
}

#[test]
fn trade_history_accumulates() {
    let mut b = OrderBook::new(ItemType::IronOre);
    b.submit(sell(1, 10, 5, 200), 0);
    b.submit(sell(2, 11, 5, 200), 0);
    b.submit(buy(3, 11, 10, 100), 1);
    assert_eq!(b.trade_history.len(), 2);
}

#[test]
fn zero_quantity_order_is_noop() {
    let mut b = OrderBook::new(ItemType::IronOre);
    let trades = b.submit(buy(1, 10, 0, 100), 0);
    assert!(trades.is_empty());
    assert!(b.buys().is_empty());
}

#[test]
fn wrong_item_is_rejected() {
    let mut b = OrderBook::new(ItemType::IronOre);
    let bad = Order::new(1, OrderSide::Buy, ItemType::CopperOre, cr(10), 5, 100);
    let trades = b.submit(bad, 0);
    assert!(trades.is_empty());
    assert!(b.buys().is_empty());
}

#[test]
fn spread_none_when_one_side_empty() {
    let mut b = OrderBook::new(ItemType::IronOre);
    b.submit(buy(1, 10, 5, 100), 0);
    assert!(b.spread().is_none());
}

#[test]
fn depth_sums_quantity() {
    let mut b = OrderBook::new(ItemType::IronOre);
    b.submit(buy(1, 10, 5, 100), 0);
    b.submit(buy(2, 9, 3, 100), 0);
    assert_eq!(b.depth(OrderSide::Buy), 8);
    assert_eq!(b.depth(OrderSide::Sell), 0);
}

#[test]
fn trade_value_is_integer_math() {
    let price = Credits::from_cents(250);
    let qty = 7u32;
    let total = price * qty;
    assert_eq!(total, Credits::from_cents(1750));
}

#[test]
fn submit_conserves_quantity_and_stamps_trades() {
    let mut b = OrderBook::new(ItemType::IronOre);
    b.submit(sell(1, 10, 4, 200), 0);
    b.submit(sell(2, 11, 4, 201), 0);
    let trades = b.submit(buy(3, 20, 10, 100), 7);
    let filled: u32 = trades.iter().map(|t| t.quantity).sum();
    assert_eq!(filled + b.buys()[0].quantity, 10);
    assert!(trades.iter().all(|t| t.timestamp == 7 && t.item == ItemType::IronOre));
    assert!(b.best_bid().unwrap() < cr(21));
    assert!(b.best_ask().is_none());
}

// ------------------------------------------------------- wallet / corporation

#[test]
fn new_wallet_is_zero() {
    let w = Wallet::default();
    assert_eq!(w.balance, Credits::zero());
}

#[test]
fn credit_increases_balance() {
    let mut w = Wallet::default();
    w.credit(Credits::from_whole(100));
    assert_eq!(w.balance, Credits::from_whole(100));
}

#[test]
fn debit_succeeds_with_funds() {
    let mut w = Wallet::new(Credits::from_whole(100));
    assert!(w.debit(Credits::from_whole(30)));
    assert_eq!(w.balance, Credits::from_whole(70));
}

#[test]
fn debit_rejects_insufficient_funds() {
    let mut w = Wallet::new(Credits::from_whole(10));
    assert!(!w.debit(Credits::from_whole(100)));
    assert_eq!(w.balance, Credits::from_whole(10));
}

#[test]
fn debit_exact_balance_succeeds() {
    let mut w = Wallet::new(Credits::from_whole(100));
    assert!(w.debit(Credits::from_whole(100)));
    assert_eq!(w.balance, Credits::zero());
}

#[test]
fn debit_zero_succeeds() {
    let mut w = Wallet::new(Credits::from_whole(10));
    assert!(w.debit(Credits::zero()));
    assert_eq!(w.balance, Credits::from_whole(10));
}

#[test]
fn can_afford() {
    let w = Wallet::new(Credits::from_whole(50));
    assert!(w.can_afford(Credits::from_whole(50)));
    assert!(w.can_afford(Credits::from_whole(10)));
    assert!(!w.can_afford(Credits::from_whole(51)));
}

#[test]
fn credit_then_debit_restores_balance() {
    let mut w = Wallet::new(Credits::from_whole(7));
    w.credit(Credits::from_whole(13));
    assert!(w.debit(Credits::from_whole(13)));
    assert_eq!(w.balance, Credits::from_whole(7));
}

#[test]
fn corporation_issue_shares() {
    let mut c = Corporation::new("Acme");
    c.issue_shares(1, 100);
    c.issue_shares(2, 50);
    assert_eq!(c.shares_outstanding, 150);
    assert_eq!(c.members.len(), 2);
}

#[test]
fn corporation_issue_shares_to_existing_member_adds() {
    let mut c = Corporation::new("Acme");
    c.issue_shares(1, 100);
    c.issue_shares(1, 50);
    assert_eq!(c.shares_outstanding, 150);
    assert_eq!(c.members.len(), 1);
    assert_eq!(c.members[0].1, 150);
}

#[test]
fn corporation_pays_dividend_proportionally() {
    let mut c = Corporation::new("Acme");
    c.wallet.credit(Credits::from_whole(1000));
    c.issue_shares(1, 75);
    c.issue_shares(2, 25);
    let payouts = c.pay_dividend(Credits::from_whole(100));
    assert_eq!(payouts.len(), 2);
    let p1 = payouts.iter().find(|(p, _)| *p == 1).unwrap().1;
    let p2 = payouts.iter().find(|(p, _)| *p == 2).unwrap().1;
    assert_eq!(p1, Credits::from_whole(75));
    assert_eq!(p2, Credits::from_whole(25));
    assert_eq!(c.wallet.balance, Credits::from_whole(900));
}

#[test]
fn corporation_dividend_insufficient_funds_returns_empty() {
    let mut c = Corporation::new("Acme");
    c.wallet.credit(Credits::from_whole(10));
    c.issue_shares(1, 100);
    let payouts = c.pay_dividend(Credits::from_whole(100));
    assert!(payouts.is_empty());
    assert_eq!(c.wallet.balance, Credits::from_whole(10));
}

#[test]
fn corporation_dividend_no_shares_returns_empty() {
    let mut c = Corporation::new("Acme");
    c.wallet.credit(Credits::from_whole(1000));
    let payouts = c.pay_dividend(Credits::from_whole(100));
    assert!(payouts.is_empty());
}

#[test]
fn dividend_rounds_each_payout_down_and_debits_only_what_is_paid() {
    let mut c = Corporation::new("Acme");
    c.wallet.credit(Credits::from_whole(10));
    c.issue_shares(1, 1);
    c.issue_shares(2, 2);
    let payouts = c.pay_dividend(Credits::from_cents(100));
    let paid: i64 = payouts.iter().map(|(_, a)| a.cents()).sum();
    assert_eq!(paid, 99);
    assert_eq!(c.wallet.balance, Credits::from_cents(1000 - 99));
}

#[test]
fn dividend_payouts_the_wallet_cannot_cover_pay_nothing() {
    let mut c = Corporation::new("X");
    c.wallet.credit(Credits::from_cents(u32::MAX as i64));
    c.issue_shares(1, u32::MAX);
    c.issue_shares(2, u32::MAX);
    assert_eq!(c.shares_outstanding, u32::MAX);
    let payouts = c.pay_dividend(Credits::from_cents(u32::MAX as i64));
    assert!(payouts.is_empty());
    assert_eq!(c.wallet.balance, Credits::from_cents(u32::MAX as i64));
}

// ------------------------------------------------------------------ contracts

fn courier() -> ContractKind {
    ContractKind::Courier {
        from: "Terra".to_string(),
        to: "Luna".to_string(),
        item: ItemType::IronIngot,
        quantity: 100,
    }
}

#[test]
fn post_assigns_monotonic_ids() {
    let mut b = ContractBoard::default();
    let a = b.post(courier(), Credits::from_whole(100), 1);
    let c = b.post(courier(), Credits::from_whole(100), 1);
    assert_eq!(a, 0);
    assert_eq!(c, 1);
}

#[test]
fn post_appends_contract() {
    let mut b = ContractBoard::default();
    let id = b.post(courier(), Credits::from_whole(500), 42);
    let c = b.get(id).unwrap();
    assert_eq!(c.poster, 42);
    assert_eq!(c.reward, Credits::from_whole(500));
    assert!(c.is_open());
}

#[test]
fn accept_marks_in_progress() {
    let mut b = ContractBoard::default();
    let id = b.post(courier(), Credits::from_whole(100), 1);
    assert!(b.accept(id, 2));
    let c = b.get(id).unwrap();
    assert!(c.is_in_progress());
    assert!(!c.is_open());
    assert_eq!(c.accepted_by, Some(2));
}

#[test]
fn cannot_accept_own_contract() {
    let mut b = ContractBoard::default();
    let id = b.post(courier(), Credits::from_whole(100), 1);
    assert!(!b.accept(id, 1));
}

#[test]
fn cannot_double_accept() {
    let mut b = ContractBoard::default();
    let id = b.post(courier(), Credits::from_whole(100), 1);
    assert!(b.accept(id, 2));
    assert!(!b.accept(id, 3));
    let c = b.get(id).unwrap();
    assert_eq!(c.accepted_by, Some(2));
}

#[test]
fn complete_requires_acceptance() {
    let mut b = ContractBoard::default();
    let id = b.post(courier(), Credits::from_whole(100), 1);
    assert!(!b.complete(id));
    b.accept(id, 2);
    assert!(b.complete(id));
    let c = b.get(id).unwrap();
    assert!(c.completed);
}

#[test]
fn cannot_complete_twice() {
    let mut b = ContractBoard::default();
    let id = b.post(courier(), Credits::from_whole(100), 1);
    b.accept(id, 2);
    assert!(b.complete(id));
    assert!(!b.complete(id));
}

#[test]
fn open_iterator_excludes_accepted_and_completed() {
    let mut b = ContractBoard::default();
    let a = b.post(courier(), Credits::from_whole(100), 1);
    let _c = b.post(courier(), Credits::from_whole(100), 1);
    b.accept(a, 2);
    assert_eq!(b.open().len(), 1);
}

#[test]
fn unknown_id_ops_return_false() {
    let mut b = ContractBoard::default();
    assert!(!b.accept(42, 1));
    assert!(!b.complete(42));
    assert!(b.get(42).is_none());
}

#[test]
fn manufacturing_contract_roundtrip() {
    let mut b = ContractBoard::default();
    let id = b.post(
        ContractKind::Manufacturing { item: ItemType::BasicCircuit, quantity: 50 },
        Credits::from_whole(250),
        10,
    );
    let c = b.get(id).unwrap();
    match &c.kind {
        ContractKind::Manufacturing { item, quantity } => {
            assert_eq!(*item, ItemType::BasicCircuit);
            assert_eq!(*quantity, 50);
        }
        _ => panic!("wrong kind"),
    }
}

#[test]
fn mercenary_contract_holds_objective() {
    let mut b = ContractBoard::default();
    let id = b.post(
        ContractKind::Mercenary { objective: "Destroy pirate base alpha".to_string() },
        Credits::from_whole(5000),
        10,
    );
    let c = b.get(id).unwrap();
    match &c.kind {
        ContractKind::Mercenary { objective } => {
            assert!(objective.contains("alpha"));
        }
        _ => panic!("wrong kind"),
    }
}

#[test]
fn completed_contract_is_neither_open_nor_in_progress() {
    let mut b = ContractBoard::default();
    let id = b.post(courier(), Credits::from_whole(1), 1);
    b.accept(id, 2);
    b.complete(id);
    let c = b.get(id).unwrap();
    assert!(!c.is_open());
    assert!(!c.is_in_progress());
    assert!(!b.accept(id, 3));
}

// -------------------------------------------------------------------- markets

#[test]
fn markets_next_id_is_monotonic() {
    let mut m = Markets::default();
    let a = m.next_id();
    let b = m.next_id();
    let c = m.next_id();
    assert_eq!(a, 0);
    assert_eq!(b, 1);
    assert_eq!(c, 2);
}

#[test]
fn markets_book_mut_creates_lazily() {
    let mut m = Markets::default();
    assert!(m.book(ItemType::IronOre).is_none());
    let _b = m.book_mut(ItemType::IronOre);
    assert!(m.book(ItemType::IronOre).is_some());
}

#[test]
fn markets_separate_books_per_item() {
    let mut m = Markets::default();
    let _ = m.book_mut(ItemType::CopperOre);
    let _ = m.book_mut(ItemType::IronOre);
    assert_eq!(m.books.len(), 2);
    assert_eq!(m.book(ItemType::CopperOre).unwrap().item, ItemType::CopperOre);
    assert_eq!(m.book(ItemType::IronOre).unwrap().item, ItemType::IronOre);
}

#[test]
fn markets_book_mut_keeps_orders_between_calls() {
    let mut m = Markets::default();
    let id = m.next_id();
    m.book_mut(ItemType::IronOre).submit(buy(id, 10, 5, 1), 0);
    let _ = m.book_mut(ItemType::IronOre);
    assert_eq!(m.books.len(), 1);
    assert_eq!(m.book(ItemType::IronOre).unwrap().best_bid(), Some(cr(10)));
}

#[test]
fn book_readers_report_last_price_and_history() {
    let mut book = OrderBook::new(ItemType::IronOre);
    assert_eq!(book.last_price(), None);
    book.submit(Order::new(1, OrderSide::Sell, ItemType::IronOre, Credits::from_whole(5), 3, 7), 0);
    book.submit(Order::new(2, OrderSide::Buy, ItemType::IronOre, Credits::from_whole(6), 2, 8), 1);
    assert_eq!(book.last_price(), Some(Credits::from_whole(5)));
    assert_eq!(book.trade_history().len(), 1);
    assert_eq!(book.trade_history()[0].quantity, 2);
}

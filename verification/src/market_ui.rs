//! The market and contract board as the client shows them: per-item order
//! books with a simple matching engine, the player's wallet and holdings,
//! pre-trade validation, and the job board.
use crate::item::{item_index, ItemType};
use crate::text::{decimal, owned, push_char, push_decimal, push_str, push_string};
use std::collections::{HashMap, VecDeque};
use vstd::prelude::*;
use vstd::std_specs::ops::{AddSpecImpl, SubSpecImpl};

verus! {

broadcast use vstd::std_specs::hash::group_hash_axioms;

/// Most trade prices kept per book for the price chart.
pub const PRICE_HISTORY_MAX: usize = 20;

/// The player's starting wallet, in whole credits.
pub const STARTING_WALLET_WHOLE: i64 = 10000;

/// Every item type traded on the market, in order.
pub fn ui_market_items() -> (v: Vec<ItemType>)
    ensures
        v@ == seq![
            ItemType::CopperOre,
            ItemType::IronOre,
            ItemType::CopperIngot,
            ItemType::IronIngot,
            ItemType::CopperPlate,
            ItemType::IronPlate,
            ItemType::CopperWire,
            ItemType::BasicCircuit,
            ItemType::HullPlate,
        ],
{
    let mut v = Vec::new();
    v.push(ItemType::CopperOre);
    v.push(ItemType::IronOre);
    v.push(ItemType::CopperIngot);
    v.push(ItemType::IronIngot);
    v.push(ItemType::CopperPlate);
    v.push(ItemType::IronPlate);
    v.push(ItemType::CopperWire);
    v.push(ItemType::BasicCircuit);
    v.push(ItemType::HullPlate);
    v
}

/// Credits as integer cents (100 cents to the credit).
#[derive(Clone, Copy, Debug, PartialEq, Eq, PartialOrd, Ord, Hash, Structural)]
pub struct CreditsUi(pub i64);

impl Default for CreditsUi {
    fn default() -> (c: CreditsUi)
        ensures
            c.0 == 0,
    {
        CreditsUi(0)
    }
}

/// Display text of an amount: a `-` when it is negative, the whole credits
/// of its magnitude, a dot, the two-digit cents and `" cr"`; e.g.
/// `"-3.05 cr"` or `"-0.05 cr"`.
pub open spec fn credits_ui_text(cents: i64) -> Seq<char> {
    let a: int = if cents < 0 { -(cents as int) } else { cents as int };
    let sign = if cents < 0 { seq!['-'] } else { Seq::<char>::empty() };
    let frac: int = a % 100;
    sign + decimal((a / 100) as nat) + seq!['.'] + decimal((frac / 10) as nat) + decimal((frac % 10) as nat) + seq![' ', 'c', 'r']
}

impl CreditsUi {
    /// `n` whole credits.
    pub fn from_whole(n: i64) -> (c: CreditsUi)
        requires
            i64::MIN <= n * 100 <= i64::MAX,
        ensures
            c.0 == n * 100,
    {
        CreditsUi(n * 100)
    }

    /// Human-readable text, e.g. `"10000.00 cr"` or `"-3.05 cr"`.
    pub fn display(self) -> (s: String)
        ensures
            s@ == credits_ui_text(self.0),
    {
        let negative = self.0 < 0;
        let a: u64 = if negative { (-(self.0 as i128)) as u64 } else { self.0 as u64 };
        let whole: u64 = a / 100;
        let frac: u64 = a % 100;
        let mut s = String::new();
        if negative {
            push_char(&mut s, '-');
        }
        push_decimal(&mut s, whole);
        push_char(&mut s, '.');
        push_decimal(&mut s, frac / 10);
        push_decimal(&mut s, frac % 10);
        push_str(&mut s, " cr");
        proof {
            reveal_strlit(" cr");
            assert(s@ =~= credits_ui_text(self.0));
        }
        s
    }
}

impl std::ops::Add for CreditsUi {
    type Output = CreditsUi;

    fn add(self, rhs: CreditsUi) -> (r: CreditsUi)
        ensures
            r.0 == self.0 + rhs.0,
    {
        CreditsUi(self.0 + rhs.0)
    }
}

impl AddSpecImpl for CreditsUi {
    open spec fn obeys_add_spec() -> bool {
        true
    }

    open spec fn add_req(self, rhs: CreditsUi) -> bool {
        i64::MIN <= self.0 + rhs.0 <= i64::MAX
    }

    open spec fn add_spec(self, rhs: CreditsUi) -> CreditsUi {
        CreditsUi((self.0 + rhs.0) as i64)
    }
}

impl std::ops::Sub for CreditsUi {
    type Output = CreditsUi;

    fn sub(self, rhs: CreditsUi) -> (r: CreditsUi)
        ensures
            r.0 == self.0 - rhs.0,
    {
        CreditsUi(self.0 - rhs.0)
    }
}

impl SubSpecImpl for CreditsUi {
    open spec fn obeys_sub_spec() -> bool {
        true
    }

    open spec fn sub_req(self, rhs: CreditsUi) -> bool {
        i64::MIN <= self.0 - rhs.0 <= i64::MAX
    }

    open spec fn sub_spec(self, rhs: CreditsUi) -> CreditsUi {
        CreditsUi((self.0 - rhs.0) as i64)
    }
}

/// Which side of the book an order is on.
#[derive(Clone, Copy, Debug, PartialEq, Eq, Structural)]
pub enum OrderSideUi {
    Buy,
    Sell,
}

impl Default for OrderSideUi {
    fn default() -> (s: OrderSideUi)
        ensures
            s == OrderSideUi::Buy,
    {
        OrderSideUi::Buy
    }
}

impl OrderSideUi {
    pub fn label(self) -> (s: &'static str)
        ensures
            s@ == match self {
                OrderSideUi::Buy => "Buy"@,
                OrderSideUi::Sell => "Sell"@,
            },
    {
        match self {
            OrderSideUi::Buy => "Buy",
            OrderSideUi::Sell => "Sell",
        }
    }

    pub fn opposite(self) -> (s: OrderSideUi)
        ensures
            s == match self {
                OrderSideUi::Buy => OrderSideUi::Sell,
                OrderSideUi::Sell => OrderSideUi::Buy,
            },
    {
        match self {
            OrderSideUi::Buy => OrderSideUi::Sell,
            OrderSideUi::Sell => OrderSideUi::Buy,
        }
    }
}

/// An order resting on (or submitted to) a book.
#[derive(Clone, Copy, Debug, PartialEq, Eq, Structural)]
pub struct OrderUi {
    pub id: u64,
    pub side: OrderSideUi,
    pub item: ItemType,
    pub price: CreditsUi,
    pub quantity: u32,
    pub placed_by: u64,
}

/// Where an order at `price` goes among the orders of its side: before the
/// first order it beats (a higher bid, a lower ask), after every order at
/// its own price.
pub open spec fn insert_pos(s: Seq<OrderUi>, side: OrderSideUi, price: i64) -> int
    decreases s.len(),
{
    if s.len() == 0 {
        0
    } else if (match side {
        OrderSideUi::Buy => s[0].price.0 < price,
        OrderSideUi::Sell => s[0].price.0 > price,
    }) {
        0
    } else {
        1 + insert_pos(s.drop_first(), side, price)
    }
}

/// The price history after one more trade, keeping at most
/// `PRICE_HISTORY_MAX` prices once that many are held.
pub open spec fn history_push(h: Seq<CreditsUi>, price: CreditsUi) -> Seq<CreditsUi> {
    if h.len() == PRICE_HISTORY_MAX {
        h.drop_first().push(price)
    } else {
        h.push(price)
    }
}

/// One item's order book: bids best (highest) first, asks best (lowest)
/// first, the last traded price and a short history of trade prices.
#[derive(Clone, Debug)]
pub struct OrderBookUi {
    pub item: ItemType,
    pub buys: Vec<OrderUi>,
    pub sells: Vec<OrderUi>,
    pub last_price: Option<CreditsUi>,
    pub price_history: VecDeque<CreditsUi>,
}

proof fn lemma_insert_pos(s: Seq<OrderUi>, side: OrderSideUi, price: i64)
    ensures
        0 <= insert_pos(s, side, price) <= s.len(),
    decreases s.len(),
{
    if s.len() > 0 {
        lemma_insert_pos(s.drop_first(), side, price);
    }
}

/// Position at which an order goes, computed over a vector.
fn find_insert_pos(v: &Vec<OrderUi>, side: OrderSideUi, price: i64) -> (r: usize)
    ensures
        r == insert_pos(v@, side, price),
{
    let mut i: usize = 0;
    proof {
        assert(v@.subrange(0, v@.len() as int) =~= v@);
    }
    while i < v.len()
        invariant
            i <= v@.len(),
            insert_pos(v@, side, price) == i + insert_pos(v@.subrange(i as int, v@.len() as int), side, price),
        decreases v@.len() - i,
    {
        let ghost rest = v@.subrange(i as int, v@.len() as int);
        let beats = match side {
            OrderSideUi::Buy => v[i].price.0 < price,
            OrderSideUi::Sell => v[i].price.0 > price,
        };
        if beats {
            return i;
        }
        proof {
            assert(rest.drop_first() =~= v@.subrange(i + 1, v@.len() as int));
        }
        i = i + 1;
    }
    i
}

impl OrderBookUi {
    pub fn new(item: ItemType) -> (b: OrderBookUi)
        ensures
            b.item == item,
            b.buys@.len() == 0,
            b.sells@.len() == 0,
            b.last_price.is_none(),
            b.price_history@.len() == 0,
    {
        OrderBookUi {
            item,
            buys: Vec::new(),
            sells: Vec::new(),
            last_price: None,
            price_history: VecDeque::with_capacity(PRICE_HISTORY_MAX),
        }
    }

    /// The first bid's price.
    pub fn best_bid(&self) -> (r: Option<CreditsUi>)
        ensures
            r == if self.buys@.len() > 0 { Some(self.buys@[0].price) } else { None },
    {
        if self.buys.len() > 0 {
            Some(self.buys[0].price)
        } else {
            None
        }
    }

    /// The first ask's price.
    pub fn best_ask(&self) -> (r: Option<CreditsUi>)
        ensures
            r == if self.sells@.len() > 0 { Some(self.sells@[0].price) } else { None },
    {
        if self.sells.len() > 0 {
            Some(self.sells[0].price)
        } else {
            None
        }
    }

    /// Best ask minus best bid, when both sides have orders.
    pub fn spread(&self) -> (r: Option<CreditsUi>)
        requires
            self.buys@.len() > 0 && self.sells@.len() > 0 ==> i64::MIN <= self.sells@[0].price.0
                - self.buys@[0].price.0 <= i64::MAX,
        ensures
            r == if self.buys@.len() > 0 && self.sells@.len() > 0 {
                Some(CreditsUi((self.sells@[0].price.0 - self.buys@[0].price.0) as i64))
            } else {
                None
            },
    {
        match (self.best_bid(), self.best_ask()) {
            (Some(b), Some(a)) => Some(a - b),
            _ => None,
        }
    }

    /// Records a trade price: it becomes the last price and joins the
    /// history, which drops its oldest price when full.
    pub fn record_trade(&mut self, price: CreditsUi)
        ensures
            final(self).last_price == Some(price),
            final(self).price_history@ == history_push(old(self).price_history@, price),
            final(self).item == old(self).item,
            final(self).buys@ == old(self).buys@,
            final(self).sells@ == old(self).sells@,
    {
        self.last_price = Some(price);
        if self.price_history.len() == PRICE_HISTORY_MAX {
            let _ = self.price_history.pop_front();
        }
        self.price_history.push_back(price);
        proof {
            let h = old(self).price_history@;
            if h.len() == PRICE_HISTORY_MAX {
                assert(h.subrange(1, h.len() as int) =~= h.drop_first());
            }
        }
    }

    /// Inserts an order on its side, keeping the side best-first and, at
    /// equal prices, older orders first.
    pub fn insert_sorted(&mut self, order: OrderUi)
        ensures
            final(self).item == old(self).item,
            final(self).last_price == old(self).last_price,
            final(self).price_history@ == old(self).price_history@,
            order.side == OrderSideUi::Buy ==> final(self).sells@ == old(self).sells@
                && final(self).buys@ == old(self).buys@.insert(
                insert_pos(old(self).buys@, OrderSideUi::Buy, order.price.0),
                order,
            ),
            order.side == OrderSideUi::Sell ==> final(self).buys@ == old(self).buys@
                && final(self).sells@ == old(self).sells@.insert(
                insert_pos(old(self).sells@, OrderSideUi::Sell, order.price.0),
                order,
            ),
    {
        match order.side {
            OrderSideUi::Buy => {
                let idx = find_insert_pos(&self.buys, OrderSideUi::Buy, order.price.0);
                proof {
                    lemma_insert_pos(self.buys@, OrderSideUi::Buy, order.price.0);
                }
                self.buys.insert(idx, order);
            },
            OrderSideUi::Sell => {
                let idx = find_insert_pos(&self.sells, OrderSideUi::Sell, order.price.0);
                proof {
                    lemma_insert_pos(self.sells@, OrderSideUi::Sell, order.price.0);
                }
                self.sells.insert(idx, order);
            },
        }
    }
}

/// A side is sorted best-first: bids by falling price, asks by rising price.
pub open spec fn side_sorted(s: Seq<OrderUi>, side: OrderSideUi) -> bool {
    forall|i: int, j: int|
        0 <= i < j < s.len() ==> match side {
            OrderSideUi::Buy => s[i].price.0 >= s[j].price.0,
            OrderSideUi::Sell => s[i].price.0 <= s[j].price.0,
        }
}

/// Inserting keeps a side sorted best-first, and the new order comes after
/// every order at its own price (time priority).
pub proof fn lemma_insert_sorted_keeps_order(s: Seq<OrderUi>, side: OrderSideUi, o: OrderUi)
    requires
        side_sorted(s, side),
    ensures
        side_sorted(s.insert(insert_pos(s, side, o.price.0), o), side),
        forall|k: int| 0 <= k < insert_pos(s, side, o.price.0) ==> !(match side {
            OrderSideUi::Buy => s[k].price.0 < o.price.0,
            OrderSideUi::Sell => s[k].price.0 > o.price.0,
        }),
    decreases s.len(),
{
    lemma_insert_pos(s, side, o.price.0);
    let p = insert_pos(s, side, o.price.0);
    let r = s.insert(p, o);
    if s.len() > 0 {
        let t = s.drop_first();
        assert(side_sorted(t, side)) by {
            assert forall|i: int, j: int| 0 <= i < j < t.len() implies (match side {
                OrderSideUi::Buy => t[i].price.0 >= t[j].price.0,
                OrderSideUi::Sell => t[i].price.0 <= t[j].price.0,
            }) by {
                assert(t[i] == s[i + 1] && t[j] == s[j + 1]);
            }
        }
        lemma_insert_sorted_keeps_order(t, side, o);
        lemma_insert_pos(t, side, o.price.0);
        if p > 0 {
            assert forall|k: int| 0 <= k < p implies !(match side {
                OrderSideUi::Buy => s[k].price.0 < o.price.0,
                OrderSideUi::Sell => s[k].price.0 > o.price.0,
            }) by {
                if k > 0 {
                    assert(s[k] == t[k - 1]);
                }
            }
            let tr = t.insert(p - 1, o);
            assert(r =~= seq![s[0]] + tr);
            assert forall|i: int, j: int| 0 <= i < j < r.len() implies (match side {
                OrderSideUi::Buy => r[i].price.0 >= r[j].price.0,
                OrderSideUi::Sell => r[i].price.0 <= r[j].price.0,
            }) by {
                if i > 0 {
                    assert(r[i] == tr[i - 1] && r[j] == tr[j - 1]);
                } else {
                    assert(r[0] == s[0]);
                    assert(r[j] == tr[j - 1]);
                    if j - 1 < p - 1 {
                        assert(tr[j - 1] == t[j - 1] && t[j - 1] == s[j]);
                    } else if j - 1 == p - 1 {
                        assert(tr[j - 1] == o);
                    } else {
                        assert(tr[j - 1] == t[j - 2] && t[j - 2] == s[j - 1]);
                    }
                }
            }
        } else {
            assert(match side {
                OrderSideUi::Buy => s[0].price.0 < o.price.0,
                OrderSideUi::Sell => s[0].price.0 > o.price.0,
            });
            assert(r =~= seq![o] + s);
            assert forall|i: int, j: int| 0 <= i < j < r.len() implies (match side {
                OrderSideUi::Buy => r[i].price.0 >= r[j].price.0,
                OrderSideUi::Sell => r[i].price.0 <= r[j].price.0,
            }) by {
                if i > 0 {
                    assert(r[i] == s[i - 1] && r[j] == s[j - 1]);
                } else {
                    assert(r[0] == o && r[j] == s[j - 1]);
                    assert(match side {
                        OrderSideUi::Buy => s[0].price.0 >= s[j - 1].price.0,
                        OrderSideUi::Sell => s[0].price.0 <= s[j - 1].price.0,
                    });
                }
            }
        }
    } else {
        assert(r =~= seq![o]);
    }
}

/// A fill produced by the matching engine.
#[derive(Clone, Copy, Debug, PartialEq, Eq, Structural)]
pub struct TradeUi {
    pub item: ItemType,
    pub price: CreditsUi,
    pub quantity: u32,
}

/// Whether an incoming order with limit `limit` trades against a resting
/// order at `resting`: a buy pays up to its limit, a sell takes at least it.
pub open spec fn crosses_ui(side: OrderSideUi, limit: i64, resting: i64) -> bool {
    match side {
        OrderSideUi::Buy => limit >= resting,
        OrderSideUi::Sell => limit <= resting,
    }
}

/// Matching `qty` of an incoming order against the resting orders of the
/// other side, front first, each fill at the resting order's price. Gives
/// the resting orders left, the fills, and the quantity left unfilled.
pub open spec fn match_ui(resting: Seq<OrderUi>, side: OrderSideUi, item: ItemType, limit: i64, qty: u32) -> (Seq<OrderUi>, Seq<TradeUi>, u32)
    decreases resting.len() + qty,
{
    if qty == 0 || resting.len() == 0 || !crosses_ui(side, limit, resting[0].price.0) {
        (resting, Seq::empty(), qty)
    } else {
        let front = resting[0];
        let fill: u32 = if qty <= front.quantity { qty } else { front.quantity };
        let rest = if front.quantity - fill == 0 {
            resting.drop_first()
        } else {
            resting.update(0, OrderUi { quantity: (front.quantity - fill) as u32, ..front })
        };
        let (r, t, q) = match_ui(rest, side, item, limit, (qty - fill) as u32);
        (r, seq![TradeUi { item, price: front.price, quantity: fill }] + t, q)
    }
}

/// Matching against a side sorted best-first: an incoming order whose limit
/// reaches the best resting price (a buy at or above the best ask, a sell at
/// or below the best bid) trades, at that resting price; every fill is
/// within the limit; and whatever is left unfilled does not reach the best
/// order left resting, so resting it leaves the book uncrossed.
pub proof fn lemma_match_ui_crossing(resting: Seq<OrderUi>, side: OrderSideUi, item: ItemType, limit: i64, qty: u32)
    ensures
        ({
            let (left, fills, unfilled) = match_ui(resting, side, item, limit, qty);
            &&& qty > 0 && resting.len() > 0 && (match side {
                OrderSideUi::Buy => limit >= resting[0].price.0,
                OrderSideUi::Sell => limit <= resting[0].price.0,
            }) ==> fills.len() > 0 && fills[0].price == resting[0].price
            &&& forall|k: int| 0 <= k < fills.len() ==> (match side {
                OrderSideUi::Buy => (#[trigger] fills[k]).price.0 <= limit,
                OrderSideUi::Sell => (#[trigger] fills[k]).price.0 >= limit,
            })
            &&& unfilled > 0 && left.len() > 0 ==> (match side {
                OrderSideUi::Buy => limit < left[0].price.0,
                OrderSideUi::Sell => limit > left[0].price.0,
            })
        }),
    decreases resting.len() + qty,
{
    if qty == 0 || resting.len() == 0 || !crosses_ui(side, limit, resting[0].price.0) {
    } else {
        let front = resting[0];
        let fill: u32 = if qty <= front.quantity { qty } else { front.quantity };
        let rest = if front.quantity - fill == 0 {
            resting.drop_first()
        } else {
            resting.update(0, OrderUi { quantity: (front.quantity - fill) as u32, ..front })
        };
        lemma_match_ui_crossing(rest, side, item, limit, (qty - fill) as u32);
        let (r, t, q) = match_ui(rest, side, item, limit, (qty - fill) as u32);
        let fills = seq![TradeUi { item, price: front.price, quantity: fill }] + t;
        assert forall|k: int| 0 <= k < fills.len() implies (match side {
            OrderSideUi::Buy => (#[trigger] fills[k]).price.0 <= limit,
            OrderSideUi::Sell => (#[trigger] fills[k]).price.0 >= limit,
        }) by {
            if k > 0 {
                assert(fills[k] == t[k - 1]);
            }
        }
    }
}

/// The side an order on `side` trades against.
pub open spec fn other_side(side: OrderSideUi) -> OrderSideUi {
    match side {
        OrderSideUi::Buy => OrderSideUi::Sell,
        OrderSideUi::Sell => OrderSideUi::Buy,
    }
}

/// The best order left resting after matching is no better than the best
/// order that was resting before.
proof fn lemma_match_ui_front(resting: Seq<OrderUi>, side: OrderSideUi, item: ItemType, limit: i64, qty: u32)
    requires
        side_sorted(resting, other_side(side)),
    ensures
        ({
            let left = match_ui(resting, side, item, limit, qty).0;
            &&& side_sorted(left, other_side(side))
            &&& left.len() > 0 ==> resting.len() > 0 && (match side {
                OrderSideUi::Buy => left[0].price.0 >= resting[0].price.0,
                OrderSideUi::Sell => left[0].price.0 <= resting[0].price.0,
            })
        }),
    decreases resting.len() + qty,
{
    if qty == 0 || resting.len() == 0 || !crosses_ui(side, limit, resting[0].price.0) {
    } else {
        let front = resting[0];
        let fill: u32 = if qty <= front.quantity { qty } else { front.quantity };
        let rest = if front.quantity - fill == 0 {
            resting.drop_first()
        } else {
            resting.update(0, OrderUi { quantity: (front.quantity - fill) as u32, ..front })
        };
        assert(side_sorted(rest, other_side(side))) by {
            assert forall|i: int, j: int| 0 <= i < j < rest.len() implies (match other_side(side) {
                OrderSideUi::Buy => #[trigger] rest[i].price.0 >= #[trigger] rest[j].price.0,
                OrderSideUi::Sell => rest[i].price.0 <= rest[j].price.0,
            }) by {
                if front.quantity - fill == 0 {
                    assert(rest[i] == resting[i + 1] && rest[j] == resting[j + 1]);
                } else {
                    assert(rest[i].price == resting[i].price && rest[j].price == resting[j].price);
                }
            }
        }
        lemma_match_ui_front(rest, side, item, limit, (qty - fill) as u32);
        if rest.len() > 0 {
            if front.quantity - fill == 0 {
                assert(rest[0] == resting[1]);
            }
        }
    }
}

/// A book whose bids all lie strictly below its asks stays so after an
/// order is matched and its remainder rests: if both sides have orders, the
/// best bid is below the best ask.
pub proof fn lemma_rest_keeps_book_uncrossed(
    own: Seq<OrderUi>,
    other: Seq<OrderUi>,
    side: OrderSideUi,
    item: ItemType,
    limit: i64,
    qty: u32,
    rest: OrderUi,
)
    requires
        side_sorted(own, side),
        side_sorted(other, other_side(side)),
        own.len() > 0 && other.len() > 0 ==> (match side {
            OrderSideUi::Buy => own[0].price.0 < other[0].price.0,
            OrderSideUi::Sell => other[0].price.0 < own[0].price.0,
        }),
        rest.price.0 == limit,
    ensures
        ({
            let (left, fills, unfilled) = match_ui(other, side, item, limit, qty);
            let own2 = if unfilled > 0 { own.insert(insert_pos(own, side, limit), rest) } else { own };
            own2.len() > 0 && left.len() > 0 ==> (match side {
                OrderSideUi::Buy => own2[0].price.0 < left[0].price.0,
                OrderSideUi::Sell => left[0].price.0 < own2[0].price.0,
            })
        }),
{
    let (left, fills, unfilled) = match_ui(other, side, item, limit, qty);
    lemma_match_ui_crossing(other, side, item, limit, qty);
    lemma_match_ui_front(other, side, item, limit, qty);
    if unfilled > 0 {
        lemma_insert_pos(own, side, limit);
        let p = insert_pos(own, side, limit);
        let own2 = own.insert(p, rest);
        if p > 0 {
            assert(own2[0] == own[0]);
        } else {
            assert(own2[0] == rest);
        }
    }
}

/// The price history after recording the price of each fill in turn.
pub open spec fn history_after(h: Seq<CreditsUi>, trades: Seq<TradeUi>) -> Seq<CreditsUi>
    decreases trades.len(),
{
    if trades.len() == 0 {
        h
    } else {
        history_push(history_after(h, trades.drop_last()), trades.last().price)
    }
}

impl OrderBookUi {
    /// Matches an incoming order against the other side, recording each
    /// fill's price; returns the fills and the quantity left unfilled.
    pub fn match_incoming(&mut self, side: OrderSideUi, limit: CreditsUi, quantity: u32) -> (r: (Vec<TradeUi>, u32))
        ensures
            ({
                let resting = match side {
                    OrderSideUi::Buy => old(self).sells@,
                    OrderSideUi::Sell => old(self).buys@,
                };
                let (left, fills, unfilled) = match_ui(resting, side, old(self).item, limit.0, quantity);
                &&& r.0@ == fills
                &&& r.1 == unfilled
                &&& final(self).item == old(self).item
                &&& side == OrderSideUi::Buy ==> final(self).sells@ == left && final(self).buys@ == old(self).buys@
                &&& side == OrderSideUi::Sell ==> final(self).buys@ == left && final(self).sells@ == old(self).sells@
                &&& final(self).price_history@ == history_after(old(self).price_history@, fills)
                &&& final(self).last_price == if fills.len() > 0 { Some(fills.last().price) } else { old(self).last_price }
            }),
            ({
                let resting = match side {
                    OrderSideUi::Buy => old(self).sells@,
                    OrderSideUi::Sell => old(self).buys@,
                };
                quantity > 0 && resting.len() > 0 && (match side {
                    OrderSideUi::Buy => limit.0 >= resting[0].price.0,
                    OrderSideUi::Sell => limit.0 <= resting[0].price.0,
                }) ==> r.0@.len() > 0 && r.0@[0].price == resting[0].price
            }),
    {
        proof {
            let resting = match side {
                OrderSideUi::Buy => self.sells@,
                OrderSideUi::Sell => self.buys@,
            };
            lemma_match_ui_crossing(resting, side, self.item, limit.0, quantity);
        }
        let item = self.item;
        let ghost resting0 = match side {
            OrderSideUi::Buy => self.sells@,
            OrderSideUi::Sell => self.buys@,
        };
        let ghost target = match_ui(resting0, side, item, limit.0, quantity);
        let ghost hist0 = self.price_history@;
        let ghost last0 = self.last_price;
        let mut trades: Vec<TradeUi> = Vec::new();
        let mut qty = quantity;
        let mut stop = false;
        while qty > 0 && !stop
            invariant
                self.item == item,
                item == old(self).item,
                side == OrderSideUi::Buy ==> self.buys@ == old(self).buys@,
                side == OrderSideUi::Sell ==> self.sells@ == old(self).sells@,
                ({
                    let resting = match side {
                        OrderSideUi::Buy => self.sells@,
                        OrderSideUi::Sell => self.buys@,
                    };
                    let (r, t, q) = match_ui(resting, side, item, limit.0, qty);
                    &&& target == (r, trades@ + t, q)
                    &&& stop ==> t.len() == 0 && q == qty && r == resting
                }),
                self.price_history@ == history_after(hist0, trades@),
                self.last_price == if trades@.len() > 0 { Some(trades@.last().price) } else { last0 },
            decreases (match side {
                OrderSideUi::Buy => self.sells@.len(),
                OrderSideUi::Sell => self.buys@.len(),
            }) + qty + if stop { 0int } else { 1int },
        {
            let front_opt = match side {
                OrderSideUi::Buy => if self.sells.len() > 0 { Some(self.sells[0]) } else { None },
                OrderSideUi::Sell => if self.buys.len() > 0 { Some(self.buys[0]) } else { None },
            };
            match front_opt {
                None => {
                    stop = true;
                },
                Some(front) => {
                    let crosses = match side {
                        OrderSideUi::Buy => limit.0 >= front.price.0,
                        OrderSideUi::Sell => limit.0 <= front.price.0,
                    };
                    if !crosses {
                        stop = true;
                    } else {
                        let fill = if qty < front.quantity { qty } else { front.quantity };
                        let left = front.quantity - fill;
                        let ghost before = trades@;
                        match side {
                            OrderSideUi::Buy => {
                                if left == 0 {
                                    self.sells.remove(0);
                                } else {
                                    self.sells.set(0, OrderUi { quantity: left, ..front });
                                }
                            },
                            OrderSideUi::Sell => {
                                if left == 0 {
                                    self.buys.remove(0);
                                } else {
                                    self.buys.set(0, OrderUi { quantity: left, ..front });
                                }
                            },
                        }
                        let trade = TradeUi { item, price: front.price, quantity: fill };
                        trades.push(trade);
                        self.record_trade(front.price);
                        qty = qty - fill;
                        proof {
                            let resting = match side {
                                OrderSideUi::Buy => self.sells@,
                                OrderSideUi::Sell => self.buys@,
                            };
                            let (r, t, q) = match_ui(resting, side, item, limit.0, qty);
                            assert(trades@ == before.push(trade));
                            assert(before + (seq![trade] + t) =~= trades@ + t);
                            assert(trades@.drop_last() == before);
                        }
                    }
                },
            }
        }
        (trades, qty)
    }
}

/// Index of the first book for `item`, or -1.
pub open spec fn book_index(s: Seq<OrderBookUi>, item: ItemType) -> int
    decreases s.len(),
{
    if s.len() == 0 {
        -1
    } else {
        let p = book_index(s.drop_last(), item);
        if p >= 0 {
            p
        } else if s.last().item == item {
            s.len() - 1
        } else {
            -1
        }
    }
}

proof fn lemma_book_index(s: Seq<OrderBookUi>, item: ItemType)
    ensures
        -1 <= book_index(s, item) < s.len(),
        book_index(s, item) >= 0 ==> s[book_index(s, item)].item == item,
        forall|k: int| 0 <= k < s.len() && (book_index(s, item) < 0 || k < book_index(s, item)) ==> #[trigger] s[k].item != item,
    decreases s.len(),
{
    if s.len() > 0 {
        lemma_book_index(s.drop_last(), item);
        assert forall|k: int| 0 <= k < s.len() && (book_index(s, item) < 0 || k < book_index(s, item)) implies #[trigger] s[k].item != item by {
            if k < s.len() - 1 {
                assert(s[k] == s.drop_last()[k]);
            }
        }
    }
}

fn find_book_ui(v: &Vec<OrderBookUi>, item: ItemType) -> (r: Option<usize>)
    ensures
        match r {
            Some(k) => k == book_index(v@, item) && k < v@.len(),
            None => book_index(v@, item) < 0,
        },
{
    proof {
        lemma_book_index(v@, item);
    }
    let mut i: usize = 0;
    while i < v.len()
        invariant
            i <= v@.len(),
            forall|k: int| 0 <= k < i ==> #[trigger] v@[k].item != item,
            -1 <= book_index(v@, item) < v@.len(),
            book_index(v@, item) >= 0 ==> v@[book_index(v@, item)].item == item,
            forall|k: int| 0 <= k < v@.len() && (book_index(v@, item) < 0 || k < book_index(v@, item)) ==> #[trigger] v@[k].item != item,
        decreases v@.len() - i,
    {
        if v[i].item == item {
            return Some(i);
        }
        i = i + 1;
    }
    None
}

/// The key under which holdings of an item are stored.
pub open spec fn holding_key(item: ItemType) -> u8 {
    item_index(item) as u8
}

/// The quantity of an item held (zero when it has no entry).
pub open spec fn held_of(m: Map<u8, u32>, item: ItemType) -> u32 {
    if m.contains_key(holding_key(item)) {
        m[holding_key(item)]
    } else {
        0
    }
}

/// The market as the client shows it: a book per traded item, the player's
/// wallet and holdings (keyed by item position), the player's id and the
/// next order id.
#[derive(Clone, Debug)]
pub struct MarketsUi {
    pub books: Vec<OrderBookUi>,
    pub player_wallet: CreditsUi,
    pub player_holdings: HashMap<u8, u32>,
    pub player_id: u64,
    pub next_order_id: u64,
}

impl Default for MarketsUi {
    fn default() -> (m: MarketsUi)
        ensures
            m.books@.len() == 0,
            m.player_wallet.0 == 0,
            m.player_holdings@ == Map::<u8, u32>::empty(),
            m.player_id == 0,
            m.next_order_id == 0,
    {
        MarketsUi {
            books: Vec::new(),
            player_wallet: CreditsUi(0),
            player_holdings: HashMap::new(),
            player_id: 0,
            next_order_id: 0,
        }
    }
}

fn item_key(item: ItemType) -> (k: u8)
    ensures
        k == holding_key(item),
{
    item.index() as u8
}

impl MarketsUi {
    /// The book for an item, if it has one.
    pub fn book(&self, item: ItemType) -> (r: Option<&OrderBookUi>)
        ensures
            match r {
                Some(b) => book_index(self.books@, item) >= 0 && *b == self.books@[book_index(self.books@, item)],
                None => book_index(self.books@, item) < 0,
            },
    {
        match find_book_ui(&self.books, item) {
            Some(k) => Some(&self.books[k]),
            None => None,
        }
    }

    /// The book for an item, created empty (at the end) if it has none.
    pub fn book_mut(&mut self, item: ItemType) -> (r: &mut OrderBookUi)
        ensures
            ({
                let p = book_index(old(self).books@, item);
                if p >= 0 {
                    &&& *r == old(self).books@[p]
                    &&& final(self).books@ == old(self).books@.update(p, *final(r))
                } else {
                    &&& r.item == item
                    &&& r.buys@.len() == 0
                    &&& r.sells@.len() == 0
                    &&& r.last_price.is_none()
                    &&& r.price_history@.len() == 0
                    &&& final(self).books@ == old(self).books@.push(*final(r))
                }
            }),
            final(self).player_wallet == old(self).player_wallet,
            final(self).player_holdings@ == old(self).player_holdings@,
            final(self).player_id == old(self).player_id,
            final(self).next_order_id == old(self).next_order_id,
    {
        match find_book_ui(&self.books, item) {
            Some(k) => &mut self.books[k],
            None => {
                self.books.push(OrderBookUi::new(item));
                let k = self.books.len() - 1;
                &mut self.books[k]
            },
        }
    }

    /// Hands out the next order id.
    pub fn next_id(&mut self) -> (id: u64)
        requires
            old(self).next_order_id < u64::MAX,
        ensures
            id == old(self).next_order_id,
            final(self).next_order_id == old(self).next_order_id + 1,
            final(self).books@ == old(self).books@,
            final(self).player_wallet == old(self).player_wallet,
            final(self).player_holdings@ == old(self).player_holdings@,
            final(self).player_id == old(self).player_id,
    {
        let id = self.next_order_id;
        self.next_order_id = self.next_order_id + 1;
        id
    }

    /// How many of an item the player holds.
    pub fn holdings(&self, item: ItemType) -> (q: u32)
        ensures
            q == held_of(self.player_holdings@, item),
    {
        let k = item_key(item);
        match self.player_holdings.get(&k) {
            Some(q) => *q,
            None => 0,
        }
    }
}

/// What a fill costs (or earns), in cents.
pub open spec fn trade_total(t: TradeUi) -> int {
    t.price.0 * t.quantity
}

/// The wallet after paying for (buy) or being paid for (sell) each fill.
pub open spec fn settle_wallet(w: int, trades: Seq<TradeUi>, side: OrderSideUi) -> int
    decreases trades.len(),
{
    if trades.len() == 0 {
        w
    } else {
        let prev = settle_wallet(w, trades.drop_last(), side);
        match side {
            OrderSideUi::Buy => prev - trade_total(trades.last()),
            OrderSideUi::Sell => prev + trade_total(trades.last()),
        }
    }
}

/// The holding after receiving (buy) or handing over (sell, never below
/// zero) each fill.
pub open spec fn settle_held(h: int, trades: Seq<TradeUi>, side: OrderSideUi) -> int
    decreases trades.len(),
{
    if trades.len() == 0 {
        h
    } else {
        let prev = settle_held(h, trades.drop_last(), side);
        match side {
            OrderSideUi::Buy => prev + trades.last().quantity,
            OrderSideUi::Sell => if prev >= trades.last().quantity { prev - trades.last().quantity } else { 0 },
        }
    }
}

/// Every step of the settlement stays in range: each fill's value and each
/// running wallet fit an `i64`, and a buyer's holding fits a `u32`.
pub open spec fn settle_ok(w: int, h: int, trades: Seq<TradeUi>, side: OrderSideUi) -> bool
    decreases trades.len(),
{
    if trades.len() == 0 {
        true
    } else {
        &&& settle_ok(w, h, trades.drop_last(), side)
        &&& i64::MIN <= trade_total(trades.last()) <= i64::MAX
        &&& i64::MIN <= settle_wallet(w, trades, side) <= i64::MAX
        &&& side == OrderSideUi::Buy ==> settle_held(h, trades, side) <= u32::MAX
    }
}

proof fn lemma_settle_held_nonneg(h: int, trades: Seq<TradeUi>, side: OrderSideUi)
    requires
        h >= 0,
    ensures
        settle_held(h, trades, side) >= 0,
        side == OrderSideUi::Sell ==> settle_held(h, trades, side) <= h,
    decreases trades.len(),
{
    if trades.len() > 0 {
        lemma_settle_held_nonneg(h, trades.drop_last(), side);
    }
}

proof fn lemma_settle_ok_prefix(w: int, h: int, trades: Seq<TradeUi>, side: OrderSideUi, k: int)
    requires
        settle_ok(w, h, trades, side),
        0 <= k <= trades.len(),
    ensures
        settle_ok(w, h, trades.take(k), side),
    decreases trades.len() - k,
{
    if k < trades.len() {
        assert(trades.take(k + 1).drop_last() =~= trades.take(k));
        lemma_settle_ok_prefix(w, h, trades, side, k + 1);
    } else {
        assert(trades.take(k) =~= trades);
    }
}

/// The resting orders an incoming order on `side` trades against.
pub open spec fn opposite_orders(m: MarketsUi, item: ItemType, side: OrderSideUi) -> Seq<OrderUi> {
    let p = book_index(m.books@, item);
    if p < 0 {
        Seq::empty()
    } else {
        match side {
            OrderSideUi::Buy => m.books@[p].sells@,
            OrderSideUi::Sell => m.books@[p].buys@,
        }
    }
}

/// The fills that an order would get against the current market.
pub open spec fn fills_of(m: MarketsUi, side: OrderSideUi, item: ItemType, limit: i64, quantity: u32) -> Seq<TradeUi> {
    match_ui(opposite_orders(m, item, side), side, item, limit, quantity).1
}

/// Applies the fills to the player's wallet and holding of the item.
fn settle(markets: &mut MarketsUi, trades: &Vec<TradeUi>, side: OrderSideUi, item: ItemType)
    requires
        settle_ok(
            old(markets).player_wallet.0 as int,
            held_of(old(markets).player_holdings@, item) as int,
            trades@,
            side,
        ),
    ensures
        final(markets).player_wallet.0 == settle_wallet(old(markets).player_wallet.0 as int, trades@, side),
        final(markets).player_holdings@ == if trades@.len() > 0 {
            old(markets).player_holdings@.insert(
                holding_key(item),
                settle_held(held_of(old(markets).player_holdings@, item) as int, trades@, side) as u32,
            )
        } else {
            old(markets).player_holdings@
        },
        final(markets).books@ == old(markets).books@,
        final(markets).player_id == old(markets).player_id,
        final(markets).next_order_id == old(markets).next_order_id,
{
    let ghost w0 = markets.player_wallet.0 as int;
    let ghost h0 = held_of(markets.player_holdings@, item) as int;
    let key = item_key(item);
    let mut i: usize = 0;
    while i < trades.len()
        invariant
            i <= trades@.len(),
            key == holding_key(item),
            settle_ok(w0, h0, trades@, side),
            h0 >= 0,
            markets.player_wallet.0 == settle_wallet(w0, trades@.take(i as int), side),
            i > 0 ==> markets.player_holdings@ == old(markets).player_holdings@.insert(
                key,
                settle_held(h0, trades@.take(i as int), side) as u32,
            ),
            i == 0 ==> markets.player_holdings@ == old(markets).player_holdings@,
            h0 == held_of(old(markets).player_holdings@, item),
            markets.books@ == old(markets).books@,
            markets.player_id == old(markets).player_id,
            markets.next_order_id == old(markets).next_order_id,
        decreases trades@.len() - i,
    {
        let t = trades[i];
        proof {
            let next = trades@.take(i + 1);
            assert(next.drop_last() =~= trades@.take(i as int));
            assert(next.last() == t);
            lemma_settle_ok_prefix(w0, h0, trades@, side, i + 1);
            lemma_settle_held_nonneg(h0, next, side);
            lemma_settle_held_nonneg(h0, trades@.take(i as int), side);
            lemma_settle_ok_prefix(w0, h0, trades@, side, i as int);
            assert(held_of(markets.player_holdings@, item) == settle_held(h0, trades@.take(i as int), side)) by {
                if i == 0 {
                    assert(trades@.take(0) =~= Seq::<TradeUi>::empty());
                }
            }
        }
        let total: i64 = t.price.0 * (t.quantity as i64);
        let held = match self_get(&markets.player_holdings, key) {
            Some(q) => q,
            None => 0,
        };
        match side {
            OrderSideUi::Buy => {
                markets.player_wallet = markets.player_wallet - CreditsUi(total);
                markets.player_holdings.insert(key, held + t.quantity);
            },
            OrderSideUi::Sell => {
                markets.player_wallet = markets.player_wallet + CreditsUi(total);
                markets.player_holdings.insert(key, held.saturating_sub(t.quantity));
            },
        }
        i = i + 1;
    }
    proof {
        assert(trades@.take(trades@.len() as int) =~= trades@);
    }
}

fn self_get(m: &HashMap<u8, u32>, key: u8) -> (r: Option<u32>)
    ensures
        r == if m@.contains_key(key) { Some(m@[key]) } else { None::<u32> },
{
    match m.get(&key) {
        Some(q) => Some(*q),
        None => None,
    }
}

/// What matching an order of `quantity > 0` does to the markets (`m0`
/// before, `m1` after) and which trades it makes: the order fills against
/// the opposite side of its item's book (created when missing), the rest
/// rests at its limit under the next order id, the book's last price and
/// history record the fills, and the player's wallet and holdings settle
/// them.
pub open spec fn order_matched(
    m0: MarketsUi,
    m1: MarketsUi,
    side: OrderSideUi,
    item: ItemType,
    limit_price: CreditsUi,
    quantity: u32,
    trades: Seq<TradeUi>,
) -> bool {
    let (left, fills, unfilled) = match_ui(opposite_orders(m0, item, side), side, item, limit_price.0, quantity);
    let p0 = book_index(m0.books@, item);
    let p = if p0 >= 0 { p0 } else { m0.books@.len() as int };
    let b = m1.books@[p];
    let own0 = if p0 >= 0 {
        match side {
            OrderSideUi::Buy => m0.books@[p0].buys@,
            OrderSideUi::Sell => m0.books@[p0].sells@,
        }
    } else {
        Seq::<OrderUi>::empty()
    };
    let own = match side {
        OrderSideUi::Buy => b.buys@,
        OrderSideUi::Sell => b.sells@,
    };
    let other = match side {
        OrderSideUi::Buy => b.sells@,
        OrderSideUi::Sell => b.buys@,
    };
    let hist0 = if p0 >= 0 { m0.books@[p0].price_history@ } else { Seq::<CreditsUi>::empty() };
    let last0 = if p0 >= 0 { m0.books@[p0].last_price } else { None };
    let rest = OrderUi {
        id: m0.next_order_id,
        side,
        item,
        price: limit_price,
        quantity: unfilled,
        placed_by: m0.player_id,
    };
    &&& trades == fills
    &&& m1.books@.len() == if p0 >= 0 { m0.books@.len() } else { m0.books@.len() + 1 }
    &&& forall|j: int| 0 <= j < m0.books@.len() && j != p ==> #[trigger] m1.books@[j] == m0.books@[j]
    &&& b.item == item
    &&& other == left
    &&& own == if unfilled > 0 { own0.insert(insert_pos(own0, side, limit_price.0), rest) } else { own0 }
    &&& b.price_history@ == history_after(hist0, fills)
    &&& b.last_price == if fills.len() > 0 { Some(fills.last().price) } else { last0 }
    &&& m1.next_order_id == m0.next_order_id + 1
    &&& m1.player_id == m0.player_id
    &&& m1.player_wallet.0 == settle_wallet(m0.player_wallet.0 as int, fills, side)
    &&& m1.player_holdings@ == if fills.len() > 0 {
        m0.player_holdings@.insert(
            holding_key(item),
            settle_held(held_of(m0.player_holdings@, item) as int, fills, side) as u32,
        )
    } else {
        m0.player_holdings@
    }
}

/// Submits the player's order: it trades against the other side as far as
/// it crosses (each fill at the resting price, recorded in the book's
/// history), what is left rests on the book under the next order id, and
/// the fills are settled against the player's wallet and holdings. A zero
/// quantity does nothing.
pub fn match_order_ui(markets: &mut MarketsUi, side: OrderSideUi, item: ItemType, limit_price: CreditsUi, quantity: u32) -> (trades: Vec<TradeUi>)
    requires
        quantity > 0 ==> old(markets).next_order_id < u64::MAX,
        quantity > 0 ==> settle_ok(
            old(markets).player_wallet.0 as int,
            held_of(old(markets).player_holdings@, item) as int,
            fills_of(*old(markets), side, item, limit_price.0, quantity),
            side,
        ),
    ensures
        quantity == 0 ==> trades@.len() == 0 && *final(markets) == *old(markets),
        quantity > 0 ==> order_matched(*old(markets), *final(markets), side, item, limit_price, quantity, trades@),
{
    if quantity == 0 {
        return Vec::new();
    }
    let taker_id = markets.player_id;
    let next_id = markets.next_id();
    let ghost m1 = *markets;
    let k = match find_book_ui(&markets.books, item) {
        Some(k) => k,
        None => {
            markets.books.push(OrderBookUi::new(item));
            markets.books.len() - 1
        },
    };
    let ghost m2 = *markets;
    proof {
        lemma_book_index(m1.books@, item);
        assert(m2.books@[k as int].item == item);
    }
    let (trades, unfilled) = markets.books[k].match_incoming(side, limit_price, quantity);
    if unfilled > 0 {
        markets.books[k].insert_sorted(
            OrderUi { id: next_id, side, item, price: limit_price, quantity: unfilled, placed_by: taker_id },
        );
    }
    settle(markets, &trades, side, item);
    proof {
        let m0 = *old(markets);
        let mm = *markets;
        let (left, fills, unfilled2) = match_ui(opposite_orders(m0, item, side), side, item, limit_price.0, quantity);
        let p0 = book_index(m0.books@, item);
        let p = if p0 >= 0 { p0 } else { m0.books@.len() as int };
        assert(trades@ == fills);
        assert(mm.books@.len() == if p0 >= 0 { m0.books@.len() } else { m0.books@.len() + 1 });
        assert(mm.books@[p].item == item);
        assert(mm.next_order_id == m0.next_order_id + 1);
        assert(mm.player_wallet.0 == settle_wallet(m0.player_wallet.0 as int, fills, side));
        let b = mm.books@[p];
        let own0 = if p0 >= 0 {
            match side {
                OrderSideUi::Buy => m0.books@[p0].buys@,
                OrderSideUi::Sell => m0.books@[p0].sells@,
            }
        } else {
            Seq::<OrderUi>::empty()
        };
        let own = match side {
            OrderSideUi::Buy => b.buys@,
            OrderSideUi::Sell => b.sells@,
        };
        let other = match side {
            OrderSideUi::Buy => b.sells@,
            OrderSideUi::Sell => b.buys@,
        };
        let hist0 = if p0 >= 0 { m0.books@[p0].price_history@ } else { Seq::<CreditsUi>::empty() };
        let last0 = if p0 >= 0 { m0.books@[p0].last_price } else { None };
        let rest = OrderUi {
            id: m0.next_order_id,
            side,
            item,
            price: limit_price,
            quantity: unfilled2,
            placed_by: m0.player_id,
        };
        assert(forall|j: int| 0 <= j < m0.books@.len() && j != p ==> #[trigger] mm.books@[j] == m0.books@[j]);
        assert(other == left);
        assert(own == if unfilled2 > 0 { own0.insert(insert_pos(own0, side, limit_price.0), rest) } else { own0 });
        assert(b.price_history@ == history_after(hist0, fills));
        assert(b.last_price == if fills.len() > 0 { Some(fills.last().price) } else { last0 });
        assert(mm.player_id == m0.player_id);
        assert(mm.player_holdings@ == if fills.len() > 0 {
            m0.player_holdings@.insert(
                holding_key(item),
                settle_held(held_of(m0.player_holdings@, item) as int, fills, side) as u32,
            )
        } else {
            m0.player_holdings@
        });
    }
    trades
}

/// Why an order may not be placed, if it may not: no quantity, a price that
/// is not positive, a buy costing more than the wallet holds, or a sell of
/// more than is held.
pub open spec fn order_problem(m: MarketsUi, side: OrderSideUi, item: ItemType, price: i64, quantity: u32) -> Option<Seq<char>> {
    if quantity == 0 {
        Some("Quantity must be at least 1"@)
    } else if price <= 0 {
        Some("Price must be positive"@)
    } else {
        match side {
            OrderSideUi::Buy => {
                let cost = price * quantity;
                if cost > m.player_wallet.0 {
                    Some(
                        "Insufficient credits (need "@ + credits_ui_text(cost as i64) + ", have "@
                            + credits_ui_text(m.player_wallet.0) + ")"@,
                    )
                } else {
                    None
                }
            },
            OrderSideUi::Sell => {
                let held = held_of(m.player_holdings@, item);
                if quantity > held {
                    Some(
                        "Insufficient holdings ("@ + decimal(held as nat) + " in stock, "@ + decimal(
                            quantity as nat,
                        ) + " requested)"@,
                    )
                } else {
                    None
                }
            },
        }
    }
}

/// Checks an order before it is submitted; `None` when it may be placed,
/// else the reason it may not.
pub fn validate_order_ui(markets: &MarketsUi, side: OrderSideUi, item: ItemType, price: CreditsUi, quantity: u32) -> (r: Option<String>)
    requires
        side == OrderSideUi::Buy && quantity > 0 && price.0 > 0 ==> price.0 * quantity <= i64::MAX,
    ensures
        match r {
            Some(msg) => order_problem(*markets, side, item, price.0, quantity) == Some(msg@),
            None => order_problem(*markets, side, item, price.0, quantity).is_none(),
        },
{
    if quantity == 0 {
        return Some(owned("Quantity must be at least 1"));
    }
    if price.0 <= 0 {
        return Some(owned("Price must be positive"));
    }
    match side {
        OrderSideUi::Buy => {
            let cost = CreditsUi(price.0 * (quantity as i64));
            if cost.0 > markets.player_wallet.0 {
                let mut msg = String::new();
                push_str(&mut msg, "Insufficient credits (need ");
                push_string(&mut msg, &cost.display());
                push_str(&mut msg, ", have ");
                push_string(&mut msg, &markets.player_wallet.display());
                push_str(&mut msg, ")");
                proof {
                    assert(msg@ =~= "Insufficient credits (need "@ + credits_ui_text(cost.0) + ", have "@
                        + credits_ui_text(markets.player_wallet.0) + ")"@);
                }
                return Some(msg);
            }
        },
        OrderSideUi::Sell => {
            let held = markets.holdings(item);
            if quantity > held {
                let mut msg = String::new();
                push_str(&mut msg, "Insufficient holdings (");
                push_decimal(&mut msg, held as u64);
                push_str(&mut msg, " in stock, ");
                push_decimal(&mut msg, quantity as u64);
                push_str(&mut msg, " requested)");
                proof {
                    assert(msg@ =~= "Insufficient holdings ("@ + decimal(held as nat) + " in stock, "@ + decimal(
                        quantity as nat,
                    ) + " requested)"@);
                }
                return Some(msg);
            }
        },
    }
    None
}

/// The market panel's "Submit Order": an order that fails validation is
/// refused with the reason and changes nothing; one that passes is matched
/// against the book and settled, and its trades are returned.
pub fn submit_order_ui(markets: &mut MarketsUi, side: OrderSideUi, item: ItemType, price: CreditsUi, quantity: u32) -> (r: Result<Vec<TradeUi>, String>)
    requires
        side == OrderSideUi::Buy && quantity > 0 && price.0 > 0 ==> price.0 * quantity <= i64::MAX,
        order_problem(*old(markets), side, item, price.0, quantity) is None ==> {
            &&& old(markets).next_order_id < u64::MAX
            &&& settle_ok(
                old(markets).player_wallet.0 as int,
                held_of(old(markets).player_holdings@, item) as int,
                fills_of(*old(markets), side, item, price.0, quantity),
                side,
            )
        },
    ensures
        match order_problem(*old(markets), side, item, price.0, quantity) {
            Some(reason) => (r matches Err(msg) && msg@ == reason) && *final(markets) == *old(markets),
            None => r matches Ok(trades) && order_matched(*old(markets), *final(markets), side, item, price, quantity, trades@),
        },
{
    match validate_order_ui(markets, side, item, price, quantity) {
        Some(reason) => Err(reason),
        None => Ok(match_order_ui(markets, side, item, price, quantity)),
    }
}

/// The kinds of job on the contract board.
#[derive(Clone, Copy, Debug, PartialEq, Eq, Structural)]
pub enum ContractKindUi {
    Courier,
    Manufacturing,
    Mercenary,
}

impl Default for ContractKindUi {
    fn default() -> (k: ContractKindUi)
        ensures
            k == ContractKindUi::Courier,
    {
        ContractKindUi::Courier
    }
}

impl ContractKindUi {
    /// Every kind, in order.
    pub fn all() -> (v: Vec<ContractKindUi>)
        ensures
            v@ == seq![ContractKindUi::Courier, ContractKindUi::Manufacturing, ContractKindUi::Mercenary],
    {
        let mut v = Vec::new();
        v.push(ContractKindUi::Courier);
        v.push(ContractKindUi::Manufacturing);
        v.push(ContractKindUi::Mercenary);
        v
    }

    pub fn label(self) -> (s: &'static str)
        ensures
            s@ == match self {
                ContractKindUi::Courier => "Courier"@,
                ContractKindUi::Manufacturing => "Manufacturing"@,
                ContractKindUi::Mercenary => "Mercenary"@,
            },
    {
        match self {
            ContractKindUi::Courier => "Courier",
            ContractKindUi::Manufacturing => "Manufacturing",
            ContractKindUi::Mercenary => "Mercenary",
        }
    }
}

/// A job posted on the board.
#[derive(Clone, Debug)]
pub struct ContractUi {
    pub id: u64,
    pub kind: ContractKindUi,
    pub item: ItemType,
    pub quantity: u32,
    pub reward: CreditsUi,
    pub poster: String,
    pub accepted_by: Option<u64>,
}

/// The job board and the id its next posting gets.
#[derive(Clone, Debug)]
pub struct ContractBoardUi {
    pub contracts: Vec<ContractUi>,
    pub next_id: u64,
}

impl Default for ContractBoardUi {
    fn default() -> (b: ContractBoardUi)
        ensures
            b.contracts@.len() == 0,
            b.next_id == 0,
    {
        ContractBoardUi { contracts: Vec::new(), next_id: 0 }
    }
}

impl ContractBoardUi {
    /// Hands out the next contract id.
    pub fn next_id(&mut self) -> (id: u64)
        requires
            old(self).next_id < u64::MAX,
        ensures
            id == old(self).next_id,
            final(self).next_id == old(self).next_id + 1,
            final(self).contracts@ == old(self).contracts@,
    {
        let id = self.next_id;
        self.next_id = self.next_id + 1;
        id
    }

    /// Posts a contract under the next id (whatever id it carried); returns
    /// the id.
    pub fn post(&mut self, contract: ContractUi) -> (id: u64)
        requires
            old(self).next_id < u64::MAX,
        ensures
            id == old(self).next_id,
            final(self).next_id == old(self).next_id + 1,
            final(self).contracts@ == old(self).contracts@.push(ContractUi { id, ..contract }),
    {
        let id = self.next_id();
        let mut contract = contract;
        contract.id = id;
        self.contracts.push(contract);
        id
    }
}

/// State of the market panel: open or not, and the order being drafted.
#[derive(Clone, Copy, Debug, PartialEq, Eq, Structural)]
pub struct MarketUiState {
    pub open: bool,
    pub selected_item: Option<ItemType>,
    pub draft_side: OrderSideUi,
    pub draft_price: CreditsUi,
    pub draft_quantity: u32,
}

impl Default for MarketUiState {
    fn default() -> (s: MarketUiState)
        ensures
            !s.open,
            s.selected_item == Some(ItemType::CopperOre),
            s.draft_side == OrderSideUi::Buy,
            s.draft_price.0 == 1000,
            s.draft_quantity == 1,
    {
        MarketUiState {
            open: false,
            selected_item: Some(ItemType::CopperOre),
            draft_side: OrderSideUi::Buy,
            draft_price: CreditsUi::from_whole(10),
            draft_quantity: 1,
        }
    }
}

/// State of the job board panel: open or not, and the contract being
/// drafted.
#[derive(Clone, Debug)]
pub struct ContractUiState {
    pub open: bool,
    pub draft_kind: ContractKindUi,
    pub draft_item: ItemType,
    pub draft_quantity: u32,
    pub draft_reward: CreditsUi,
    pub draft_poster: String,
}

impl Default for ContractUiState {
    fn default() -> (s: ContractUiState)
        ensures
            !s.open,
            s.draft_kind == ContractKindUi::Courier,
            s.draft_item == ItemType::CopperOre,
            s.draft_quantity == 10,
            s.draft_reward.0 == 10000,
            s.draft_poster@ == "Player"@,
    {
        ContractUiState {
            open: false,
            draft_kind: ContractKindUi::Courier,
            draft_item: ItemType::CopperOre,
            draft_quantity: 10,
            draft_reward: CreditsUi::from_whole(100),
            draft_poster: owned("Player"),
        }
    }
}

/// Seeds the job board with three contracts: a courier run, a
/// manufacturing order and a mercenary job.
pub fn init_contracts_ui(board: &mut ContractBoardUi)
    requires
        old(board).next_id <= u64::MAX - 3,
    ensures
        final(board).next_id == old(board).next_id + 3,
        final(board).contracts@.len() == old(board).contracts@.len() + 3,
        final(board).contracts@.subrange(0, old(board).contracts@.len() as int) == old(board).contracts@,
        ({
            let n = old(board).contracts@.len() as int;
            let c = final(board).contracts@;
            let id0 = old(board).next_id;
            &&& c[n].id == id0 && c[n].kind == ContractKindUi::Courier && c[n].item == ItemType::CopperOre
                && c[n].quantity == 50 && c[n].reward.0 == 25000 && c[n].poster@ == "Mercurius Mining Co."@
                && c[n].accepted_by.is_none()
            &&& c[n + 1].id == id0 + 1 && c[n + 1].kind == ContractKindUi::Manufacturing && c[n + 1].item
                == ItemType::BasicCircuit && c[n + 1].quantity == 10 && c[n + 1].reward.0 == 120000
                && c[n + 1].poster@ == "Sol Electronics"@ && c[n + 1].accepted_by.is_none()
            &&& c[n + 2].id == id0 + 2 && c[n + 2].kind == ContractKindUi::Mercenary && c[n + 2].item
                == ItemType::HullPlate && c[n + 2].quantity == 5 && c[n + 2].reward.0 == 200000
                && c[n + 2].poster@ == "Union Shipyards"@ && c[n + 2].accepted_by.is_none()
        }),
{
    board.post(
        ContractUi {
            id: 0,
            kind: ContractKindUi::Courier,
            item: ItemType::CopperOre,
            quantity: 50,
            reward: CreditsUi::from_whole(250),
            poster: owned("Mercurius Mining Co."),
            accepted_by: None,
        },
    );
    board.post(
        ContractUi {
            id: 0,
            kind: ContractKindUi::Manufacturing,
            item: ItemType::BasicCircuit,
            quantity: 10,
            reward: CreditsUi::from_whole(1200),
            poster: owned("Sol Electronics"),
            accepted_by: None,
        },
    );
    board.post(
        ContractUi {
            id: 0,
            kind: ContractKindUi::Mercenary,
            item: ItemType::HullPlate,
            quantity: 5,
            reward: CreditsUi::from_whole(2000),
            poster: owned("Union Shipyards"),
            accepted_by: None,
        },
    );
    proof {
        assert(final(board).contracts@.subrange(0, old(board).contracts@.len() as int) =~= old(board).contracts@);
    }
}

/// One step of the demo generator (a linear congruential generator).
#[verifier::opaque]
pub open spec fn lcg_next(s: u64) -> u64 {
    s.wrapping_mul(1664525).wrapping_add(1013904223)
}

/// The generator's state after `k` steps from `s`.
pub open spec fn lcg_iter(s: u64, k: nat) -> u64
    decreases k,
{
    if k == 0 {
        s
    } else {
        lcg_next(lcg_iter(s, (k - 1) as nat))
    }
}

/// The number drawn below `modulo` (at least 1) at the `k`-th step after
/// state `s`.
#[verifier::opaque]
pub open spec fn lcg_draw(s: u64, k: nat, modulo: u32) -> u32 {
    ((lcg_iter(s, k + 1) >> 16u64) as u32) % if modulo >= 1 { modulo } else { 1 }
}

/// Seed of the demo market's generator.
pub const DEMO_SEED: u64 = 0xC0FFEE;

/// Draws each demo book uses: four per order pair, one per history price.
pub const DRAWS_PER_BOOK: u64 = 22;

/// A tiny deterministic generator for demo data.
struct Lcg(u64);

impl Lcg {
    fn next_u32(&mut self, modulo: u32) -> (r: u32)
        ensures
            final(self).0 == lcg_next(old(self).0),
            r == lcg_draw(old(self).0, 0, modulo),
            r < if modulo >= 1 { modulo } else { 1 },
    {
        self.0 = self.0.wrapping_mul(1664525).wrapping_add(1013904223);
        let m = if modulo >= 1 { modulo } else { 1 };
        proof {
            reveal(lcg_next);
            reveal(lcg_draw);
            assert(lcg_iter(old(self).0, 1) == lcg_next(lcg_iter(old(self).0, 0)));
        }
        ((self.0 >> 16u64) as u32) % m
    }
}

proof fn lemma_lcg_shift(s: u64, a: nat, b: nat)
    ensures
        lcg_iter(lcg_iter(s, a), b) == lcg_iter(s, a + b),
    decreases b,
{
    if b > 0 {
        lemma_lcg_shift(s, a, (b - 1) as nat);
    }
}

/// The demo bid number `i` of a book, drawn from state `s`.
pub open spec fn demo_bid(s: u64, item: ItemType, base: i64, i: nat) -> OrderUi {
    OrderUi {
        id: i as u64,
        side: OrderSideUi::Buy,
        item,
        price: CreditsUi((base * 100 - (50 + lcg_draw(s, 4 * i, 250))) as i64),
        quantity: (5 + lcg_draw(s, 4 * i + 1, 20)) as u32,
        placed_by: (1000 + i) as u64,
    }
}

/// The demo ask number `i` of a book, drawn from state `s`.
pub open spec fn demo_ask(s: u64, item: ItemType, base: i64, i: nat) -> OrderUi {
    OrderUi {
        id: (100 + i) as u64,
        side: OrderSideUi::Sell,
        item,
        price: CreditsUi((base * 100 + 50 + lcg_draw(s, 4 * i + 2, 250)) as i64),
        quantity: (5 + lcg_draw(s, 4 * i + 3, 20)) as u32,
        placed_by: (2000 + i) as u64,
    }
}

/// The demo trade price number `k` of a book, drawn from state `s`.
pub open spec fn demo_price(s: u64, base: i64, k: nat) -> CreditsUi {
    CreditsUi((base * 100 + lcg_draw(s, 12 + k, 200) - 100) as i64)
}

/// The bids after inserting the first `n` demo bids drawn from state `s`.
pub open spec fn seeded_bids(orders: Seq<OrderUi>, s: u64, item: ItemType, base: i64, n: nat) -> Seq<OrderUi>
    decreases n,
{
    if n == 0 {
        orders
    } else {
        let prev = seeded_bids(orders, s, item, base, (n - 1) as nat);
        let o = demo_bid(s, item, base, (n - 1) as nat);
        prev.insert(insert_pos(prev, OrderSideUi::Buy, o.price.0), o)
    }
}

/// The asks after inserting the first `n` demo asks drawn from state `s`.
pub open spec fn seeded_asks(orders: Seq<OrderUi>, s: u64, item: ItemType, base: i64, n: nat) -> Seq<OrderUi>
    decreases n,
{
    if n == 0 {
        orders
    } else {
        let prev = seeded_asks(orders, s, item, base, (n - 1) as nat);
        let o = demo_ask(s, item, base, (n - 1) as nat);
        prev.insert(insert_pos(prev, OrderSideUi::Sell, o.price.0), o)
    }
}

/// A history after recording the first `n` demo prices.
pub open spec fn seeded_history(h: Seq<CreditsUi>, s: u64, base: i64, n: nat) -> Seq<CreditsUi>
    decreases n,
{
    if n == 0 {
        h
    } else {
        history_push(seeded_history(h, s, base, (n - 1) as nat), demo_price(s, base, (n - 1) as nat))
    }
}

/// Draws `k` steps into a stretch that starts `a` steps after `s` are the
/// draws `a + k` steps after `s`.
proof fn lemma_draw_shift(s: u64, a: nat, k: nat, m: u32)
    ensures
        lcg_draw(lcg_iter(s, a), k, m) == lcg_draw(s, a + k, m),
{
    reveal(lcg_draw);
    lemma_lcg_shift(s, a, k + 1);
}

/// Inserts the demo bid and ask number `i`, drawing four numbers.
fn seed_pair(book: &mut OrderBookUi, base: i64, i: u64, rng: &mut Lcg)
    requires
        0 < base <= 1000,
        i < 3,
    ensures
        final(rng).0 == lcg_iter(old(rng).0, 4),
        final(book).item == old(book).item,
        ({
            let t = old(rng).0;
            let b = OrderUi {
                id: i,
                side: OrderSideUi::Buy,
                item: old(book).item,
                price: CreditsUi((base * 100 - (50 + lcg_draw(t, 0, 250))) as i64),
                quantity: (5 + lcg_draw(t, 1, 20)) as u32,
                placed_by: (1000 + i) as u64,
            };
            let a = OrderUi {
                id: (100 + i) as u64,
                side: OrderSideUi::Sell,
                item: old(book).item,
                price: CreditsUi((base * 100 + 50 + lcg_draw(t, 2, 250)) as i64),
                quantity: (5 + lcg_draw(t, 3, 20)) as u32,
                placed_by: (2000 + i) as u64,
            };
            &&& final(book).buys@ == old(book).buys@.insert(insert_pos(old(book).buys@, OrderSideUi::Buy, b.price.0), b)
            &&& final(book).sells@ == old(book).sells@.insert(insert_pos(old(book).sells@, OrderSideUi::Sell, a.price.0), a)
        }),
        final(book).price_history@ == old(book).price_history@,
        final(book).last_price == old(book).last_price,
{
    let ghost t = rng.0;
    proof {
        assert(lcg_iter(t, 0) == t);
        assert(lcg_iter(t, 1) == lcg_next(lcg_iter(t, 0)));
        assert(lcg_iter(t, 2) == lcg_next(lcg_iter(t, 1)));
        assert(lcg_iter(t, 3) == lcg_next(lcg_iter(t, 2)));
        assert(lcg_iter(t, 4) == lcg_next(lcg_iter(t, 3)));
        lemma_draw_shift(t, 1, 0, 20);
        lemma_draw_shift(t, 2, 0, 250);
        lemma_draw_shift(t, 3, 0, 20);
        lemma_lcg_shift(t, 1, 1);
        lemma_lcg_shift(t, 2, 1);
        lemma_lcg_shift(t, 3, 1);
    }
    let item = book.item;
    let off = 50 + rng.next_u32(250) as i64;
    let qty = 5 + rng.next_u32(20);
    book.insert_sorted(OrderUi { id: i, side: OrderSideUi::Buy, item, price: CreditsUi(base * 100 - off), quantity: qty, placed_by: 1000 + i });
    let off = 50 + rng.next_u32(250) as i64;
    let qty = 5 + rng.next_u32(20);
    book.insert_sorted(OrderUi { id: 100 + i, side: OrderSideUi::Sell, item, price: CreditsUi(base * 100 + off), quantity: qty, placed_by: 2000 + i });
}

/// Seeds one book with three demo bids below and three asks above `base`
/// whole credits, and ten demo trade prices around it.
fn seed_book(book: &mut OrderBookUi, base: i64, rng: &mut Lcg)
    requires
        0 < base <= 1000,
    ensures
        final(rng).0 == lcg_iter(old(rng).0, DRAWS_PER_BOOK as nat),
        final(book).item == old(book).item,
        final(book).buys@ == seeded_bids(old(book).buys@, old(rng).0, old(book).item, base, 3),
        final(book).sells@ == seeded_asks(old(book).sells@, old(rng).0, old(book).item, base, 3),
        final(book).price_history@ == seeded_history(old(book).price_history@, old(rng).0, base, 10),
        final(book).last_price == Some(demo_price(old(rng).0, base, 9)),
{
    let ghost s0 = rng.0;
    let ghost item = book.item;
    let mut i: u64 = 0;
    while i < 3
        invariant
            i <= 3,
            0 < base <= 1000,
            item == book.item,
            item == old(book).item,
            rng.0 == lcg_iter(s0, (4 * i) as nat),
            book.buys@ == seeded_bids(old(book).buys@, s0, item, base, i as nat),
            book.sells@ == seeded_asks(old(book).sells@, s0, item, base, i as nat),
            book.price_history@ == old(book).price_history@,
            book.last_price == old(book).last_price,
        decreases 3 - i,
    {
        proof {
            lemma_draw_shift(s0, (4 * i) as nat, 0, 250);
            lemma_draw_shift(s0, (4 * i) as nat, 1, 20);
            lemma_draw_shift(s0, (4 * i) as nat, 2, 250);
            lemma_draw_shift(s0, (4 * i) as nat, 3, 20);
            lemma_lcg_shift(s0, (4 * i) as nat, 4);
        }
        seed_pair(book, base, i, rng);
        i = i + 1;
    }
    let mut k: u64 = 0;
    while k < 10
        invariant
            k <= 10,
            0 < base <= 1000,
            item == book.item,
            item == old(book).item,
            rng.0 == lcg_iter(s0, (12 + k) as nat),
            book.buys@ == seeded_bids(old(book).buys@, s0, item, base, 3),
            book.sells@ == seeded_asks(old(book).sells@, s0, item, base, 3),
            book.price_history@ == seeded_history(old(book).price_history@, s0, base, k as nat),
            k > 0 ==> book.last_price == Some(demo_price(s0, base, (k - 1) as nat)),
        decreases 10 - k,
    {
        proof {
            lemma_draw_shift(s0, (12 + k) as nat, 0, 200);
            lemma_lcg_shift(s0, (12 + k) as nat, 1);
        }
        let jitter = rng.next_u32(200) as i64 - 100;
        book.record_trade(CreditsUi(base * 100 + jitter));
        k = k + 1;
    }
}

/// Base price, in whole credits, of each traded item in the demo market.
pub open spec fn demo_base(item: ItemType) -> i64 {
    match item {
        ItemType::CopperOre => 5,
        ItemType::IronOre => 5,
        ItemType::CopperIngot => 12,
        ItemType::IronIngot => 12,
        ItemType::CopperPlate => 20,
        ItemType::IronPlate => 20,
        ItemType::CopperWire => 30,
        ItemType::BasicCircuit => 75,
        ItemType::HullPlate => 150,
    }
}

fn base_price(item: ItemType) -> (b: i64)
    ensures
        b == demo_base(item),
{
    match item {
        ItemType::CopperOre => 5,
        ItemType::IronOre => 5,
        ItemType::CopperIngot => 12,
        ItemType::IronIngot => 12,
        ItemType::CopperPlate => 20,
        ItemType::IronPlate => 20,
        ItemType::CopperWire => 30,
        ItemType::BasicCircuit => 75,
        ItemType::HullPlate => 150,
    }
}

/// The bids, asks and price history a book starts from: those of the
/// item's existing book, or nothing.
pub open spec fn start_of(books: Seq<OrderBookUi>, item: ItemType) -> (Seq<OrderUi>, Seq<OrderUi>, Seq<CreditsUi>) {
    let p = book_index(books, item);
    if p >= 0 {
        (books[p].buys@, books[p].sells@, books[p].price_history@)
    } else {
        (Seq::empty(), Seq::empty(), Seq::empty())
    }
}

/// Book `b` is the demo seeding of the `j`-th market item from the given
/// start.
pub open spec fn demo_seeded(b: OrderBookUi, start: (Seq<OrderUi>, Seq<OrderUi>, Seq<CreditsUi>), j: nat) -> bool {
    let item = crate::item::item_at(j);
    let s = lcg_iter(DEMO_SEED, (DRAWS_PER_BOOK * j) as nat);
    let base = demo_base(item);
    &&& b.item == item
    &&& b.buys@ == seeded_bids(start.0, s, item, base, 3)
    &&& b.sells@ == seeded_asks(start.1, s, item, base, 3)
    &&& b.price_history@ == seeded_history(start.2, s, base, 10)
    &&& b.last_price == Some(demo_price(s, base, 9))
}

/// The demo holdings: fifty of every traded item (keys 0 to 8), other
/// entries kept.
pub open spec fn demo_holdings(m: Map<u8, u32>) -> Map<u8, u32> {
    m.union_prefer_right(Map::new(|k: u8| k < 9, |k: u8| 50u32))
}

proof fn lemma_book_index_update(s: Seq<OrderBookUi>, p: int, b: OrderBookUi, x: ItemType)
    requires
        0 <= p < s.len(),
        b.item == s[p].item,
        book_index(s, s[p].item) == p,
    ensures
        book_index(s.update(p, b), x) == book_index(s, x),
    decreases s.len(),
{
    lemma_book_index(s, x);
    lemma_book_index(s.update(p, b), x);
    let t = s.update(p, b);
    assert forall|k: int| 0 <= k < s.len() implies #[trigger] t[k].item == s[k].item by {}
    if book_index(t, x) != book_index(s, x) {
        if book_index(s, x) >= 0 {
            assert(t[book_index(s, x)].item == x);
        }
        if book_index(t, x) >= 0 {
            assert(s[book_index(t, x)].item == x);
        }
    }
}

proof fn lemma_book_index_push(s: Seq<OrderBookUi>, b: OrderBookUi, x: ItemType)
    requires
        book_index(s, b.item) < 0,
    ensures
        book_index(s.push(b), x) == if x == b.item { s.len() as int } else { book_index(s, x) },
{
    let t = s.push(b);
    assert(t.drop_last() =~= s);
}

/// Seeds the demo market: a starting wallet, fifty of every item, and for
/// every item three bids below and three asks above its base price plus ten
/// recent trade prices, all drawn from a fixed-seed generator; order ids
/// then continue from 10000.
pub fn init_markets_ui(markets: &mut MarketsUi)
    ensures
        final(markets).player_wallet.0 == STARTING_WALLET_WHOLE * 100,
        final(markets).player_id == 1,
        final(markets).next_order_id == 10000,
        final(markets).player_holdings@ == demo_holdings(old(markets).player_holdings@),
        forall|j: nat| j < 9 ==> {
            let p = book_index(final(markets).books@, #[trigger] crate::item::item_at(j));
            &&& p >= 0
            &&& demo_seeded(final(markets).books@[p], start_of(old(markets).books@, crate::item::item_at(j)), j)
        },
        final(markets).books@.len() >= old(markets).books@.len(),
        forall|k: int| 0 <= k < old(markets).books@.len() ==> {
            &&& #[trigger] final(markets).books@[k].item == old(markets).books@[k].item
            &&& k != book_index(old(markets).books@, old(markets).books@[k].item) ==> final(markets).books@[k]
                == old(markets).books@[k]
        },
{
    markets.player_wallet = CreditsUi::from_whole(STARTING_WALLET_WHOLE);
    markets.player_id = 1;
    markets.next_order_id = 0;
    let items = ui_market_items();
    let mut i: usize = 0;
    while i < 9
        invariant
            i <= 9,
            items@ == seq![
                ItemType::CopperOre,
                ItemType::IronOre,
                ItemType::CopperIngot,
                ItemType::IronIngot,
                ItemType::CopperPlate,
                ItemType::IronPlate,
                ItemType::CopperWire,
                ItemType::BasicCircuit,
                ItemType::HullPlate,
            ],
            markets.player_holdings@ == old(markets).player_holdings@.union_prefer_right(
                Map::new(|k: u8| k < i, |k: u8| 50u32),
            ),
            markets.books@ == old(markets).books@,
            markets.player_wallet.0 == STARTING_WALLET_WHOLE * 100,
            markets.player_id == 1,
        decreases 9 - i,
    {
        let key = item_key(items[i]);
        proof {
            assert(key == i);
        }
        markets.player_holdings.insert(key, 50);
        proof {
            assert(markets.player_holdings@ =~= old(markets).player_holdings@.union_prefer_right(
                Map::new(|k: u8| k < i + 1, |k: u8| 50u32),
            ));
        }
        i = i + 1;
    }
    proof {
        assert(markets.player_holdings@ =~= demo_holdings(old(markets).player_holdings@));
    }
    let ghost books0 = old(markets).books@;
    let mut rng = Lcg(DEMO_SEED);
    let mut j: usize = 0;
    while j < 9
        invariant
            j <= 9,
            items@ == seq![
                ItemType::CopperOre,
                ItemType::IronOre,
                ItemType::CopperIngot,
                ItemType::IronIngot,
                ItemType::CopperPlate,
                ItemType::IronPlate,
                ItemType::CopperWire,
                ItemType::BasicCircuit,
                ItemType::HullPlate,
            ],
            books0 == old(markets).books@,
            rng.0 == lcg_iter(DEMO_SEED, (DRAWS_PER_BOOK * j) as nat),
            markets.player_holdings@ == demo_holdings(old(markets).player_holdings@),
            markets.player_wallet.0 == STARTING_WALLET_WHOLE * 100,
            markets.player_id == 1,
            markets.books@.len() >= books0.len(),
            forall|jj: nat| jj < j ==> {
                let p = book_index(markets.books@, #[trigger] crate::item::item_at(jj));
                &&& p >= 0
                &&& demo_seeded(markets.books@[p], start_of(books0, crate::item::item_at(jj)), jj)
            },
            forall|jj: nat| j <= jj < 9 ==> {
                let x = #[trigger] crate::item::item_at(jj);
                &&& book_index(markets.books@, x) == book_index(books0, x)
                &&& book_index(books0, x) >= 0 ==> markets.books@[book_index(books0, x)] == books0[book_index(books0, x)]
            },
            forall|k: int| 0 <= k < books0.len() ==> {
                &&& #[trigger] markets.books@[k].item == books0[k].item
                &&& (k != book_index(books0, books0[k].item) || crate::item::item_index(books0[k].item) >= j)
                    ==> markets.books@[k] == books0[k]
            },
        decreases 9 - j,
    {
        let item = items[j];
        let base = base_price(item);
        proof {
            crate::item::lemma_item_index_bijective(item, j as nat);
            assert(item == crate::item::item_at(j as nat));
        }
        let ghost before = markets.books@;
        let k = match find_book_ui(&markets.books, item) {
            Some(k) => k,
            None => {
                markets.books.push(OrderBookUi::new(item));
                proof {
                    assert forall|x: ItemType| #[trigger] book_index(markets.books@, x) == if x == item {
                        before.len() as int
                    } else {
                        book_index(before, x)
                    } by {
                        lemma_book_index_push(before, markets.books@.last(), x);
                    }
                }
                markets.books.len() - 1
            },
        };
        let ghost mid = markets.books@;
        proof {
            lemma_book_index(mid, item);
            lemma_book_index(before, item);
            assert(book_index(mid, item) == k);
            assert forall|x: ItemType| x != item implies #[trigger] book_index(mid, x) == book_index(before, x) by {
                if k >= before.len() {
                    lemma_book_index_push(before, mid.last(), x);
                }
            }
            assert forall|q: int| 0 <= q < before.len() implies #[trigger] mid[q] == before[q] by {
                if k >= before.len() {
                    assert(mid[q] == before[q]);
                }
            }
        }
        let ghost s_j = rng.0;
        seed_book(&mut markets.books[k], base, &mut rng);
        proof {
            let fin = markets.books@;
            lemma_lcg_shift(DEMO_SEED, (DRAWS_PER_BOOK * j) as nat, DRAWS_PER_BOOK as nat);
            assert(fin == mid.update(k as int, fin[k as int]));
            assert forall|x: ItemType| #[trigger] book_index(fin, x) == book_index(mid, x) by {
                lemma_book_index_update(mid, k as int, fin[k as int], x);
            }
            assert(start_of(books0, item) == (mid[k as int].buys@, mid[k as int].sells@, mid[k as int].price_history@)) by {
                crate::item::lemma_item_index_bijective(item, j as nat);
                if book_index(books0, item) >= 0 {
                    assert(book_index(before, item) == book_index(books0, item));
                }
            }
            assert(demo_seeded(fin[k as int], start_of(books0, item), j as nat));
            assert forall|jj: nat| jj < j + 1 implies {
                let p = book_index(fin, #[trigger] crate::item::item_at(jj));
                &&& p >= 0
                &&& demo_seeded(fin[p], start_of(books0, crate::item::item_at(jj)), jj)
            } by {
                let x = crate::item::item_at(jj);
                crate::item::lemma_item_index_bijective(x, jj);
                if jj < j {
                    let p = book_index(before, x);
                    lemma_book_index(before, x);
                    assert(x != item);
                    assert(book_index(fin, x) == p);
                    assert(fin[p] == before[p]);
                }
            }
            assert forall|jj: nat| j + 1 <= jj < 9 implies {
                let x = #[trigger] crate::item::item_at(jj);
                &&& book_index(fin, x) == book_index(books0, x)
                &&& book_index(books0, x) >= 0 ==> fin[book_index(books0, x)] == books0[book_index(books0, x)]
            } by {
                let x = crate::item::item_at(jj);
                crate::item::lemma_item_index_bijective(x, jj);
                assert(x != item);
                lemma_book_index(books0, x);
                if book_index(books0, x) >= 0 {
                    assert(books0[book_index(books0, x)].item == x);
                }
            }
            assert forall|q: int| 0 <= q < books0.len() implies {
                &&& #[trigger] fin[q].item == books0[q].item
                &&& (q != book_index(books0, books0[q].item) || crate::item::item_index(books0[q].item) >= j + 1)
                    ==> fin[q] == books0[q]
            } by {
                let x = books0[q].item;
                if q == k {
                    assert(x == item);
                    crate::item::lemma_item_index_bijective(item, j as nat);
                    lemma_book_index(books0, item);
                }
            }
        }
        j = j + 1;
    }
    markets.next_order_id = 10000;
}

} // verus!

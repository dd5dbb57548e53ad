//! Price-time priority order book and matching engine.
//!
//! A new Buy at price P crosses resting Sells priced at or below P, lowest
//! ask first; a new Sell crosses resting Buys priced at or above P, highest
//! bid first. Within a price level older orders fill first. Every trade
//! executes at the resting (maker) order's price. Partially filled resting
//! orders keep their place; an unfilled remainder of the new order rests on
//! its own side of the book.
use crate::credits::Credits;
use crate::item::ItemType;
use vstd::prelude::*;

verus! {

/// Which side of the book an order sits on.
#[derive(Clone, Copy, Debug, PartialEq, Eq, Structural)]
pub enum OrderSide {
    Buy,
    Sell,
}

/// A resting or incoming order.
#[derive(Clone, Copy, Debug, PartialEq, Eq, Structural)]
pub struct Order {
    /// Globally unique id.
    pub id: u64,
    pub side: OrderSide,
    pub item: ItemType,
    /// Price per unit.
    pub price: Credits,
    /// Remaining unfilled quantity.
    pub quantity: u32,
    /// Player or entity that placed the order.
    pub placed_by: u64,
}

/// A completed trade between a taker and a maker.
#[derive(Clone, Copy, Debug, PartialEq, Eq, Structural)]
pub struct Trade {
    pub item: ItemType,
    /// Execution price: always the maker's price.
    pub price: Credits,
    pub quantity: u32,
    pub buyer: u64,
    pub seller: u64,
    /// Game tick at which the trade happened.
    pub timestamp: u64,
}

impl Order {
    pub fn new(
        id: u64,
        side: OrderSide,
        item: ItemType,
        price: Credits,
        quantity: u32,
        placed_by: u64,
    ) -> (o: Order)
        ensures
            o == (Order { id, side, item, price, quantity, placed_by }),
    {
        Order { id, side, item, price, quantity, placed_by }
    }
}

/// Does a taker with limit price `limit` on `side` trade against a maker priced `maker`?
pub open spec fn crosses(side: OrderSide, limit: i64, maker: i64) -> bool {
    match side {
        OrderSide::Buy => maker <= limit,
        OrderSide::Sell => maker >= limit,
    }
}

/// Does a new order priced `price` on `side` take priority over a resting order priced `resting`?
pub open spec fn outranks(side: OrderSide, price: i64, resting: i64) -> bool {
    match side {
        OrderSide::Buy => resting < price,
        OrderSide::Sell => resting > price,
    }
}

/// The order with a different remaining quantity.
pub open spec fn with_quantity(o: Order, q: int) -> Order {
    Order {
        id: o.id,
        side: o.side,
        item: o.item,
        price: o.price,
        quantity: q as u32,
        placed_by: o.placed_by,
    }
}

/// The trade produced when `taker` fills `fill` units against `maker`.
pub open spec fn fill_trade(taker: Order, maker: Order, fill: int, now: u64) -> Trade {
    Trade {
        item: taker.item,
        price: maker.price,
        quantity: fill as u32,
        buyer: if taker.side == OrderSide::Buy {
            taker.placed_by
        } else {
            maker.placed_by
        },
        seller: if taker.side == OrderSide::Buy {
            maker.placed_by
        } else {
            taker.placed_by
        },
        timestamp: now,
    }
}

/// Quantity filled by the next step of matching.
pub open spec fn fill_qty(taker: Order, maker: Order) -> int {
    if taker.quantity <= maker.quantity {
        taker.quantity as int
    } else {
        maker.quantity as int
    }
}

/// Matches `taker` against the opposite side `resting` (best price first).
/// Returns the resting orders left, the trades in execution order, and the
/// taker with its unfilled quantity.
pub open spec fn match_orders(resting: Seq<Order>, taker: Order, now: u64) -> (
    Seq<Order>,
    Seq<Trade>,
    Order,
)
    decreases resting.len() + taker.quantity,
{
    if taker.quantity == 0 || resting.len() == 0 || !crosses(
        taker.side,
        taker.price@,
        resting[0].price@,
    ) {
        (resting, Seq::empty(), taker)
    } else {
        let maker = resting[0];
        let fill = fill_qty(taker, maker);
        let rest = if fill == maker.quantity {
            resting.drop_first()
        } else {
            resting.update(0, with_quantity(maker, maker.quantity - fill))
        };
        let next = match_orders(rest, with_quantity(taker, taker.quantity - fill), now);
        (next.0, seq![fill_trade(taker, maker, fill, now)] + next.1, next.2)
    }
}

/// Index at which a new order priced `price` rests on its side: after every
/// order at least as good (time priority), before the first worse one.
pub open spec fn rest_position(side: OrderSide, book: Seq<Order>, price: i64) -> nat
    decreases book.len(),
{
    if book.len() == 0 {
        0
    } else if outranks(side, price, book[0].price@) {
        0
    } else {
        1 + rest_position(side, book.drop_first(), price)
    }
}

/// The side `book` with `o` inserted at its priority position.
pub open spec fn rest_order(book: Seq<Order>, o: Order) -> Seq<Order> {
    book.insert(rest_position(o.side, book, o.price@) as int, o)
}

/// Sum of the quantities of some orders.
pub open spec fn order_qty(s: Seq<Order>) -> nat
    decreases s.len(),
{
    if s.len() == 0 {
        0
    } else {
        order_qty(s.drop_last()) + s.last().quantity as nat
    }
}

/// Sum of the quantities of some trades.
pub open spec fn trade_qty(s: Seq<Trade>) -> nat
    decreases s.len(),
{
    if s.len() == 0 {
        0
    } else {
        trade_qty(s.drop_last()) + s.last().quantity as nat
    }
}

/// Index of the first order with id `id`, or -1.
pub open spec fn position_of_id(s: Seq<Order>, id: u64) -> int
    decreases s.len(),
{
    if s.len() == 0 {
        -1
    } else if s[0].id == id {
        0
    } else {
        let p = position_of_id(s.drop_first(), id);
        if p < 0 {
            -1
        } else {
            p + 1
        }
    }
}

/// A well-formed side of the book: orders of the right side and item, all
/// with something left to fill, sorted best price first.
pub open spec fn side_wf(s: Seq<Order>, side: OrderSide, item: ItemType) -> bool {
    &&& forall|i: int|
        #![trigger s[i]]
        0 <= i < s.len() ==> s[i].side == side && s[i].item == item && s[i].quantity > 0
    &&& forall|i: int, j: int|
        #![trigger s[i], s[j]]
        0 <= i < j < s.len() ==> !outranks(side, s[j].price@, s[i].price@)
}

/// Per-item order book.
#[derive(Clone, Debug)]
pub struct OrderBook {
    pub item: ItemType,
    /// Buy orders, best (highest) bid first.
    buys: Vec<Order>,
    /// Sell orders, best (lowest) ask first.
    sells: Vec<Order>,
    /// Price of the most recent trade.
    pub last_price: Option<Credits>,
    /// Every trade executed, oldest first.
    pub trade_history: Vec<Trade>,
}

impl OrderBook {
    /// The item this book trades.
    pub closed spec fn book_item(&self) -> ItemType {
        self.item
    }

    /// Price of the most recent trade.
    pub closed spec fn last_trade(&self) -> Option<Credits> {
        self.last_price
    }

    /// Every trade executed on this book, oldest first.
    pub closed spec fn history(&self) -> Seq<Trade> {
        self.trade_history@
    }

    /// Resting buy orders, best bid first.
    pub closed spec fn buy_orders(&self) -> Seq<Order> {
        self.buys@
    }

    /// Resting sell orders, best ask first.
    pub closed spec fn sell_orders(&self) -> Seq<Order> {
        self.sells@
    }

    /// Resting orders on `side`.
    pub open spec fn side_orders(&self, side: OrderSide) -> Seq<Order> {
        match side {
            OrderSide::Buy => self.buy_orders(),
            OrderSide::Sell => self.sell_orders(),
        }
    }

    /// Book invariant: both sides well formed, and the book is never crossed
    /// (every resting bid is strictly below every resting ask).
    pub closed spec fn wf(&self) -> bool {
        &&& side_wf(self.buy_orders(), OrderSide::Buy, self.item)
        &&& side_wf(self.sell_orders(), OrderSide::Sell, self.item)
        &&& (self.buy_orders().len() > 0 && self.sell_orders().len() > 0) ==> self.buy_orders()[0].price@
            < self.sell_orders()[0].price@
    }

    /// An empty book for `item`.
    pub fn new(item: ItemType) -> (b: OrderBook)
        ensures
            b.book_item() == item,
            b.buy_orders() == Seq::<Order>::empty(),
            b.sell_orders() == Seq::<Order>::empty(),
            b.last_trade() == None::<Credits>,
            b.history() == Seq::<Trade>::empty(),
            b.wf(),
    {
        OrderBook {
            item,
            buys: Vec::new(),
            sells: Vec::new(),
            last_price: None,
            trade_history: Vec::new(),
        }
    }

    /// Submits an order: matches it against the opposite side, then rests any
    /// remainder on its own side. Returns the trades executed, in order.
    /// Orders for another item, and orders of quantity zero, change nothing.
    pub fn submit(&mut self, order: Order, now: u64) -> (trades: Vec<Trade>)
        requires
            old(self).wf(),
        ensures
            final(self).wf(),
            final(self).book_item() == old(self).book_item(),
            order.item != old(self).book_item() || order.quantity == 0 ==> {
                &&& trades@ == Seq::<Trade>::empty()
                &&& *final(self) == *old(self)
            },
            order.item == old(self).book_item() && order.quantity > 0 ==> {
                let opp = match order.side {
                    OrderSide::Buy => OrderSide::Sell,
                    OrderSide::Sell => OrderSide::Buy,
                };
                let m = match_orders(old(self).side_orders(opp), order, now);
                &&& trades@ == m.1
                &&& final(self).side_orders(opp) == m.0
                &&& final(self).side_orders(order.side) == (if m.2.quantity > 0 {
                    rest_order(old(self).side_orders(order.side), m.2)
                } else {
                    old(self).side_orders(order.side)
                })
                &&& final(self).last_trade() == (if m.1.len() > 0 {
                    Some(m.1.last().price)
                } else {
                    old(self).last_trade()
                })
                &&& final(self).history() == old(self).history() + m.1
            },
    {
        if order.item != self.item || order.quantity == 0 {
            return Vec::new();
        }
        let ghost old_book = *self;
        let mut taker = order;
        let mut trades: Vec<Trade> = Vec::new();
        match order.side {
            OrderSide::Buy => {
                proof {
                    lemma_match_shape(self.sells@, order, now, OrderSide::Sell, self.item);
                }
                match_resting(&mut self.sells, &mut taker, now, &mut trades);
                if taker.quantity > 0 {
                    rest_insert(&mut self.buys, taker);
                }
            },
            OrderSide::Sell => {
                proof {
                    lemma_match_shape(self.buys@, order, now, OrderSide::Buy, self.item);
                }
                match_resting(&mut self.buys, &mut taker, now, &mut trades);
                if taker.quantity > 0 {
                    rest_insert(&mut self.sells, taker);
                }
            },
        }
        let n = trades.len();
        if n > 0 {
            self.last_price = Some(trades[n - 1].price);
        }
        let ghost mid = *self;
        let mut i: usize = 0;
        while i < n
            invariant
                n == trades@.len(),
                0 <= i <= n,
                self.buys == mid.buys,
                self.sells == mid.sells,
                self.item == mid.item,
                self.last_price == mid.last_price,
                mid.trade_history == old_book.trade_history,
                self.trade_history@ == old_book.trade_history@ + trades@.subrange(0, i as int),
            decreases n - i,
        {
            self.trade_history.push(trades[i]);
            i = i + 1;
            proof {
                assert(trades@.subrange(0, i as int) =~= trades@.subrange(0, i - 1).push(
                    trades@[i - 1],
                ));
            }
        }
        proof {
            assert(trades@.subrange(0, n as int) =~= trades@);
        }
        trades
    }

    /// The item this book trades.
    pub fn item(&self) -> (r: ItemType)
        ensures
            r == self.book_item(),
    {
        self.item
    }

    /// Highest price a buyer will pay.
    /// Price of the most recent trade (reads the `last_price` field).
    pub fn last_price(&self) -> (r: Option<Credits>)
        ensures
            r == self.last_trade(),
    {
        self.last_price
    }

    /// Every trade executed, oldest first (reads the `trade_history` field).
    pub fn trade_history(&self) -> (r: &[Trade])
        ensures
            r@ == self.history(),
    {
        self.trade_history.as_slice()
    }

    pub fn best_bid(&self) -> (r: Option<Credits>)
        ensures
            r == (if self.buy_orders().len() > 0 {
                Some(self.buy_orders()[0].price)
            } else {
                None
            }),
    {
        if self.buys.len() > 0 {
            Some(self.buys[0].price)
        } else {
            None
        }
    }

    /// Lowest price a seller will accept.
    pub fn best_ask(&self) -> (r: Option<Credits>)
        ensures
            r == (if self.sell_orders().len() > 0 {
                Some(self.sell_orders()[0].price)
            } else {
                None
            }),
    {
        if self.sells.len() > 0 {
            Some(self.sells[0].price)
        } else {
            None
        }
    }

    /// Best ask minus best bid (saturating). `None` if either side is empty.
    pub fn spread(&self) -> (r: Option<Credits>)
        ensures
            match r {
                None => self.buy_orders().len() == 0 || self.sell_orders().len() == 0,
                Some(c) => {
                    &&& self.buy_orders().len() > 0
                    &&& self.sell_orders().len() > 0
                    &&& c@ == crate::credits::sat(
                        self.sell_orders()[0].price@ - self.buy_orders()[0].price@,
                    )
                },
            },
    {
        match (self.best_ask(), self.best_bid()) {
            (Some(a), Some(b)) => Some(a - b),
            _ => None,
        }
    }

    /// Cancels the order with id `order_id`, searching the buys first, then
    /// the sells. Returns the removed order, or `None` if no such order rests.
    pub fn cancel(&mut self, order_id: u64) -> (r: Option<Order>)
        requires
            old(self).wf(),
        ensures
            final(self).wf(),
            final(self).book_item() == old(self).book_item(),
            final(self).last_trade() == old(self).last_trade(),
            final(self).history() == old(self).history(),
            ({
                let pb = position_of_id(old(self).buy_orders(), order_id);
                let ps = position_of_id(old(self).sell_orders(), order_id);
                if pb >= 0 {
                    &&& r == Some(old(self).buy_orders()[pb])
                    &&& final(self).buy_orders() == old(self).buy_orders().remove(pb)
                    &&& final(self).sell_orders() == old(self).sell_orders()
                } else if ps >= 0 {
                    &&& r == Some(old(self).sell_orders()[ps])
                    &&& final(self).sell_orders() == old(self).sell_orders().remove(ps)
                    &&& final(self).buy_orders() == old(self).buy_orders()
                } else {
                    &&& r == None::<Order>
                    &&& *final(self) == *old(self)
                }
            }),
    {
        if let Some(k) = find_id(&self.buys, order_id) {
            let ghost s = self.buys@;
            let o = self.buys.remove(k);
            proof {
                lemma_remove_keeps_side(s, k as int, OrderSide::Buy, self.item);
            }
            return Some(o);
        }
        if let Some(k) = find_id(&self.sells, order_id) {
            let ghost s = self.sells@;
            let o = self.sells.remove(k);
            proof {
                lemma_remove_keeps_side(s, k as int, OrderSide::Sell, self.item);
            }
            return Some(o);
        }
        None
    }

    /// Resting buys, best bid first.
    pub fn buys(&self) -> (r: &[Order])
        ensures
            r@ == self.buy_orders(),
    {
        self.buys.as_slice()
    }

    /// Resting sells, best ask first.
    pub fn sells(&self) -> (r: &[Order])
        ensures
            r@ == self.sell_orders(),
    {
        self.sells.as_slice()
    }

    /// Total resting quantity on a side.
    pub fn depth(&self, side: OrderSide) -> (r: u32)
        requires
            order_qty(self.side_orders(side)) <= u32::MAX,
        ensures
            r == order_qty(self.side_orders(side)),
    {
        let source = match side {
            OrderSide::Buy => &self.buys,
            OrderSide::Sell => &self.sells,
        };
        let n = source.len();
        let mut total: u32 = 0;
        let mut i: usize = 0;
        while i < n
            invariant
                n == source@.len(),
                source@ == self.side_orders(side),
                order_qty(source@) <= u32::MAX,
                0 <= i <= n,
                total == order_qty(source@.subrange(0, i as int)),
            decreases n - i,
        {
            proof {
                assert(source@.subrange(0, i + 1).drop_last() =~= source@.subrange(0, i as int));
                lemma_order_qty_prefix(source@, i + 1);
            }
            total = total + source[i].quantity;
            i = i + 1;
        }
        proof {
            assert(source@.subrange(0, n as int) =~= source@);
        }
        total
    }
}

/// The book invariant, spelled out: each side holds live orders for the
/// book's item sorted best price first, and every resting bid is strictly
/// below every resting ask (the book is never crossed).
pub proof fn lemma_book_uncrossed(book: OrderBook)
    requires
        book.wf(),
    ensures
        side_wf(book.buy_orders(), OrderSide::Buy, book.book_item()),
        side_wf(book.sell_orders(), OrderSide::Sell, book.book_item()),
        forall|i: int, j: int|
            #![trigger book.buy_orders()[i], book.sell_orders()[j]]
            0 <= i < book.buy_orders().len() && 0 <= j < book.sell_orders().len()
                ==> book.buy_orders()[i].price@ < book.sell_orders()[j].price@,
{
    let b = book.buy_orders();
    let s = book.sell_orders();
    assert forall|i: int, j: int|
        #![trigger b[i], s[j]]
        0 <= i < b.len() && 0 <= j < s.len() implies b[i].price@ < s[j].price@ by {
        if i > 0 {
            assert(!outranks(OrderSide::Buy, b[i].price@, b[0].price@));
        }
        if j > 0 {
            assert(!outranks(OrderSide::Sell, s[j].price@, s[0].price@));
        }
    }
}

/// Submitting an order conserves quantity and respects prices: the traded
/// quantity plus the unfilled remainder is the quantity submitted; the
/// opposite side loses exactly the traded quantity; every trade fills
/// something at a price within the taker's limit; and the first trade is
/// at the best opposite price.
pub proof fn lemma_submit_conserves(book: OrderBook, order: Order, now: u64)
    requires
        book.wf(),
        order.item == book.book_item(),
    ensures
        ({
            let opp = match order.side {
                OrderSide::Buy => OrderSide::Sell,
                OrderSide::Sell => OrderSide::Buy,
            };
            let m = match_orders(book.side_orders(opp), order, now);
            &&& trade_qty(m.1) + m.2.quantity == order.quantity
            &&& order_qty(book.side_orders(opp)) == order_qty(m.0) + trade_qty(m.1)
            &&& forall|i: int|
                #![trigger m.1[i]]
                0 <= i < m.1.len() ==> crosses(order.side, order.price@, m.1[i].price@)
                    && m.1[i].quantity > 0 && m.1[i].item == order.item
            &&& m.1.len() > 0 ==> m.1[0].price == book.side_orders(opp)[0].price
        }),
{
    let opp = match order.side {
        OrderSide::Buy => OrderSide::Sell,
        OrderSide::Sell => OrderSide::Buy,
    };
    lemma_match_shape(book.side_orders(opp), order, now, opp, book.item);
}

/// A prefix never holds more quantity than the whole sequence.
proof fn lemma_order_qty_prefix(s: Seq<Order>, k: int)
    requires
        0 <= k <= s.len(),
    ensures
        order_qty(s.subrange(0, k)) <= order_qty(s),
    decreases s.len() - k,
{
    if k < s.len() {
        lemma_order_qty_prefix(s, k + 1);
        assert(s.subrange(0, k + 1).drop_last() =~= s.subrange(0, k));
    } else {
        assert(s.subrange(0, k) =~= s);
    }
}

/// Index of the first order with id `id` in `v`, or -1.
fn find_id(v: &Vec<Order>, id: u64) -> (r: Option<usize>)
    ensures
        match r {
            Some(k) => k < v@.len() && position_of_id(v@, id) == k,
            None => position_of_id(v@, id) == -1,
        },
{
    let n = v.len();
    let mut i: usize = 0;
    while i < n
        invariant
            n == v@.len(),
            0 <= i <= n,
            forall|j: int| 0 <= j < i ==> v@[j].id != id,
        decreases n - i,
    {
        if v[i].id == id {
            proof {
                lemma_position_of_id(v@, id, i as int);
            }
            return Some(i);
        }
        i = i + 1;
    }
    proof {
        lemma_position_of_id(v@, id, -1);
    }
    None
}

/// `position_of_id` is the first index holding the id.
proof fn lemma_position_of_id(s: Seq<Order>, id: u64, k: int)
    requires
        k == -1 ==> forall|j: int| 0 <= j < s.len() ==> s[j].id != id,
        k != -1 ==> 0 <= k < s.len() && s[k].id == id && forall|j: int| 0 <= j < k ==> s[j].id != id,
    ensures
        position_of_id(s, id) == k,
    decreases s.len(),
{
    if s.len() > 0 && s[0].id != id {
        let t = s.drop_first();
        if k == -1 {
            lemma_position_of_id(t, id, -1);
        } else {
            assert forall|j: int| 0 <= j < k - 1 implies t[j].id != id by {
                assert(t[j] == s[j + 1]);
            }
            lemma_position_of_id(t, id, k - 1);
        }
    }
}

/// Removing an order keeps a side well formed.
proof fn lemma_remove_keeps_side(s: Seq<Order>, k: int, side: OrderSide, item: ItemType)
    requires
        side_wf(s, side, item),
        0 <= k < s.len(),
    ensures
        side_wf(s.remove(k), side, item),
        s.remove(k).len() > 0 ==> !outranks(side, s.remove(k)[0].price@, s[0].price@),
{
    let r = s.remove(k);
    assert forall|i: int| 0 <= i < r.len() implies r[i].side == side && r[i].item == item
        && r[i].quantity > 0 by {
        if i < k {
            assert(r[i] == s[i]);
        } else {
            assert(r[i] == s[i + 1]);
        }
    }
    assert forall|i: int, j: int| 0 <= i < j < r.len() implies !outranks(side, r[j].price@, r[i].price@) by {
        let si = if i < k {
            i
        } else {
            i + 1
        };
        let sj = if j < k {
            j
        } else {
            j + 1
        };
        assert(r[i] == s[si]);
        assert(r[j] == s[sj]);
        assert(!outranks(side, s[sj].price@, s[si].price@));
    }
    if r.len() > 0 {
        let s0 = if k == 0 {
            1int
        } else {
            0int
        };
        assert(r[0] == s[s0]);
        if s0 == 1 {
            assert(!outranks(side, s[1].price@, s[0].price@));
        }
    }
}

/// Facts about one run of `match_orders` against a well-formed side.
proof fn lemma_match_shape(resting: Seq<Order>, taker: Order, now: u64, side: OrderSide, item: ItemType)
    requires
        side_wf(resting, side, item),
        side == (match taker.side {
            OrderSide::Buy => OrderSide::Sell,
            OrderSide::Sell => OrderSide::Buy,
        }),
    ensures
        ({
            let m = match_orders(resting, taker, now);
            &&& side_wf(m.0, side, item)
            &&& m.0.len() <= resting.len()
            &&& m.0.len() > 0 ==> !outranks(side, m.0[0].price@, resting[0].price@)
            &&& m.2 == with_quantity(taker, m.2.quantity as int)
            &&& m.2.quantity <= taker.quantity
            &&& m.2.quantity > 0 ==> (m.0.len() == 0 || !crosses(
                taker.side,
                taker.price@,
                m.0[0].price@,
            ))
            &&& trade_qty(m.1) + m.2.quantity == taker.quantity
            &&& order_qty(resting) == order_qty(m.0) + trade_qty(m.1)
            &&& forall|i: int|
                #![trigger m.1[i]]
                0 <= i < m.1.len() ==> crosses(taker.side, taker.price@, m.1[i].price@)
                    && m.1[i].quantity > 0 && m.1[i].item == taker.item
        }),
    decreases resting.len() + taker.quantity,
{
    let m = match_orders(resting, taker, now);
    if taker.quantity == 0 || resting.len() == 0 || !crosses(
        taker.side,
        taker.price@,
        resting[0].price@,
    ) {
        assert(taker == with_quantity(taker, taker.quantity as int));
    } else {
        let maker = resting[0];
        let fill = fill_qty(taker, maker);
        let rest = if fill == maker.quantity {
            resting.drop_first()
        } else {
            resting.update(0, with_quantity(maker, maker.quantity - fill))
        };
        let t2 = with_quantity(taker, taker.quantity - fill);
        // the remaining side is still well formed
        assert forall|i: int| 0 <= i < rest.len() implies rest[i].side == side
            && rest[i].item == item && rest[i].quantity > 0 by {
            if fill == maker.quantity {
                assert(rest[i] == resting[i + 1]);
            } else if i > 0 {
                assert(rest[i] == resting[i]);
            }
        }
        assert forall|i: int, j: int| 0 <= i < j < rest.len() implies !outranks(side, rest[j].price@, rest[i].price@) by {
            if fill == maker.quantity {
                assert(rest[i] == resting[i + 1]);
                assert(rest[j] == resting[j + 1]);
                assert(!outranks(side, resting[j + 1].price@, resting[i + 1].price@));
            } else {
                assert(rest[j] == resting[j]);
                assert(rest[i].price == resting[i].price);
                assert(!outranks(side, resting[j].price@, resting[i].price@));
            }
        }
        lemma_match_shape(rest, t2, now, side, item);
        let next = match_orders(rest, t2, now);
        assert(m.0 == next.0);
        assert(m.2 == next.2);
        let tr = fill_trade(taker, maker, fill, now);
        assert(m.1 == seq![tr] + next.1);
        // the first remaining order is no better than the previous best
        if next.0.len() > 0 {
            assert(rest.len() > 0);
            if fill == maker.quantity {
                assert(rest[0] == resting[1]);
                assert(!outranks(side, resting[1].price@, resting[0].price@));
            } else {
                assert(rest[0].price == resting[0].price);
            }
        }
        // quantity bookkeeping
        lemma_trade_qty_cons(tr, next.1);
        if fill == maker.quantity {
            lemma_order_qty_drop_first(resting);
        } else {
            lemma_order_qty_update_first(resting, with_quantity(maker, maker.quantity - fill));
        }
        assert forall|i: int|
            #![trigger m.1[i]]
            0 <= i < m.1.len() implies crosses(taker.side, taker.price@, m.1[i].price@)
                && m.1[i].quantity > 0 && m.1[i].item == taker.item by {
            if i > 0 {
                assert(m.1[i] == next.1[i - 1]);
            } else {
                assert(m.1[0] == tr);
            }
        }
    }
}

/// Trade quantities of a sequence with one more trade in front.
proof fn lemma_trade_qty_cons(t: Trade, s: Seq<Trade>)
    ensures
        trade_qty(seq![t] + s) == t.quantity + trade_qty(s),
    decreases s.len(),
{
    let ts = seq![t] + s;
    if s.len() > 0 {
        lemma_trade_qty_cons(t, s.drop_last());
        assert(ts.drop_last() =~= seq![t] + s.drop_last());
        assert(ts.last() == s.last());
        assert(trade_qty(ts) == trade_qty(ts.drop_last()) + ts.last().quantity);
    } else {
        assert(ts =~= seq![t]);
        assert(ts.drop_last() =~= Seq::<Trade>::empty());
        assert(trade_qty(ts) == trade_qty(ts.drop_last()) + ts.last().quantity);
    }
}

/// Order quantities split at the front.
proof fn lemma_order_qty_drop_first(s: Seq<Order>)
    requires
        s.len() > 0,
    ensures
        order_qty(s) == s[0].quantity + order_qty(s.drop_first()),
    decreases s.len(),
{
    if s.len() > 1 {
        lemma_order_qty_drop_first(s.drop_last());
        assert(s.drop_last().drop_first() =~= s.drop_first().drop_last());
    } else {
        assert(s.drop_last() =~= Seq::<Order>::empty());
        assert(s.drop_first() =~= Seq::<Order>::empty());
    }
}

/// Replacing the first order changes the total by the quantity difference.
proof fn lemma_order_qty_update_first(s: Seq<Order>, o: Order)
    requires
        s.len() > 0,
    ensures
        order_qty(s.update(0, o)) + s[0].quantity == order_qty(s) + o.quantity,
{
    lemma_order_qty_drop_first(s);
    lemma_order_qty_drop_first(s.update(0, o));
    assert(s.update(0, o).drop_first() =~= s.drop_first());
}

/// Runs `match_orders` in place: consumes resting orders, appends the trades
/// and leaves the unfilled quantity in `taker`.
fn match_resting(resting: &mut Vec<Order>, taker: &mut Order, now: u64, trades: &mut Vec<Trade>)
    ensures
        ({
            let m = match_orders(old(resting)@, *old(taker), now);
            &&& final(resting)@ == m.0
            &&& final(trades)@ == old(trades)@ + m.1
            &&& *final(taker) == m.2
        }),
{
    let ghost m = match_orders(resting@, *taker, now);
    let ghost start = trades@;
    loop
        invariant
            match_orders(resting@, *taker, now).0 == m.0,
            trades@ + match_orders(resting@, *taker, now).1 == start + m.1,
            match_orders(resting@, *taker, now).2 == m.2,
        ensures
            resting@ == m.0,
            trades@ == start + m.1,
            *taker == m.2,
        decreases resting@.len() + taker.quantity,
    {
        if taker.quantity == 0 || resting.len() == 0 {
            proof {
                assert(trades@ + Seq::<Trade>::empty() =~= trades@);
            }
            break ;
        }
        let maker = resting[0];
        let hit = match taker.side {
            OrderSide::Buy => maker.price.le(taker.price),
            OrderSide::Sell => taker.price.le(maker.price),
        };
        if !hit {
            proof {
                assert(trades@ + Seq::<Trade>::empty() =~= trades@);
            }
            break ;
        }
        let ghost before_resting = resting@;
        let ghost before_taker = *taker;
        let fill: u32 = if taker.quantity <= maker.quantity {
            taker.quantity
        } else {
            maker.quantity
        };
        let trade = Trade {
            item: taker.item,
            price: maker.price,
            quantity: fill,
            buyer: match taker.side {
                OrderSide::Buy => taker.placed_by,
                OrderSide::Sell => maker.placed_by,
            },
            seller: match taker.side {
                OrderSide::Buy => maker.placed_by,
                OrderSide::Sell => taker.placed_by,
            },
            timestamp: now,
        };
        trades.push(trade);
        taker.quantity = taker.quantity - fill;
        if fill == maker.quantity {
            resting.remove(0);
        } else {
            let updated = Order {
                id: maker.id,
                side: maker.side,
                item: maker.item,
                price: maker.price,
                quantity: maker.quantity - fill,
                placed_by: maker.placed_by,
            };
            resting.set(0, updated);
        }
        proof {
            assert(trade == fill_trade(before_taker, maker, fill as int, now));
            assert(*taker == with_quantity(before_taker, before_taker.quantity - fill));
            if fill == maker.quantity {
                assert(resting@ == before_resting.drop_first());
            } else {
                assert(resting@ == before_resting.update(
                    0,
                    with_quantity(maker, maker.quantity - fill),
                ));
            }
            let step = match_orders(before_resting, before_taker, now);
            let next = match_orders(resting@, *taker, now);
            assert(step.1 == seq![trade] + next.1);
            assert(trades@ + next.1 =~= (trades@.drop_last()) + (seq![trade] + next.1));
        }
    }
}

/// Inserts `o` at its priority position in a well-formed side.
fn rest_insert(book: &mut Vec<Order>, o: Order)
    requires
        side_wf(old(book)@, o.side, o.item),
        o.quantity > 0,
    ensures
        final(book)@ == rest_order(old(book)@, o),
        side_wf(final(book)@, o.side, o.item),
        final(book)@.len() > 0 && (old(book)@.len() == 0 || outranks(o.side, o.price@, old(book)@[0].price@))
            ==> final(book)@[0] == o,
        old(book)@.len() > 0 && !outranks(o.side, o.price@, old(book)@[0].price@) ==> final(book)@[0]
            == old(book)@[0],
{
    let n = book.len();
    let mut k: usize = 0;
    while k < n
        invariant
            n == book@.len(),
            book@ == old(book)@,
            0 <= k <= n,
            forall|j: int| 0 <= j < k ==> !outranks(o.side, o.price@, #[trigger] book@[j].price@),
        ensures
            0 <= k <= n,
            forall|j: int| 0 <= j < k ==> !outranks(o.side, o.price@, #[trigger] book@[j].price@),
            k == n || outranks(o.side, o.price@, book@[k as int].price@),
        decreases n - k,
    {
        let better = match o.side {
            OrderSide::Buy => book[k].price.lt(o.price),
            OrderSide::Sell => o.price.lt(book[k].price),
        };
        if better {
            break ;
        }
        k = k + 1;
    }
    let ghost s = book@;
    proof {
        lemma_rest_position(o.side, s, o.price@, k as int);
    }
    book.insert(k, o);
    proof {
        let r = book@;
        assert(r == s.insert(k as int, o));
        assert forall|i: int| 0 <= i < r.len() implies r[i].side == o.side && r[i].item
            == o.item && r[i].quantity > 0 by {
            if i < k {
                assert(r[i] == s[i]);
            } else if i > k {
                assert(r[i] == s[i - 1]);
            }
        }
        assert forall|i: int, j: int| 0 <= i < j < r.len() implies !outranks(
            o.side,
            #[trigger] r[j].price@,
            #[trigger] r[i].price@,
        ) by {
            if j < k {
                assert(r[i] == s[i] && r[j] == s[j]);
            } else if j == k {
                assert(r[i] == s[i]);
            } else if i < k {
                assert(r[i] == s[i] && r[j] == s[j - 1]);
                assert(!outranks(o.side, s[j - 1].price@, s[k as int].price@));
            } else if i == k {
                assert(r[j] == s[j - 1]);
                assert(!outranks(o.side, s[j - 1].price@, s[k as int].price@));
            } else {
                assert(r[i] == s[i - 1] && r[j] == s[j - 1]);
            }
        }
    }
}

/// `rest_position` is the first index at which the new order outranks the resting one.
proof fn lemma_rest_position(side: OrderSide, s: Seq<Order>, price: i64, k: int)
    requires
        0 <= k <= s.len(),
        forall|j: int| 0 <= j < k ==> !outranks(side, price, #[trigger] s[j].price@),
        k == s.len() || outranks(side, price, s[k].price@),
    ensures
        rest_position(side, s, price) == k,
    decreases s.len(),
{
    if s.len() > 0 && k > 0 {
        let t = s.drop_first();
        assert forall|j: int| 0 <= j < k - 1 implies !outranks(side, price, #[trigger] t[j].price@) by {
            assert(t[j] == s[j + 1]);
        }
        if k < s.len() {
            assert(t[k - 1] == s[k]);
        }
        assert(!outranks(side, price, s[0].price@));
        lemma_rest_position(side, t, price, k - 1);
    }
}

} // verus!

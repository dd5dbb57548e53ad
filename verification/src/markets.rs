//! The registry of order books: one per item type, created on first use,
//! with one counter handing out order ids across all books.
use crate::item::ItemType;
use crate::order_book::OrderBook;
use vstd::prelude::*;

verus! {

/// Index of the book for `item`, or -1.
pub open spec fn book_position(s: Seq<OrderBook>, item: ItemType) -> int
    decreases s.len(),
{
    if s.len() == 0 {
        -1
    } else if s[0].book_item() == item {
        0
    } else {
        let p = book_position(s.drop_first(), item);
        if p < 0 {
            -1
        } else {
            p + 1
        }
    }
}

/// Every order book in the economy.
#[derive(Clone, Debug)]
pub struct Markets {
    /// One order book per item type.
    pub books: Vec<OrderBook>,
    /// Next order id; never reused.
    next_order_id: u64,
}

impl Default for Markets {
    fn default() -> (m: Markets)
        ensures
            m.all_books() == Seq::<OrderBook>::empty(),
            m.counter() == 0,
            m.wf(),
    {
        Markets { books: Vec::new(), next_order_id: 0 }
    }
}

impl Markets {
    /// The books, in creation order.
    pub closed spec fn all_books(&self) -> Seq<OrderBook> {
        self.books@
    }

    /// The id the next call to `next_id` returns.
    pub closed spec fn counter(&self) -> u64 {
        self.next_order_id
    }

    /// At most one book per item, each one well formed.
    pub open spec fn wf(&self) -> bool {
        &&& forall|i: int|
            #![trigger self.all_books()[i]]
            0 <= i < self.all_books().len() ==> self.all_books()[i].wf()
        &&& forall|i: int, j: int|
            #![trigger self.all_books()[i], self.all_books()[j]]
            0 <= i < j < self.all_books().len() ==> self.all_books()[i].book_item()
                != self.all_books()[j].book_item()
    }

    /// Hands out the next order id: consecutive, never reused.
    pub fn next_id(&mut self) -> (id: u64)
        requires
            old(self).counter() < u64::MAX,
        ensures
            id == old(self).counter(),
            final(self).counter() == old(self).counter() + 1,
            final(self).all_books() == old(self).all_books(),
    {
        let id = self.next_order_id;
        self.next_order_id = self.next_order_id + 1;
        id
    }

    /// The book for `item`, created empty if there is none yet.
    pub fn book_mut(&mut self, item: ItemType) -> (r: &mut OrderBook)
        requires
            old(self).wf(),
        ensures
            r.wf(),
            r.book_item() == item,
            final(self).counter() == old(self).counter(),
            ({
                let p = book_position(old(self).all_books(), item);
                if p >= 0 {
                    &&& *r == old(self).all_books()[p]
                    &&& final(self).all_books() == old(self).all_books().update(p, *final(r))
                } else {
                    &&& r.buy_orders().len() == 0
                    &&& r.sell_orders().len() == 0
                    &&& r.last_trade() is None
                    &&& r.history().len() == 0
                    &&& final(self).all_books() == old(self).all_books().push(*final(r))
                }
            }),
    {
        match find_book(&self.books, item) {
            Some(k) => {
                proof {
                    lemma_book_position_found(self.books@, item);
                }
                &mut self.books[k]
            },
            None => {
                self.books.push(OrderBook::new(item));
                let k = self.books.len() - 1;
                &mut self.books[k]
            },
        }
    }

    /// The book for `item`, if one has been created.
    pub fn book(&self, item: ItemType) -> (r: Option<&OrderBook>)
        ensures
            ({
                let p = book_position(self.all_books(), item);
                match r {
                    Some(b) => p >= 0 && *b == self.all_books()[p],
                    None => p == -1,
                }
            }),
    {
        match find_book(&self.books, item) {
            Some(k) => Some(&self.books[k]),
            None => None,
        }
    }
}

/// Index of the book for `item` in `v`.
fn find_book(v: &Vec<OrderBook>, item: ItemType) -> (r: Option<usize>)
    ensures
        match r {
            Some(k) => k < v@.len() && book_position(v@, item) == k,
            None => book_position(v@, item) == -1,
        },
{
    let n = v.len();
    let mut i: usize = 0;
    while i < n
        invariant
            n == v@.len(),
            0 <= i <= n,
            forall|j: int| 0 <= j < i ==> v@[j].book_item() != item,
        decreases n - i,
    {
        if v[i].item() == item {
            proof {
                lemma_book_position(v@, item, i as int);
            }
            return Some(i);
        }
        i = i + 1;
    }
    proof {
        lemma_book_position(v@, item, -1);
    }
    None
}

/// A found position holds a book for the item.
proof fn lemma_book_position_found(s: Seq<OrderBook>, item: ItemType)
    ensures
        -1 <= book_position(s, item) < s.len(),
        book_position(s, item) >= 0 ==> s[book_position(s, item)].book_item() == item,
    decreases s.len(),
{
    if s.len() > 0 && s[0].book_item() != item {
        lemma_book_position_found(s.drop_first(), item);
    }
}

/// `book_position` is the first index holding the item.
proof fn lemma_book_position(s: Seq<OrderBook>, item: ItemType, k: int)
    requires
        k == -1 ==> forall|j: int| 0 <= j < s.len() ==> s[j].book_item() != item,
        k != -1 ==> 0 <= k < s.len() && s[k].book_item() == item && forall|j: int|
            0 <= j < k ==> s[j].book_item() != item,
    ensures
        book_position(s, item) == k,
    decreases s.len(),
{
    if s.len() > 0 && s[0].book_item() != item {
        let t = s.drop_first();
        if k == -1 {
            lemma_book_position(t, item, -1);
        } else {
            assert forall|j: int| 0 <= j < k - 1 implies t[j].book_item() != item by {
                assert(t[j] == s[j + 1]);
            }
            lemma_book_position(t, item, k - 1);
        }
    }
}

/// Replacing a book by a well-formed book for the same item keeps the
/// registry well formed: what a caller does through `book_mut` with the
/// book's own operations leaves one well-formed book per item.
pub proof fn lemma_markets_update(m: Seq<OrderBook>, p: int, b: OrderBook)
    requires
        0 <= p < m.len(),
        forall|i: int| #![trigger m[i]] 0 <= i < m.len() ==> m[i].wf(),
        forall|i: int, j: int|
            #![trigger m[i], m[j]]
            0 <= i < j < m.len() ==> m[i].book_item() != m[j].book_item(),
        b.wf(),
        b.book_item() == m[p].book_item(),
    ensures
        forall|i: int|
            #![trigger m.update(p, b)[i]]
            0 <= i < m.len() ==> m.update(p, b)[i].wf(),
        forall|i: int, j: int|
            #![trigger m.update(p, b)[i], m.update(p, b)[j]]
            0 <= i < j < m.len() ==> m.update(p, b)[i].book_item() != m.update(p, b)[j].book_item(),
{
    let u = m.update(p, b);
    assert forall|i: int, j: int|
        #![trigger u[i], u[j]]
        0 <= i < j < m.len() implies u[i].book_item() != u[j].book_item() by {
        assert(u[i].book_item() == m[i].book_item());
        assert(u[j].book_item() == m[j].book_item());
    }
}

} // verus!

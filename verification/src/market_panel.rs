//! What the market and job-board panels decide: the vertical range of the
//! price chart, how many book rows are listed, the drafted order as the
//! entry fields leave it, and accepting or posting contracts.
use crate::market_ui::{ContractBoardUi, ContractUi, ContractUiState, CreditsUi, MarketUiState, OrderBookUi};
use crate::text::owned;
use std::collections::VecDeque;
use vstd::prelude::*;

verus! {

/// Lowest price of a history (`i64::MAX` for an empty one).
pub open spec fn prices_min(s: Seq<CreditsUi>) -> int
    decreases s.len(),
{
    if s.len() == 0 {
        i64::MAX as int
    } else {
        let m = prices_min(s.drop_last());
        if (s.last().0 as int) < m {
            s.last().0 as int
        } else {
            m
        }
    }
}

/// Highest price of a history (`i64::MIN` for an empty one).
pub open spec fn prices_max(s: Seq<CreditsUi>) -> int
    decreases s.len(),
{
    if s.len() == 0 {
        i64::MIN as int
    } else {
        let m = prices_max(s.drop_last());
        if (s.last().0 as int) > m {
            s.last().0 as int
        } else {
            m
        }
    }
}

/// The chart's range: lowest to highest price, widened by half a credit
/// each way when every price is the same.
pub open spec fn chart_range(s: Seq<CreditsUi>) -> (int, int) {
    let lo = prices_min(s);
    let hi = prices_max(s);
    if lo == hi {
        (lo - 50, hi + 50)
    } else {
        (lo, hi)
    }
}

/// Every price of a history lies between its lowest and highest price.
proof fn lemma_prices_bound(s: Seq<CreditsUi>)
    ensures
        forall|k: int| 0 <= k < s.len() ==> prices_min(s) <= #[trigger] s[k].0 <= prices_max(s),
        i64::MIN <= prices_min(s) <= i64::MAX,
        i64::MIN <= prices_max(s) <= i64::MAX,
    decreases s.len(),
{
    if s.len() > 0 {
        lemma_prices_bound(s.drop_last());
        assert forall|k: int| 0 <= k < s.len() implies prices_min(s) <= #[trigger] s[k].0 <= prices_max(s) by {
            if k < s.len() - 1 {
                assert(s[k] == s.drop_last()[k]);
            }
        }
    }
}

/// The price chart's range covers every price in the history it draws.
pub proof fn lemma_chart_range_covers(s: Seq<CreditsUi>)
    requires
        s.len() >= 2,
    ensures
        forall|k: int| 0 <= k < s.len() ==> chart_range(s).0 <= #[trigger] s[k].0 <= chart_range(s).1,
        chart_range(s).0 < chart_range(s).1,
{
    lemma_prices_bound(s);
    assert(prices_min(s) <= s[0].0 <= prices_max(s));
    if prices_min(s) != prices_max(s) {
        assert(prices_min(s) < prices_max(s));
    }
}

/// The vertical range the price chart is drawn over, or `None` when the
/// history holds fewer than two prices (nothing to draw).
pub fn chart_bounds(history: &VecDeque<CreditsUi>) -> (r: Option<(i64, i64)>)
    requires
        history@.len() >= 2 && prices_min(history@) == prices_max(history@) ==> i64::MIN + 50
            <= prices_min(history@) && prices_max(history@) <= i64::MAX - 50,
    ensures
        history@.len() < 2 ==> r is None,
        history@.len() >= 2 ==> (r matches Some((lo, hi)) && lo == chart_range(history@).0 && hi
            == chart_range(history@).1),
{
    if history.len() < 2 {
        return None;
    }
    let mut min_p: i64 = i64::MAX;
    let mut max_p: i64 = i64::MIN;
    let mut i: usize = 0;
    while i < history.len()
        invariant
            i <= history@.len(),
            min_p == prices_min(history@.take(i as int)),
            max_p == prices_max(history@.take(i as int)),
        decreases history@.len() - i,
    {
        proof {
            assert(history@.take(i + 1).drop_last() =~= history@.take(i as int));
        }
        let p = history[i].0;
        if p < min_p {
            min_p = p;
        }
        if p > max_p {
            max_p = p;
        }
        i = i + 1;
    }
    proof {
        assert(history@.take(history@.len() as int) =~= history@);
    }
    if min_p == max_p {
        min_p = min_p - 50;
        max_p = max_p + 50;
    }
    Some((min_p, max_p))
}

/// Rows the order-book table lists: the longer side, at most ten.
pub fn book_rows(book: &OrderBookUi) -> (n: usize)
    ensures
        n == if book.buys@.len() >= book.sells@.len() {
            if book.buys@.len() <= 10 { book.buys@.len() } else { 10 }
        } else {
            if book.sells@.len() <= 10 { book.sells@.len() } else { 10 }
        },
{
    let longer = if book.buys.len() >= book.sells.len() { book.buys.len() } else { book.sells.len() };
    if longer <= 10 {
        longer
    } else {
        10
    }
}

/// `v` clamped to `[lo, hi]`.
pub open spec fn clamp_int(v: int, lo: int, hi: int) -> int {
    if v < lo {
        lo
    } else if v > hi {
        hi
    } else {
        v
    }
}

impl MarketUiState {
    /// Sets the drafted price from the entry fields: whole credits in
    /// `0..=1_000_000` and cents in `0..=99`, each clamped into its range.
    pub fn enter_price(&mut self, whole: i64, cents: i64)
        ensures
            final(self).draft_price.0 == clamp_int(whole as int, 0, 1_000_000) * 100 + clamp_int(
                cents as int,
                0,
                99,
            ),
            final(self).open == old(self).open,
            final(self).selected_item == old(self).selected_item,
            final(self).draft_side == old(self).draft_side,
            final(self).draft_quantity == old(self).draft_quantity,
    {
        let w: i64 = if whole < 0 { 0 } else if whole > 1_000_000 { 1_000_000 } else { whole };
        let c: i64 = if cents < 0 { 0 } else if cents > 99 { 99 } else { cents };
        self.draft_price = CreditsUi(w * 100 + c);
    }

    /// Sets the drafted quantity from its entry field, clamped to
    /// `1..=10_000`.
    pub fn enter_quantity(&mut self, quantity: i64)
        ensures
            final(self).draft_quantity == clamp_int(quantity as int, 1, 10_000),
            final(self).open == old(self).open,
            final(self).selected_item == old(self).selected_item,
            final(self).draft_side == old(self).draft_side,
            final(self).draft_price == old(self).draft_price,
    {
        let q: u32 = if quantity < 1 { 1 } else if quantity > 10_000 { 10_000 } else { quantity as u32 };
        self.draft_quantity = q;
    }

    /// The drafted order's value before matching: price times quantity.
    pub fn draft_total(&self) -> (t: CreditsUi)
        requires
            i64::MIN <= self.draft_price.0 * self.draft_quantity <= i64::MAX,
        ensures
            t.0 == self.draft_price.0 * self.draft_quantity,
    {
        CreditsUi(self.draft_price.0 * (self.draft_quantity as i64))
    }
}

impl ContractUiState {
    /// Sets the drafted quantity from its entry field, clamped to
    /// `1..=10_000`.
    pub fn enter_quantity(&mut self, quantity: i64)
        ensures
            final(self).draft_quantity == clamp_int(quantity as int, 1, 10_000),
            final(self).open == old(self).open,
            final(self).draft_kind == old(self).draft_kind,
            final(self).draft_item == old(self).draft_item,
            final(self).draft_reward == old(self).draft_reward,
            final(self).draft_poster@ == old(self).draft_poster@,
    {
        let q: u32 = if quantity < 1 { 1 } else if quantity > 10_000 { 10_000 } else { quantity as u32 };
        self.draft_quantity = q;
    }

    /// Sets the drafted reward from its entry field: whole credits clamped
    /// to `0..=1_000_000`.
    pub fn enter_reward(&mut self, whole: i64)
        ensures
            final(self).draft_reward.0 == clamp_int(whole as int, 0, 1_000_000) * 100,
            final(self).open == old(self).open,
            final(self).draft_kind == old(self).draft_kind,
            final(self).draft_item == old(self).draft_item,
            final(self).draft_quantity == old(self).draft_quantity,
            final(self).draft_poster@ == old(self).draft_poster@,
    {
        let w: i64 = if whole < 0 { 0 } else if whole > 1_000_000 { 1_000_000 } else { whole };
        self.draft_reward = CreditsUi::from_whole(w);
    }

    /// The contract the draft describes, still unnumbered and open; an
    /// empty poster name posts as `"Anonymous"`.
    pub fn draft(&self) -> (c: ContractUi)
        ensures
            c.id == 0,
            c.kind == self.draft_kind,
            c.item == self.draft_item,
            c.quantity == self.draft_quantity,
            c.reward == self.draft_reward,
            c.poster@ == if self.draft_poster@.len() == 0 {
                "Anonymous"@
            } else {
                self.draft_poster@
            },
            c.accepted_by is None,
    {
        let poster = if self.draft_poster.as_str().is_empty() {
            owned("Anonymous")
        } else {
            self.draft_poster.clone()
        };
        ContractUi {
            id: 0,
            kind: self.draft_kind,
            item: self.draft_item,
            quantity: self.draft_quantity,
            reward: self.draft_reward,
            poster,
            accepted_by: None,
        }
    }
}

impl ContractBoardUi {
    /// The player takes contract `idx` if it exists and is still open;
    /// returns whether it was taken. Other contracts are untouched.
    pub fn accept(&mut self, idx: usize, player_id: u64) -> (taken: bool)
        ensures
            taken == (idx < old(self).contracts@.len() && old(self).contracts@[idx as int].accepted_by
                is None),
            final(self).next_id == old(self).next_id,
            taken ==> final(self).contracts@ == old(self).contracts@.update(
                idx as int,
                ContractUi { accepted_by: Some(player_id), ..old(self).contracts@[idx as int] },
            ),
            !taken ==> final(self).contracts@ == old(self).contracts@,
    {
        if idx >= self.contracts.len() {
            return false;
        }
        if self.contracts[idx].accepted_by.is_some() {
            return false;
        }
        let c = {
            let o = &self.contracts[idx];
            ContractUi {
                id: o.id,
                kind: o.kind,
                item: o.item,
                quantity: o.quantity,
                reward: o.reward,
                poster: o.poster.clone(),
                accepted_by: Some(player_id),
            }
        };
        self.contracts.set(idx, c);
        true
    }
}

/// Posts the drafted contract under the board's next id; returns the id.
pub fn post_draft(board: &mut ContractBoardUi, state: &ContractUiState) -> (id: u64)
    requires
        old(board).next_id < u64::MAX,
    ensures
        id == old(board).next_id,
        final(board).next_id == old(board).next_id + 1,
        final(board).contracts@.len() == old(board).contracts@.len() + 1,
        forall|k: int| 0 <= k < old(board).contracts@.len() ==> final(board).contracts@[k] == old(board).contracts@[k],
        ({
            let c = final(board).contracts@.last();
            &&& c.id == id
            &&& c.kind == state.draft_kind
            &&& c.item == state.draft_item
            &&& c.quantity == state.draft_quantity
            &&& c.reward == state.draft_reward
            &&& c.poster@ == if state.draft_poster@.len() == 0 {
                "Anonymous"@
            } else {
                state.draft_poster@
            }
            &&& c.accepted_by is None
        }),
{
    let c = state.draft();
    board.post(c)
}

} // verus!

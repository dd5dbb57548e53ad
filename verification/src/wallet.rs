//! Wallets and corporations.
//!
//! A wallet refuses any debit that would take its balance below the amount
//! debited: "pay N credits" is `if wallet.debit(N) { .. }`. A corporation
//! owns a wallet and a share register, and pays dividends pro rata by
//! shares, leaving rounding dust in its own wallet.
use crate::credits::{sat, trunc_div, Credits};
use crate::text::push_str;
use vstd::prelude::*;

verus! {

broadcast use crate::credits::lemma_of_cents_view, crate::credits::lemma_view_of_cents;

/// A balance of credits.
#[derive(Clone, Copy, Debug, PartialEq, Eq, Structural)]
pub struct Wallet {
    pub balance: Credits,
}

impl Default for Wallet {
    fn default() -> (w: Wallet)
        ensures
            w.balance@ == 0,
    {
        Wallet { balance: Credits::zero() }
    }
}

impl Wallet {
    pub fn new(initial: Credits) -> (w: Wallet)
        ensures
            w.balance == initial,
    {
        Wallet { balance: initial }
    }

    /// Deducts `amount` if the balance covers it and returns whether it did.
    /// A negative amount is a refund and is always accepted; on refusal the
    /// wallet is unchanged.
    pub fn debit(&mut self, amount: Credits) -> (ok: bool)
        ensures
            ok == (amount@ < 0 || old(self).balance@ >= amount@),
            ok ==> final(self).balance@ == sat(old(self).balance@ - amount@),
            !ok ==> *final(self) == *old(self),
    {
        if amount.is_negative() {
            self.balance = self.balance - amount;
            return true;
        }
        if self.balance.lt(amount) {
            return false;
        }
        self.balance = self.balance - amount;
        true
    }

    /// Adds `amount` (saturating). Negative amounts are accepted and act as
    /// a debit without overdraft protection.
    pub fn credit(&mut self, amount: Credits)
        ensures
            final(self).balance@ == sat(old(self).balance@ + amount@),
    {
        self.balance = self.balance + amount;
    }

    /// Can this wallet pay `amount` now?
    pub fn can_afford(&self, amount: Credits) -> (r: bool)
        ensures
            r == (self.balance@ >= amount@),
    {
        amount.le(self.balance)
    }
}

/// A successful debit of a non-negative amount never leaves a negative balance.
pub proof fn lemma_debit_never_overdraws(before: Wallet, after: Wallet, amount: Credits)
    requires
        amount@ >= 0,
        before.balance@ >= amount@,
        after.balance@ == sat(before.balance@ - amount@),
    ensures
        after.balance@ >= 0,
        after.balance@ == before.balance@ - amount@,
{
}

/// Crediting then debiting the same non-negative amount to a wallet that is
/// not in debt always succeeds and restores the balance, as long as the
/// credit did not saturate.
pub proof fn lemma_credit_debit_round_trip(start: i64, amount: i64)
    requires
        start >= 0,
        amount >= 0,
        start + amount <= i64::MAX,
    ensures
        sat(start + amount) >= amount,
        sat(sat(start + amount) - amount) == start,
{
}

/// Sum of the shares held by members.
pub open spec fn total_shares(members: Seq<(u64, u32)>) -> nat
    decreases members.len(),
{
    if members.len() == 0 {
        0
    } else {
        total_shares(members.drop_last()) + members.last().1 as nat
    }
}

/// Index of the first member entry of `player`, or -1.
pub open spec fn member_position(members: Seq<(u64, u32)>, player: u64) -> int
    decreases members.len(),
{
    if members.len() == 0 {
        -1
    } else if members[0].0 == player {
        0
    } else {
        let p = member_position(members.drop_first(), player);
        if p < 0 {
            -1
        } else {
            p + 1
        }
    }
}

/// The register after issuing `shares` to `player`.
pub open spec fn issued(members: Seq<(u64, u32)>, player: u64, shares: u32) -> Seq<(u64, u32)> {
    let p = member_position(members, player);
    if p >= 0 {
        members.update(p, (player, sat_u32(members[p].1 + shares)))
    } else {
        members.push((player, shares))
    }
}

/// Clamps into the `u32` range from above.
pub open spec fn sat_u32(x: int) -> u32 {
    if x > u32::MAX {
        u32::MAX
    } else {
        x as u32
    }
}

/// Payouts of `per_share` cents per share, skipping members whose payout is not positive.
pub open spec fn payouts(members: Seq<(u64, u32)>, per_share: i64) -> Seq<(u64, Credits)>
    decreases members.len(),
{
    if members.len() == 0 {
        Seq::empty()
    } else {
        let rest = payouts(members.drop_last(), per_share);
        let m = members.last();
        let amount = sat(per_share * m.1);
        if amount > 0 {
            rest.push((m.0, Credits::of_cents(amount)))
        } else {
            rest
        }
    }
}

/// Sum of payout amounts (saturating at each step, as the payer adds them up).
pub open spec fn paid_total(p: Seq<(u64, Credits)>) -> i64
    decreases p.len(),
{
    if p.len() == 0 {
        0
    } else {
        sat(paid_total(p.drop_last()) + p.last().1@)
    }
}

/// A corporation: a named wallet with a share register.
#[derive(Clone, Debug)]
pub struct Corporation {
    pub name: String,
    pub wallet: Wallet,
    /// (member player id, shares held)
    pub members: Vec<(u64, u32)>,
    /// Total shares issued; equals the sum of member shares in a healthy register.
    pub shares_outstanding: u32,
}

impl Corporation {
    pub fn new(name: &str) -> (c: Corporation)
        ensures
            c.name@ == name@,
            c.wallet.balance@ == 0,
            c.members@ == Seq::<(u64, u32)>::empty(),
            c.shares_outstanding == 0,
    {
        let mut n = String::new();
        push_str(&mut n, name);
        proof {
            assert(n@ =~= name@);
        }
        Corporation { name: n, wallet: Wallet::default(), members: Vec::new(), shares_outstanding: 0 }
    }

    /// Issues `shares` to `player` (adding to an existing holding), saturating.
    pub fn issue_shares(&mut self, player: u64, shares: u32)
        ensures
            final(self).members@ == issued(old(self).members@, player, shares),
            final(self).shares_outstanding == sat_u32(old(self).shares_outstanding + shares),
            final(self).wallet == old(self).wallet,
            final(self).name == old(self).name,
    {
        let n = self.members.len();
        let mut i: usize = 0;
        while i < n
            invariant
                n == self.members@.len(),
                self.members@ == old(self).members@,
                self.wallet == old(self).wallet,
                self.name == old(self).name,
                self.shares_outstanding == old(self).shares_outstanding,
                0 <= i <= n,
                forall|j: int| 0 <= j < i ==> self.members@[j].0 != player,
            decreases n - i,
        {
            let (p, held) = self.members[i];
            if p == player {
                proof {
                    lemma_member_position(self.members@, player, i as int);
                }
                self.members.set(i, (player, held.saturating_add(shares)));
                self.shares_outstanding = self.shares_outstanding.saturating_add(shares);
                return;
            }
            i = i + 1;
        }
        proof {
            lemma_member_position(self.members@, player, -1);
        }
        self.members.push((player, shares));
        self.shares_outstanding = self.shares_outstanding.saturating_add(shares);
    }

    /// Pays a dividend of `total` from the corporate wallet, `total / shares`
    /// per share (truncated), and returns the per-member payouts. Only the sum
    /// actually paid leaves the wallet. With no shares outstanding, a
    /// non-positive total, a total the wallet cannot cover, a per-share
    /// amount of zero, or payouts whose sum the wallet cannot cover (share
    /// counts saturate, so they may add up to more than `total`), nothing is
    /// paid and nothing changes.
    pub fn pay_dividend(&mut self, total: Credits) -> (r: Vec<(u64, Credits)>)
        ensures
            ({
                let per_share = trunc_div(total@ as int, old(self).shares_outstanding as int);
                if old(self).shares_outstanding == 0 || old(self).wallet.balance@ < total@ || total@
                    <= 0 || per_share == 0 {
                    &&& r@ == Seq::<(u64, Credits)>::empty()
                    &&& final(self).wallet == old(self).wallet
                } else {
                    let p = payouts(old(self).members@, per_share as i64);
                    if old(self).wallet.balance@ >= paid_total(p) {
                        &&& r@ == p
                        &&& final(self).wallet.balance@ == old(self).wallet.balance@ - paid_total(p)
                    } else {
                        &&& r@ == Seq::<(u64, Credits)>::empty()
                        &&& final(self).wallet == old(self).wallet
                    }
                }
            }),
            final(self).members@ == old(self).members@,
            final(self).shares_outstanding == old(self).shares_outstanding,
            final(self).name == old(self).name,
    {
        if self.shares_outstanding == 0 || !self.wallet.can_afford(total) || total.le(
            Credits::zero(),
        ) {
            return Vec::new();
        }
        let per_share = total / (self.shares_outstanding as i64);
        if per_share.cents() == 0 {
            return Vec::new();
        }
        let mut out: Vec<(u64, Credits)> = Vec::new();
        let mut paid_out = Credits::zero();
        let n = self.members.len();
        let mut i: usize = 0;
        while i < n
            invariant
                n == self.members@.len(),
                0 <= i <= n,
                out@ == payouts(self.members@.subrange(0, i as int), per_share@),
                paid_out@ == paid_total(out@),
                forall|j: int| 0 <= j < out@.len() ==> #[trigger] out@[j].1@ > 0,
            decreases n - i,
        {
            let (pid, shares) = self.members[i];
            let amount = per_share * (shares as i64);
            proof {
                assert(self.members@.subrange(0, i + 1).drop_last() =~= self.members@.subrange(
                    0,
                    i as int,
                ));
            }
            if amount.is_positive() {
                out.push((pid, amount));
                paid_out = paid_out + amount;
                proof {
                    assert(amount == Credits::of_cents(amount@));
                    assert(out@.drop_last() =~= payouts(self.members@.subrange(0, i as int), per_share@));
                }
            }
            i = i + 1;
        }
        proof {
            assert(self.members@.subrange(0, n as int) =~= self.members@);
        }
        proof {
            lemma_paid_total_nonneg(out@);
        }
        if !self.wallet.debit(paid_out) {
            return Vec::new();
        }
        out
    }
}

/// `member_position` is the first index holding the player.
proof fn lemma_member_position(s: Seq<(u64, u32)>, player: u64, k: int)
    requires
        k == -1 ==> forall|j: int| 0 <= j < s.len() ==> s[j].0 != player,
        k != -1 ==> 0 <= k < s.len() && s[k].0 == player && forall|j: int|
            0 <= j < k ==> s[j].0 != player,
    ensures
        member_position(s, player) == k,
    decreases s.len(),
{
    if s.len() > 0 && s[0].0 != player {
        let t = s.drop_first();
        if k == -1 {
            lemma_member_position(t, player, -1);
        } else {
            assert forall|j: int| 0 <= j < k - 1 implies t[j].0 != player by {
                assert(t[j] == s[j + 1]);
            }
            lemma_member_position(t, player, k - 1);
        }
    }
}

/// Payout sums never go below zero.
proof fn lemma_paid_total_nonneg(p: Seq<(u64, Credits)>)
    requires
        forall|i: int| 0 <= i < p.len() ==> #[trigger] p[i].1@ > 0,
    ensures
        paid_total(p) >= 0,
    decreases p.len(),
{
    if p.len() > 0 {
        lemma_paid_total_nonneg(p.drop_last());
    }
}

/// With a positive per-share amount and no overflow, the payouts add up to
/// exactly the per-share amount times the shares held.
proof fn lemma_payout_sum(ms: Seq<(u64, u32)>, ps: i64)
    requires
        ps > 0,
        ps * total_shares(ms) <= i64::MAX,
    ensures
        paid_total(payouts(ms, ps)) == ps * total_shares(ms),
    decreases ms.len(),
{
    if ms.len() > 0 {
        let rest = ms.drop_last();
        let s = ms.last().1;
        assert(ps * total_shares(ms) == ps * total_shares(rest) + ps * s) by (nonlinear_arith)
            requires
                total_shares(ms) == total_shares(rest) + s,
        ;
        assert(ps * total_shares(rest) >= 0 && ps * s >= 0) by (nonlinear_arith)
            requires
                ps > 0,
        ;
        lemma_payout_sum(rest, ps);
        let rp = payouts(rest, ps);
        let amount = sat(ps * s);
        assert(amount == ps * s);
        if ps * s > 0 {
            let pp = rp.push((ms.last().0, Credits::of_cents(amount)));
            assert(payouts(ms, ps) == pp);
            assert(pp.drop_last() =~= rp);
            assert(pp.last().1@ == amount);
            assert(paid_total(pp) == sat(paid_total(rp) + amount));
        } else {
            assert(s == 0) by (nonlinear_arith)
                requires
                    ps > 0,
                    ps * s <= 0,
                    s >= 0,
            ;
            assert(payouts(ms, ps) == rp);
        }
    } else {
        assert(total_shares(ms) == 0);
        assert(ps * total_shares(ms) == 0) by (nonlinear_arith)
            requires
                total_shares(ms) == 0,
        ;
    }
}

/// A dividend never pays out more than the total declared, provided the
/// register is healthy (members hold no more shares than are outstanding);
/// and what it pays is the per-share amount times the shares held.
pub proof fn lemma_dividend_within_total(members: Seq<(u64, u32)>, outstanding: u32, total: i64)
    requires
        outstanding > 0,
        total > 0,
        total_shares(members) <= outstanding,
        trunc_div(total as int, outstanding as int) > 0,
    ensures
        ({
            let ps = trunc_div(total as int, outstanding as int);
            &&& paid_total(payouts(members, ps as i64)) == ps * total_shares(members)
            &&& 0 <= paid_total(payouts(members, ps as i64)) <= total
        }),
{
    let ps = trunc_div(total as int, outstanding as int);
    assert(ps == (total as int) / (outstanding as int));
    assert(ps * outstanding <= total) by (nonlinear_arith)
        requires
            ps == (total as int) / (outstanding as int),
            outstanding > 0,
            total > 0,
    ;
    assert(ps * total_shares(members) <= ps * outstanding) by (nonlinear_arith)
        requires
            ps > 0,
            total_shares(members) <= outstanding,
    ;
    assert(ps * total_shares(members) >= 0) by (nonlinear_arith)
        requires
            ps > 0,
    ;
    assert(ps <= i64::MAX);
    lemma_payout_sum(members, ps as i64);
}

/// Issuing shares keeps a healthy register healthy: the member shares still
/// add up to the shares outstanding, when neither count saturates.
pub proof fn lemma_issue_keeps_register(members: Seq<(u64, u32)>, outstanding: u32, player: u64, shares: u32)
    requires
        total_shares(members) == outstanding,
        outstanding + shares <= u32::MAX,
    ensures
        total_shares(issued(members, player, shares)) == sat_u32(outstanding + shares),
{
    let p = member_position(members, player);
    lemma_member_position_bounds(members, player);
    if p >= 0 {
        lemma_total_shares_le_one(members, p);
        lemma_total_shares_update(members, p, (player, sat_u32(members[p].1 + shares)));
    } else {
        assert(members.push((player, shares)).drop_last() =~= members);
    }
}

/// `member_position` is -1 or a valid index holding the player.
proof fn lemma_member_position_bounds(s: Seq<(u64, u32)>, player: u64)
    ensures
        -1 <= member_position(s, player) < s.len(),
        member_position(s, player) >= 0 ==> s[member_position(s, player)].0 == player,
    decreases s.len(),
{
    if s.len() > 0 && s[0].0 != player {
        lemma_member_position_bounds(s.drop_first(), player);
    }
}

/// One holding is no more than the whole register.
proof fn lemma_total_shares_le_one(s: Seq<(u64, u32)>, k: int)
    requires
        0 <= k < s.len(),
    ensures
        s[k].1 <= total_shares(s),
    decreases s.len(),
{
    if k < s.len() - 1 {
        lemma_total_shares_le_one(s.drop_last(), k);
    }
}

/// Replacing one holding changes the total by the difference.
proof fn lemma_total_shares_update(s: Seq<(u64, u32)>, k: int, e: (u64, u32))
    requires
        0 <= k < s.len(),
    ensures
        total_shares(s.update(k, e)) + s[k].1 == total_shares(s) + e.1,
    decreases s.len(),
{
    if k < s.len() - 1 {
        lemma_total_shares_update(s.drop_last(), k, e);
        assert(s.update(k, e).drop_last() =~= s.drop_last().update(k, e));
    } else {
        assert(s.update(k, e).drop_last() =~= s.drop_last());
    }
}

} // verus!

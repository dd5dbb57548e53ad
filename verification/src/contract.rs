//! Player-posted contracts and the contract board.
//!
//! A contract moves one way through its life: open, then in progress once a
//! player other than the poster accepts it, then completed. Payment is not
//! handled here: the caller moves funds between wallets.
use crate::credits::Credits;
use crate::item::ItemType;
use vstd::prelude::*;

verus! {

/// What kind of work a contract asks for.
#[derive(Clone, Debug, PartialEq, Eq)]
pub enum ContractKind {
    /// Move cargo from one place to another.
    Courier { from: String, to: String, item: ItemType, quantity: u32 },
    /// Produce an item.
    Manufacturing { item: ItemType, quantity: u32 },
    /// Complete a military objective.
    Mercenary { objective: String },
}

/// One contract on the board.
#[derive(Clone, Debug, PartialEq, Eq)]
pub struct Contract {
    pub id: u64,
    pub kind: ContractKind,
    pub reward: Credits,
    pub poster: u64,
    pub accepted_by: Option<u64>,
    pub completed: bool,
}

/// Still accepting takers.
pub open spec fn is_open_spec(c: Contract) -> bool {
    c.accepted_by is None && !c.completed
}

impl Contract {
    /// Still accepting takers: nobody accepted it and it is not completed.
    pub fn is_open(&self) -> (r: bool)
        ensures
            r == is_open_spec(*self),
    {
        self.accepted_by.is_none() && !self.completed
    }

    /// Accepted by someone and not yet completed.
    pub fn is_in_progress(&self) -> (r: bool)
        ensures
            r == (self.accepted_by is Some && !self.completed),
    {
        self.accepted_by.is_some() && !self.completed
    }
}

/// Index of the first contract with id `id`, or -1.
pub open spec fn contract_position(s: Seq<Contract>, id: u64) -> int
    decreases s.len(),
{
    if s.len() == 0 {
        -1
    } else if s[0].id == id {
        0
    } else {
        let p = contract_position(s.drop_first(), id);
        if p < 0 {
            -1
        } else {
            p + 1
        }
    }
}

/// The open contracts among `s`, in board order.
pub open spec fn open_contracts(s: Seq<Contract>) -> Seq<Contract>
    decreases s.len(),
{
    if s.len() == 0 {
        Seq::empty()
    } else {
        let rest = open_contracts(s.drop_last());
        if is_open_spec(s.last()) {
            rest.push(s.last())
        } else {
            rest
        }
    }
}

/// The contract with a new taker.
pub open spec fn accepted(c: Contract, player: u64) -> Contract {
    Contract { accepted_by: Some(player), ..c }
}

/// Where a contract id is found on a board: no position (-1) or a position
/// on the board that holds that id, the first such.
pub proof fn lemma_position_on_board(s: Seq<Contract>, id: u64)
    ensures
        -1 <= contract_position(s, id) < s.len(),
        contract_position(s, id) >= 0 ==> s[contract_position(s, id)].id == id,
        contract_position(s, id) >= 0 ==> forall|j: int| 0 <= j < contract_position(s, id) ==> #[trigger] s[j].id != id,
    decreases s.len(),
{
    if s.len() > 0 && s[0].id != id {
        let t = s.drop_first();
        lemma_position_on_board(t, id);
        if contract_position(s, id) >= 0 {
            assert(s[contract_position(s, id)] == t[contract_position(t, id)]);
            assert forall|j: int| 0 <= j < contract_position(s, id) implies #[trigger] s[j].id != id by {
                if j > 0 {
                    assert(s[j] == t[j - 1]);
                }
            }
        }
    }
}

/// The contract marked completed.
pub open spec fn completed(c: Contract) -> Contract {
    Contract { completed: true, ..c }
}

/// The board of outstanding and finished contracts.
#[derive(Clone, Debug)]
pub struct ContractBoard {
    pub contracts: Vec<Contract>,
    next_id: u64,
}

impl Default for ContractBoard {
    fn default() -> (b: ContractBoard)
        ensures
            b.all() == Seq::<Contract>::empty(),
            b.counter() == 0,
            b.ids_fresh(),
    {
        ContractBoard { contracts: Vec::new(), next_id: 0 }
    }
}

impl ContractBoard {
    /// Every contract on the board, in posting order.
    pub closed spec fn all(&self) -> Seq<Contract> {
        self.contracts@
    }

    /// The id the next posted contract receives.
    pub closed spec fn counter(&self) -> u64 {
        self.next_id
    }

    /// Ids on the board are distinct and all below the counter.
    pub open spec fn ids_fresh(&self) -> bool {
        &&& forall|i: int| 0 <= i < self.all().len() ==> #[trigger] self.all()[i].id < self.counter()
        &&& forall|i: int, j: int|
            #![trigger self.all()[i], self.all()[j]]
            0 <= i < j < self.all().len() ==> self.all()[i].id != self.all()[j].id
    }

    /// Posts a new open contract and returns its id, the next in sequence.
    pub fn post(&mut self, kind: ContractKind, reward: Credits, poster: u64) -> (id: u64)
        requires
            old(self).counter() < u64::MAX,
        ensures
            id == old(self).counter(),
            final(self).counter() == old(self).counter() + 1,
            final(self).all() == old(self).all().push(
                Contract { id, kind, reward, poster, accepted_by: None, completed: false },
            ),
            old(self).ids_fresh() ==> final(self).ids_fresh(),
    {
        let id = self.next_id;
        self.next_id = self.next_id + 1;
        self.contracts.push(Contract { id, kind, reward, poster, accepted_by: None, completed: false });
        id
    }

    /// Accepts contract `contract_id` for `player`. Refused (returning false,
    /// changing nothing) when no such contract exists, when it is not open,
    /// or when the poster tries to accept their own contract.
    pub fn accept(&mut self, contract_id: u64, player: u64) -> (ok: bool)
        ensures
            contract_position(old(self).all(), contract_id) < old(self).all().len(),
            ({
                let p = contract_position(old(self).all(), contract_id);
                &&& ok == (p >= 0 && is_open_spec(old(self).all()[p]) && old(self).all()[p].poster
                    != player)
                &&& ok ==> final(self).all() == old(self).all().update(
                    p,
                    accepted(old(self).all()[p], player),
                )
                &&& !ok ==> final(self).all() == old(self).all()
            }),
            final(self).counter() == old(self).counter(),
            old(self).ids_fresh() ==> final(self).ids_fresh(),
    {
        proof {
            lemma_position_on_board(self.contracts@, contract_id);
        }
        let Some(k) = find_contract(&self.contracts, contract_id) else {
            return false;
        };
        if !self.contracts[k].is_open() {
            return false;
        }
        if self.contracts[k].poster == player {
            return false;
        }
        let c = &mut self.contracts[k];
        c.accepted_by = Some(player);
        true
    }

    /// Marks contract `contract_id` completed. Refused (returning false,
    /// changing nothing) when no such contract exists, when nobody has
    /// accepted it, or when it is already completed.
    pub fn complete(&mut self, contract_id: u64) -> (ok: bool)
        ensures
            contract_position(old(self).all(), contract_id) < old(self).all().len(),
            ({
                let p = contract_position(old(self).all(), contract_id);
                &&& ok == (p >= 0 && old(self).all()[p].accepted_by is Some && !old(
                    self,
                ).all()[p].completed)
                &&& ok ==> final(self).all() == old(self).all().update(
                    p,
                    completed(old(self).all()[p]),
                )
                &&& !ok ==> final(self).all() == old(self).all()
            }),
            final(self).counter() == old(self).counter(),
            old(self).ids_fresh() ==> final(self).ids_fresh(),
    {
        proof {
            lemma_position_on_board(self.contracts@, contract_id);
        }
        let Some(k) = find_contract(&self.contracts, contract_id) else {
            return false;
        };
        if self.contracts[k].completed || self.contracts[k].accepted_by.is_none() {
            return false;
        }
        let c = &mut self.contracts[k];
        c.completed = true;
        true
    }

    /// The contract with id `contract_id`, if any.
    pub fn get(&self, contract_id: u64) -> (r: Option<&Contract>)
        ensures
            ({
                let p = contract_position(self.all(), contract_id);
                match r {
                    Some(c) => p >= 0 && *c == self.all()[p],
                    None => p == -1,
                }
            }),
    {
        match find_contract(&self.contracts, contract_id) {
            Some(k) => Some(&self.contracts[k]),
            None => None,
        }
    }

    /// Every contract still accepting takers, in board order.
    pub fn open(&self) -> (r: Vec<&Contract>)
        ensures
            r@.len() == open_contracts(self.all()).len(),
            forall|i: int| 0 <= i < r@.len() ==> *#[trigger] r@[i] == open_contracts(self.all())[i],
    {
        let mut out: Vec<&Contract> = Vec::new();
        let n = self.contracts.len();
        let mut i: usize = 0;
        while i < n
            invariant
                n == self.contracts@.len(),
                0 <= i <= n,
                out@.len() == open_contracts(self.contracts@.subrange(0, i as int)).len(),
                forall|j: int|
                    0 <= j < out@.len() ==> *#[trigger] out@[j] == open_contracts(
                        self.contracts@.subrange(0, i as int),
                    )[j],
            decreases n - i,
        {
            proof {
                assert(self.contracts@.subrange(0, i + 1).drop_last() =~= self.contracts@.subrange(
                    0,
                    i as int,
                ));
            }
            if self.contracts[i].is_open() {
                out.push(&self.contracts[i]);
            }
            i = i + 1;
        }
        proof {
            assert(self.contracts@.subrange(0, n as int) =~= self.contracts@);
        }
        out
    }
}

/// Index of the first contract with id `id` in `v`.
fn find_contract(v: &Vec<Contract>, id: u64) -> (r: Option<usize>)
    ensures
        match r {
            Some(k) => k < v@.len() && contract_position(v@, id) == k,
            None => contract_position(v@, id) == -1,
        },
{
    let n = v.len();
    let mut i: usize = 0;
    while i < n
        invariant
            n == v@.len(),
            0 <= i <= n,
            forall|j: int| 0 <= j < i ==> v@[j].id != id,
        decreases n - i,
    {
        if v[i].id == id {
            proof {
                lemma_contract_position(v@, id, i as int);
            }
            return Some(i);
        }
        i = i + 1;
    }
    proof {
        lemma_contract_position(v@, id, -1);
    }
    None
}

/// `contract_position` is the first index holding the id.
proof fn lemma_contract_position(s: Seq<Contract>, id: u64, k: int)
    requires
        k == -1 ==> forall|j: int| 0 <= j < s.len() ==> s[j].id != id,
        k != -1 ==> 0 <= k < s.len() && s[k].id == id && forall|j: int| 0 <= j < k ==> s[j].id != id,
    ensures
        contract_position(s, id) == k,
    decreases s.len(),
{
    if s.len() > 0 && s[0].id != id {
        let t = s.drop_first();
        if k == -1 {
            lemma_contract_position(t, id, -1);
        } else {
            assert forall|j: int| 0 <= j < k - 1 implies t[j].id != id by {
                assert(t[j] == s[j + 1]);
            }
            lemma_contract_position(t, id, k - 1);
        }
    }
}

/// A contract only moves forward through its life: once accepted it keeps
/// its taker, and once completed it stays completed. Accepting and
/// completing never touch any other contract.
pub proof fn lemma_lifecycle_forward(before: Seq<Contract>, k: int, player: u64)
    requires
        0 <= k < before.len(),
    ensures
        is_open_spec(before[k]) ==> accepted(before[k], player).accepted_by == Some(player)
            && !is_open_spec(accepted(before[k], player)),
        completed(before[k]).completed && !is_open_spec(completed(before[k])),
        completed(before[k]).accepted_by == before[k].accepted_by,
        forall|j: int|
            0 <= j < before.len() && j != k ==> #[trigger] before.update(
                k,
                accepted(before[k], player),
            )[j] == before[j] && before.update(k, completed(before[k]))[j] == before[j],
{
}

} // verus!

//! The ledger of reward points.

use vstd::prelude::*;
use vstd::string::*;
use crate::errors::{validation_error, ContractError, ErrorView};
use crate::response::{fails_with, PointsResponse, Response};
use crate::store::{lemma_index_of_unique, Table};
use crate::text::{decimal, decimal_text};

verus! {

/// The error for an account without a name.
pub open spec fn empty_account_error() -> ErrorView {
    validation_error("Account"@, "Account ID cannot be empty"@)
}

/// The error for points that would take a balance beyond its ceiling.
pub open spec fn overflow_error() -> ErrorView {
    ErrorView::Operation("Points addition would overflow"@)
}

/// The error for a balance that does not cover what is asked of it.
pub open spec fn insufficient_error(has: u32, needs: nat) -> ErrorView {
    ErrorView::Operation(
        "Insufficient points: has "@ + decimal(has as nat) + ", needs "@ + decimal(needs),
    )
}

/// The balance that a change of `delta` points makes of `balance`: a gain
/// may not take it beyond the largest `u32`, a loss not below zero.
pub open spec fn balance_after(balance: u32, delta: i64) -> Option<u32> {
    if 0 <= balance + delta <= u32::MAX {
        Some((balance + delta) as u32)
    } else {
        None
    }
}

/// The error for an account without a name.
pub fn empty_account() -> (e: ContractError)
    ensures
        e@ == empty_account_error(),
{
    ContractError::validation("Account", "Account ID cannot be empty".to_owned())
}

/// The error for a balance that does not cover what is asked of it.
pub fn insufficient_points(has: u32, needs: u64) -> (e: ContractError)
    ensures
        e@ == insufficient_error(has, needs as nat),
{
    let mut message = "Insufficient points: has ".to_owned();
    let has_text = decimal_text(has as u128);
    message.append(has_text.as_str());
    message.append(", needs ");
    let needs_text = decimal_text(needs as u128);
    message.append(needs_text.as_str());
    ContractError::Operation(message)
}

/// The points of one owner.
#[derive(Debug, PartialEq, Eq)]
pub struct Balance {
    pub owner: String,
    pub points: u32,
}

/// The owners of a list of balances.
pub open spec fn account_names(list: Seq<Balance>) -> Seq<Seq<char>> {
    Seq::new(list.len(), |i: int| list[i].owner@)
}

/// The points of each owner. An owner who was never credited has none.
pub struct Ledger {
    balances: Table<u32>,
}

impl Ledger {
    /// The balance of an owner.
    pub closed spec fn balance(&self, owner: Seq<char>) -> u32 {
        if self.balances.contains_key(owner) {
            self.balances.value_of(owner)
        } else {
            0
        }
    }

    /// The owners whose balance was ever written, in the order in which
    /// they came.
    pub closed spec fn accounts(&self) -> Seq<Seq<char>> {
        self.balances.keys()
    }

    /// No account stands twice.
    pub closed spec fn wf(&self) -> bool {
        self.balances.wf()
    }

    /// No account stands twice, and an owner without account has no points.
    pub proof fn lemma_accounts(&self)
        requires
            self.wf(),
        ensures
            self.accounts().no_duplicates(),
            forall|owner: Seq<char>|
                !self.accounts().contains(owner) ==> #[trigger] self.balance(owner) == 0,
    {
    }

    /// An owner without account has no points.
    pub proof fn lemma_accounts_known(&self)
        ensures
            forall|owner: Seq<char>|
                !self.accounts().contains(owner) ==> #[trigger] self.balance(owner) == 0,
    {
    }

    /// A ledger of the given balances, unless an owner stands twice.
    pub fn from_balances(list: &Vec<Balance>) -> (r: Option<Ledger>)
        ensures
            match r {
                Some(ledger) => {
                    &&& account_names(list@).no_duplicates()
                    &&& ledger.wf()
                    &&& ledger.accounts() == account_names(list@)
                    &&& forall|i: int|
                        0 <= i < list@.len() ==> ledger.balance((#[trigger] list@[i]).owner@)
                            == list@[i].points
                },
                None => !account_names(list@).no_duplicates(),
            },
    {
        let mut ledger = Ledger::new();
        let ghost names = account_names(list@);
        let mut i: usize = 0;
        proof {
            assert(ledger.accounts() =~= names.take(0));
        }
        while i < list.len()
            invariant
                i <= list.len(),
                names == account_names(list@),
                ledger.wf(),
                ledger.accounts() == names.take(i as int),
                forall|k: int|
                    0 <= k < i ==> ledger.balance((#[trigger] list@[k]).owner@) == list@[k].points,
            decreases list.len() - i,
        {
            let entry = &list[i];
            if ledger.balances.find(&entry.owner).is_some() {
                proof {
                    let j = ledger.balances.position(entry.owner@);
                    assert(names.take(i as int)[j] == entry.owner@);
                    assert(names[j] == names[i as int]);
                }
                return None;
            }
            let ghost before = ledger;
            ledger.set_points(&entry.owner, entry.points);
            proof {
                assert(names.take(i + 1) =~= names.take(i as int).push(entry.owner@));
                assert forall|k: int| 0 <= k < i + 1 implies ledger.balance(
                    (#[trigger] list@[k]).owner@,
                ) == list@[k].points by {
                    if k < i {
                        assert(names.take(i as int)[k] == list@[k].owner@);
                        assert(before.accounts().contains(list@[k].owner@));
                    }
                }
            }
            i += 1;
        }
        proof {
            assert(names.take(i as int) =~= names);
        }
        Some(ledger)
    }

    /// The balance of every account, in the order of the accounts.
    pub fn balances(&self) -> (list: Vec<Balance>)
        requires
            self.wf(),
        ensures
            list@.len() == self.accounts().len(),
            forall|i: int|
                0 <= i < list@.len() ==> (#[trigger] list@[i]).owner@ == self.accounts()[i]
                    && list@[i].points == self.balance(self.accounts()[i]),
    {
        let mut list: Vec<Balance> = Vec::new();
        let mut i: usize = 0;
        while i < self.balances.len()
            invariant
                self.wf(),
                i <= self.balances.keys().len(),
                list@.len() == i,
                forall|k: int|
                    0 <= k < i ==> (#[trigger] list@[k]).owner@ == self.accounts()[k]
                        && list@[k].points == self.balance(self.accounts()[k]),
            decreases self.balances.keys().len() - i,
        {
            proof {
                lemma_index_of_unique(self.balances.keys(), i as int);
            }
            list.push(
                Balance {
                    owner: self.balances.key_at(i).clone(),
                    points: *self.balances.value_at(i),
                },
            );
            i += 1;
        }
        list
    }

    /// A ledger without accounts.
    pub fn new() -> (ledger: Self)
        ensures
            ledger.wf(),
            ledger.accounts() == Seq::<Seq<char>>::empty(),
            forall|owner: Seq<char>| #[trigger] ledger.balance(owner) == 0,
    {
        Ledger { balances: Table::new() }
    }

    /// The balance of `owner`.
    pub fn points(&self, owner: &String) -> (points: u32)
        requires
            self.wf(),
        ensures
            points == self.balance(owner@),
    {
        match self.balances.get(owner) {
            Some(points) => *points,
            None => 0,
        }
    }

    /// Writes the balance of `owner`.
    pub fn set_points(&mut self, owner: &String, points: u32)
        requires
            old(self).wf(),
        ensures
            final(self).wf(),
            final(self).balance(owner@) == points,
            forall|other: Seq<char>|
                other != owner@ ==> #[trigger] final(self).balance(other) == old(self).balance(other),
            final(self).accounts() == (if old(self).accounts().contains(owner@) {
                old(self).accounts()
            } else {
                old(self).accounts().push(owner@)
            }),
    {
        let ghost before = self.balances;
        self.balances.insert(owner.clone(), points);
        proof {
            let after = self.balances;
            assert forall|other: Seq<char>| other != owner@ implies #[trigger] self.balance(other)
                == old(self).balance(other) by {
                if before.contains_key(other) {
                    let q = before.position(other);
                    assert(before.keys()[q] == other);
                    assert(after.keys()[q] == other);
                    lemma_index_of_unique(after.keys(), q);
                } else if after.contains_key(other) {
                    let q = after.position(other);
                    assert(after.keys()[q] == other);
                    if before.contains_key(owner@) {
                        assert(before.keys()[q] == other);
                    } else {
                        assert(q < before.keys().len());
                        assert(before.keys()[q] == other);
                    }
                }
            }
        }
    }

    /// The balance of `account_id`, which must have a name.
    pub fn get_points(&self, account_id: &String) -> (r: PointsResponse)
        requires
            self.wf(),
        ensures
            if account_id@.len() == 0 {
                fails_with(r, empty_account_error())
            } else {
                r == Response::<u32, ContractError>::Success(self.balance(account_id@))
            },
    {
        if account_id.as_str().unicode_len() == 0 {
            return Response::Error(empty_account());
        }
        Response::Success(self.points(account_id))
    }

    /// Changes the balance of `account_id` by `delta` points and hands
    /// back the new balance. A gain that would take the balance beyond
    /// the largest `u32` and a loss that the balance does not cover are
    /// refused, and the ledger is left as it was.
    pub fn add_points(&mut self, account_id: &String, delta: i64) -> (r: PointsResponse)
        requires
            old(self).wf(),
        ensures
            final(self).wf(),
            forall|other: Seq<char>|
                other != account_id@ ==> #[trigger] final(self).balance(other) == old(self).balance(
                    other,
                ),
            if account_id@.len() == 0 {
                fails_with(r, empty_account_error()) && final(self).balance(account_id@)
                    == old(self).balance(account_id@)
            } else {
                match balance_after(old(self).balance(account_id@), delta) {
                    Some(points) => r == Response::<u32, ContractError>::Success(points)
                        && final(self).balance(account_id@) == points,
                    None => final(self).balance(account_id@) == old(self).balance(account_id@)
                        && fails_with(
                        r,
                        if delta > 0 {
                            overflow_error()
                        } else {
                            insufficient_error(old(self).balance(account_id@), (-delta) as nat)
                        },
                    ),
                }
            },
    {
        if account_id.as_str().unicode_len() == 0 {
            return Response::Error(empty_account());
        }
        let current_points = self.points(account_id);
        if delta > 0 {
            if delta > (u32::MAX - current_points) as i64 {
                return Response::Error(
                    ContractError::Operation("Points addition would overflow".to_owned()),
                );
            }
            let new_points: u32 = current_points + (delta as u32);
            self.set_points(account_id, new_points);
            Response::Success(new_points)
        } else {
            let points_to_subtract: u64 = if delta == i64::MIN {
                9_223_372_036_854_775_808u64
            } else {
                (-delta) as u64
            };
            if (current_points as u64) < points_to_subtract {
                return Response::Error(insufficient_points(current_points, points_to_subtract));
            }
            let new_points: u32 = current_points - (points_to_subtract as u32);
            self.set_points(account_id, new_points);
            Response::Success(new_points)
        }
    }
}

} // verus!

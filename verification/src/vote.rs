//! What a vote takes from the voter's notes, and what the store says of the
//! voter's state.

use crate::download::{parse_height, parsed_u32};
use vstd::prelude::*;

verus! {

/// Why a vote cannot be cast, or a stored value cannot be read.
#[derive(Clone, Copy, Debug, PartialEq, Eq, Structural)]
pub enum VoteError {
    /// The unspent notes hold less than the amount to vote.
    InsufficientFunds,
    /// The election asks for signatures and there is no spending key.
    SignatureRequired,
    /// The stored height is no number.
    InvalidHeight,
}

/// How a ballot is laid out for an amount.
#[derive(Clone, Copy, Debug, PartialEq, Eq, Structural)]
pub struct VotePlan {
    /// How many of the unspent notes are spent, from the first on.
    pub inputs: usize,
    /// What the spent notes hold beyond the amount; it goes back to the
    /// voter.
    pub change: u64,
    /// The number of actions of the ballot.
    pub actions: usize,
    /// Whether each action is signed with the spending key.
    pub signed: bool,
}

/// The sum of the values.
pub open spec fn total(values: Seq<u64>) -> nat
    decreases values.len(),
{
    if values.len() == 0 {
        0
    } else {
        total(values.drop_last()) + values.last() as nat
    }
}

/// The first `n` notes are what a vote of `amount` spends: they hold at
/// least the amount, and no fewer do.
pub open spec fn is_selection(values: Seq<u64>, amount: u64, n: int) -> bool {
    &&& 0 <= n <= values.len()
    &&& total(values.take(n)) >= amount
    &&& forall|m: int| 0 <= m < n ==> total(#[trigger] values.take(m)) < amount
}

/// The sum of a prefix does not exceed the sum of the whole.
pub proof fn lemma_total_prefix(values: Seq<u64>, n: int)
    requires
        0 <= n <= values.len(),
    ensures
        total(values.take(n)) <= total(values),
    decreases values.len() - n,
{
    if n < values.len() {
        lemma_total_prefix(values, n + 1);
        assert(values.take(n + 1).drop_last() =~= values.take(n));
    } else {
        assert(values.take(n) =~= values);
    }
}

/// The layout of a ballot that votes `amount` from the unspent notes with
/// the given values, in the order in which the store lists them.
///
/// Notes are taken from the first on until they hold the amount. The ballot
/// has one action for each of them, and never fewer than two.
pub fn plan_vote(
    values: &Vec<u64>,
    amount: u64,
    signature_required: bool,
    has_spending_key: bool,
) -> (r: Result<VotePlan, VoteError>)
    ensures
        r.is_ok() <==> total(values@) >= amount && (signature_required ==> has_spending_key),
        match r {
            Ok(plan) => {
                &&& is_selection(values@, amount, plan.inputs as int)
                &&& plan.change as nat == total(values@.take(plan.inputs as int)) - amount
                &&& plan.actions == if plan.inputs < 2 {
                    2
                } else {
                    plan.inputs
                }
                &&& plan.signed == has_spending_key
                &&& signature_required ==> has_spending_key
            },
            Err(e) => if total(values@) < amount {
                e == VoteError::InsufficientFunds
            } else {
                e == VoteError::SignatureRequired && signature_required && !has_spending_key
            },
        },
{
    let mut i: usize = 0;
    let mut remaining: u64 = amount;
    let mut change: u64 = 0;
    proof {
        assert(values@.take(0) =~= Seq::<u64>::empty());
    }
    while remaining > 0 && i < values.len()
        invariant
            i <= values@.len(),
            remaining > 0 ==> total(values@.take(i as int)) + remaining == amount,
            remaining == 0 ==> total(values@.take(i as int)) >= amount && change as nat == total(
                values@.take(i as int),
            ) - amount,
            forall|m: int| 0 <= m < i ==> total(#[trigger] values@.take(m)) < amount,
        decreases values@.len() - i,
    {
        let v = values[i];
        proof {
            assert(values@.take(i + 1).drop_last() =~= values@.take(i as int));
        }
        if v >= remaining {
            change = v - remaining;
            remaining = 0;
        } else {
            remaining = remaining - v;
        }
        i += 1;
    }
    if remaining > 0 {
        proof {
            assert(values@.take(i as int) =~= values@);
        }
        return Err(VoteError::InsufficientFunds);
    }
    proof {
        lemma_total_prefix(values@, i as int);
    }
    if signature_required && !has_spending_key {
        return Err(VoteError::SignatureRequired);
    }
    let actions: usize = if i < 2 {
        2
    } else {
        i
    };
    Ok(VotePlan { inputs: i, change, actions, signed: has_spending_key })
}

/// The balance that can be voted: the sum that the store gives for the
/// unspent notes, and 0 where it has none.
pub fn get_available_balance(sum: Option<u64>) -> (balance: u64)
    ensures
        balance == match sum {
            Some(s) => s,
            None => 0,
        },
{
    match sum {
        Some(s) => s,
        None => 0,
    }
}

/// The height up to which reference data was downloaded, from the stored
/// property: none where nothing is stored.
pub fn get_sync_height(stored: Option<String>) -> (r: Result<Option<u32>, VoteError>)
    ensures
        r == match stored {
            None => Ok::<Option<u32>, VoteError>(None),
            Some(s) => match parsed_u32(s@) {
                Some(h) => Ok::<Option<u32>, VoteError>(Some(h)),
                None => Err::<Option<u32>, VoteError>(VoteError::InvalidHeight),
            },
        },
{
    match stored {
        None => Ok(None),
        Some(s) => match parse_height(s.as_str()) {
            Some(h) => Ok(Some(h)),
            None => Err(VoteError::InvalidHeight),
        },
    }
}

} // verus!

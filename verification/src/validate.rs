//! What is accepted as a wallet key, and what a ballot that was accepted
//! does to the store.

use zcash_address::unified::{Encoding, Ufvk};
use vstd::prelude::*;

verus! {

/// Whether `Mnemonic::from_phrase` of `bip0039` accepts the phrase as an
/// English mnemonic.
pub uninterp spec fn is_mnemonic(phrase: Seq<char>) -> bool;

/// Whether `Ufvk::decode` of `zcash_address` accepts the string as a unified
/// full viewing key.
pub uninterp spec fn is_ufvk(s: Seq<char>) -> bool;

/// `Mnemonic::from_phrase` of `bip0039`: whether the phrase is a mnemonic.
#[verifier::external_body]
fn mnemonic_ok(key: &str) -> (ok: bool)
    ensures
        ok == is_mnemonic(key@),
{
    bip0039::Mnemonic::<bip0039::English>::from_phrase(key).is_ok()
}

/// `Ufvk::decode` of `zcash_address`: whether the string is a unified full
/// viewing key.
#[verifier::external_body]
fn ufvk_ok(key: &str) -> (ok: bool)
    ensures
        ok == is_ufvk(key@),
{
    Ufvk::decode(key).is_ok()
}

/// A key is accepted where it is a mnemonic or a unified full viewing key.
pub fn accept_key(mnemonic: bool, ufvk: bool) -> (r: Result<bool, ()>)
    ensures
        r == Ok::<bool, ()>(mnemonic || ufvk),
{
    Ok(mnemonic || ufvk)
}

/// Whether `key` can be a wallet's key: a mnemonic phrase or a unified full
/// viewing key.
pub fn validate_key(key: String) -> (r: Result<bool, ()>)
    ensures
        r == Ok::<bool, ()>(is_mnemonic(key@) || is_ufvk(key@)),
{
    if mnemonic_ok(key.as_str()) {
        return accept_key(true, false);
    }
    accept_key(false, ufvk_ok(key.as_str()))
}

/// One thing that an accepted ballot does to the store.
#[derive(Clone, Copy, Debug, PartialEq, Eq, Structural)]
pub enum BallotEffect {
    /// The voter's note with the nullifier of this action is spent at the
    /// ballot's height.
    MarkSpent { action: usize },
    /// The note that this action gives is the voter's: it is stored at
    /// `position`.
    StoreNote { action: usize, position: u32 },
    /// The commitment of this action is appended.
    StoreCmx { action: usize },
    /// The nullifier of this action is added to the nullifiers.
    AddNullifier { action: usize },
    /// The ballot is stored at its height.
    StoreBallot,
}

/// What one action does, when its commitment takes the position `position`.
pub open spec fn action_effects(action: usize, position: u32, owned: bool) -> Seq<BallotEffect> {
    if owned {
        seq![
            BallotEffect::MarkSpent { action },
            BallotEffect::StoreNote { action, position },
            BallotEffect::StoreCmx { action },
            BallotEffect::AddNullifier { action },
        ]
    } else {
        seq![
            BallotEffect::MarkSpent { action },
            BallotEffect::StoreCmx { action },
            BallotEffect::AddNullifier { action },
        ]
    }
}

/// What the first `n` actions of a ballot do, when the store holds
/// `position` commitments before it. `owned` tells of each action whether
/// its note is the voter's.
pub open spec fn actions_effects(position: u32, owned: Seq<bool>, n: nat) -> Seq<BallotEffect>
    decreases n,
{
    if n == 0 {
        Seq::empty()
    } else {
        let i = (n - 1) as nat;
        actions_effects(position, owned, i) + action_effects(
            i as usize,
            (position + i) as u32,
            owned[i as int],
        )
    }
}

/// What a ballot does: what its actions do, and then the ballot is stored.
pub open spec fn ballot_effects(position: u32, owned: Seq<bool>) -> Seq<BallotEffect> {
    actions_effects(position, owned, owned.len()).push(BallotEffect::StoreBallot)
}

/// What an accepted ballot does to the store, in order, all of it in one
/// transaction: action by action, the spent note is marked, the new note is
/// stored where it is the voter's, the commitment is appended and the
/// nullifier is added; at last the ballot itself is stored. The commitment of
/// action `i` takes the position `position + i`. Nothing where the positions
/// would leave 32 bits.
pub fn handle_ballot(position: u32, owned: &Vec<bool>) -> (r: Option<Vec<BallotEffect>>)
    ensures
        r.is_some() == (position + owned@.len() <= u32::MAX),
        r matches Some(effects) ==> effects@ == ballot_effects(position, owned@),
{
    let n = owned.len();
    if n > (u32::MAX - position) as usize {
        return None;
    }
    let mut effects: Vec<BallotEffect> = Vec::new();
    let mut i: usize = 0;
    while i < n
        invariant
            i <= n,
            n == owned@.len(),
            position + n <= u32::MAX,
            effects@ == actions_effects(position, owned@, i as nat),
        decreases n - i,
    {
        let at: u32 = position + i as u32;
        let ghost before = effects@;
        effects.push(BallotEffect::MarkSpent { action: i });
        if owned[i] {
            effects.push(BallotEffect::StoreNote { action: i, position: at });
        }
        effects.push(BallotEffect::StoreCmx { action: i });
        effects.push(BallotEffect::AddNullifier { action: i });
        proof {
            assert(effects@ =~= before + action_effects(i, at, owned@[i as int]));
        }
        i += 1;
    }
    effects.push(BallotEffect::StoreBallot);
    Some(effects)
}

} // verus!

//! The decisions of the two transfers: where reference data comes from, and
//! which ballot to fetch next from the tallier.

use vstd::prelude::*;

verus! {

/// The light-wallet server that is asked where the store names none.
pub const DEFAULT_LWD_URL: &'static str = "https://zec.rocks";

/// Why a synchronisation stops early.
#[derive(Clone, Copy, Debug, PartialEq, Eq, Structural)]
pub enum SyncError {
    /// The tallier's count of ballots is no number.
    InvalidCount,
}

/// Where a synchronisation stands.
#[derive(Clone, Copy, Debug, PartialEq, Eq, Structural)]
pub enum SyncState {
    /// Nothing was asked yet.
    Start,
    /// The store holds reference data; the two counts of ballots are awaited.
    Counting,
    /// The tallier holds `remote` ballots and the store the first `local` of
    /// them; the ballot at height `local + 1` is being fetched and applied.
    Applying { remote: u32, local: u32 },
    /// The synchronisation is over.
    Finished,
}

/// What the shell reports back.
#[derive(Clone, Copy, Debug, PartialEq, Eq, Structural)]
pub enum SyncEvent {
    /// Whether the store holds reference data (a commitment).
    Store { downloaded: bool },
    /// The number of ballots at the tallier and in the store.
    Counts { remote: u32, local: u32 },
    /// The ballot that was asked for is checked, applied and stored.
    Applied,
}

/// What the shell is to do next.
#[derive(Clone, Copy, Debug, PartialEq, Eq, Structural)]
pub enum SyncAction {
    /// Ask the tallier for its count, and count the stored ballots.
    FetchCounts,
    /// Fetch the ballot at this height, check it, apply it and store it.
    Fetch(u32),
    /// Nothing is left to do.
    Stop,
}

/// The number that decimal digits stand for.
pub open spec fn digits_value(s: Seq<char>) -> nat
    decreases s.len(),
{
    if s.len() == 0 {
        0
    } else {
        10 * digits_value(s.drop_last()) + (s.last() as nat - '0' as nat) as nat
    }
}

/// Every character is a decimal digit.
pub open spec fn all_digits(s: Seq<char>) -> bool {
    forall|i: int| 0 <= i < s.len() ==> '0' <= #[trigger] s[i] <= '9'
}

/// The number that a text stands for: decimal digits, at least one, after
/// an optional `+`, with a value that fits in 32 bits.
pub open spec fn parsed_u32(text: Seq<char>) -> Option<u32> {
    let digits = if text.len() > 0 && text[0] == '+' {
        text.skip(1)
    } else {
        text
    };
    if digits.len() > 0 && all_digits(digits) && digits_value(digits) <= u32::MAX {
        Some(digits_value(digits) as u32)
    } else {
        None
    }
}

/// `str::parse::<u32>` of std: the number that the text stands for, if it
/// stands for one.
#[verifier::external_body]
fn parse_u32(text: &str) -> (r: Option<u32>)
    ensures
        r == parsed_u32(text@),
{
    text.parse::<u32>().ok()
}

/// The tallier's count of ballots, from the text of its answer.
pub fn parse_count(text: &str) -> (r: Result<u32, SyncError>)
    ensures
        r == match parsed_u32(text@) {
            Some(n) => Ok::<u32, SyncError>(n),
            None => Err::<u32, SyncError>(SyncError::InvalidCount),
        },
{
    match parse_u32(text) {
        Some(n) => Ok(n),
        None => Err(SyncError::InvalidCount),
    }
}

/// The height that the store holds, from the text of the property.
pub fn parse_height(text: &str) -> (r: Option<u32>)
    ensures
        r == parsed_u32(text@),
{
    parse_u32(text)
}

/// What follows when the store holds the first `local` of `remote` ballots:
/// the next ballot is fetched, or nothing is left.
pub open spec fn fetch_or_stop(remote: u32, local: u32) -> (SyncState, SyncAction) {
    if local < remote {
        (SyncState::Applying { remote, local }, SyncAction::Fetch((local + 1) as u32))
    } else {
        (SyncState::Finished, SyncAction::Stop)
    }
}

/// The next state and what to do, from a state and what was reported.
pub open spec fn transition(state: SyncState, event: SyncEvent) -> (SyncState, SyncAction) {
    match (state, event) {
        (SyncState::Start, SyncEvent::Store { downloaded }) => if downloaded {
            (SyncState::Counting, SyncAction::FetchCounts)
        } else {
            (SyncState::Finished, SyncAction::Stop)
        },
        (SyncState::Counting, SyncEvent::Counts { remote, local }) => fetch_or_stop(remote, local),
        (SyncState::Applying { remote, local }, SyncEvent::Applied) => if local < remote {
            fetch_or_stop(remote, (local + 1) as u32)
        } else {
            (SyncState::Finished, SyncAction::Stop)
        },
        _ => (SyncState::Finished, SyncAction::Stop),
    }
}

/// One step of a synchronisation. Nothing is fetched before reference data
/// was downloaded. Ballots are fetched by height, from the one after the last
/// stored, each once and in order, up to the tallier's count. A report that
/// does not answer what was asked ends the synchronisation.
pub fn sync_step(state: SyncState, event: SyncEvent) -> (r: (SyncState, SyncAction))
    ensures
        r == transition(state, event),
{
    match (state, event) {
        (SyncState::Start, SyncEvent::Store { downloaded }) => {
            if downloaded {
                (SyncState::Counting, SyncAction::FetchCounts)
            } else {
                (SyncState::Finished, SyncAction::Stop)
            }
        },
        (SyncState::Counting, SyncEvent::Counts { remote, local }) => next_fetch(remote, local),
        (SyncState::Applying { remote, local }, SyncEvent::Applied) => {
            if local < remote {
                next_fetch(remote, local + 1)
            } else {
                (SyncState::Finished, SyncAction::Stop)
            }
        },
        _ => (SyncState::Finished, SyncAction::Stop),
    }
}

/// The next ballot to fetch, if one is left.
fn next_fetch(remote: u32, local: u32) -> (r: (SyncState, SyncAction))
    ensures
        r == fetch_or_stop(remote, local),
{
    if local < remote {
        (SyncState::Applying { remote, local }, SyncAction::Fetch(local + 1))
    } else {
        (SyncState::Finished, SyncAction::Stop)
    }
}

/// The heights that are fetched, in order, from the moment the counts are
/// known until the synchronisation stops, when every fetched ballot is
/// applied.
pub open spec fn fetched(state: SyncState, action: SyncAction) -> Seq<u32>
    decreases
        match state {
            SyncState::Applying { remote, local } => remote - local,
            _ => 0,
        },
{
    match (state, action) {
        (SyncState::Applying { remote, local }, SyncAction::Fetch(h)) => if local < remote {
            let next = transition(state, SyncEvent::Applied);
            seq![h] + fetched(next.0, next.1)
        } else {
            Seq::empty()
        },
        _ => Seq::empty(),
    }
}

/// From counts `local <= remote` a synchronisation fetches the heights
/// `local + 1` to `remote`, each once and in order.
pub proof fn lemma_sync_fetches_the_rest(remote: u32, local: u32)
    requires
        local <= remote,
    ensures
        fetched(fetch_or_stop(remote, local).0, fetch_or_stop(remote, local).1) == Seq::new(
            (remote - local) as nat,
            |i: int| (local + 1 + i) as u32,
        ),
    decreases remote - local,
{
    let start = fetch_or_stop(remote, local);
    let all = Seq::new((remote - local) as nat, |i: int| (local + 1 + i) as u32);
    if local < remote {
        let l2 = (local + 1) as u32;
        lemma_sync_fetches_the_rest(remote, l2);
        let next = transition(start.0, SyncEvent::Applied);
        assert(next == fetch_or_stop(remote, l2));
        let rest = Seq::new((remote - l2) as nat, |i: int| (l2 + 1 + i) as u32);
        assert(fetched(start.0, start.1) == seq![l2] + fetched(next.0, next.1));
        assert(seq![l2] + rest =~= all);
    } else {
        assert(fetched(start.0, start.1) =~= all);
    }
}

/// A synchronisation right after one that ran to its end fetches nothing and
/// stops: the store then holds as many ballots as the tallier.
pub proof fn lemma_sync_idempotent(remote: u32)
    ensures
        transition(SyncState::Counting, SyncEvent::Counts { remote, local: remote }) == (
            SyncState::Finished,
            SyncAction::Stop,
        ),
        fetched(fetch_or_stop(remote, remote).0, fetch_or_stop(remote, remote).1)
            == Seq::<u32>::empty(),
{
}

/// The address of the light-wallet server: the stored one, or the default.
pub fn lwd_url(stored: Option<String>) -> (url: String)
    ensures
        url@ == match stored {
            Some(s) => s@,
            None => DEFAULT_LWD_URL@,
        },
{
    match stored {
        Some(s) => s,
        None => DEFAULT_LWD_URL.to_owned(),
    }
}

} // verus!

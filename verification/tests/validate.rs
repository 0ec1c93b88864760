use zvote_core::validate::{accept_key, handle_ballot, validate_key, BallotEffect};

const UFVK: &str = "uview1cgrqnry478ckvpr0f580t6fsahp0a5mj2e9xl7hv2d2jd4ldzy449mwwk2l9yeuts85wjls6hjtghdsy5vhhvmjdw3jxl3cxhrg3vs296a3czazrycrr5cywjhwc5c3ztfyjdhmz0exvzzeyejamyp0cr9z8f9wj0953fzht0m4lenk94t70ruwgjxag2tvp63wn9ftzhtkh20gyre3w5s24f6wlgqxnjh40gd2lxe75sf3z8h5y2x0atpxcyf9t3em4h0evvsftluruqne6w4sm066sw0qe5y8qg423grple5fftxrqyy7xmqmatv7nzd7tcjadu8f7mqz4l83jsyxy4t8pkayytyk7nrp467ds85knekdkvnd7hqkfer8mnqd7pv";

#[test]
fn a_mnemonic_is_a_key() {
    let phrase = "abandon abandon abandon abandon abandon abandon abandon abandon abandon abandon abandon about";
    assert_eq!(validate_key(phrase.to_string()), Ok(true));
}

#[test]
fn a_unified_full_viewing_key_is_a_key() {
    assert_eq!(validate_key(UFVK.to_string()), Ok(true));
}

#[test]
fn anything_else_is_no_key() {
    assert_eq!(validate_key("".to_string()), Ok(false));
    assert_eq!(validate_key("abandon abandon abandon".to_string()), Ok(false));
    assert_eq!(
        validate_key(
            "abandon abandon abandon abandon abandon abandon abandon abandon abandon abandon abandon abandon"
                .to_string()
        ),
        Ok(false)
    );
    let mut broken = UFVK.to_string();
    broken.pop();
    assert_eq!(validate_key(broken), Ok(false));
}

#[test]
fn either_kind_of_key_is_accepted() {
    assert_eq!(accept_key(true, false), Ok(true));
    assert_eq!(accept_key(false, true), Ok(true));
    assert_eq!(accept_key(true, true), Ok(true));
    assert_eq!(accept_key(false, false), Ok(false));
}

#[test]
fn a_ballot_marks_spends_and_appends_commitments() {
    assert_eq!(
        handle_ballot(100, &vec![false, false]),
        Some(vec![
            BallotEffect::MarkSpent { action: 0 },
            BallotEffect::StoreCmx { action: 0 },
            BallotEffect::AddNullifier { action: 0 },
            BallotEffect::MarkSpent { action: 1 },
            BallotEffect::StoreCmx { action: 1 },
            BallotEffect::AddNullifier { action: 1 },
            BallotEffect::StoreBallot,
        ])
    );
}

#[test]
fn a_note_of_the_voter_is_stored_at_the_position_of_its_commitment() {
    assert_eq!(
        handle_ballot(100, &vec![false, true, true]),
        Some(vec![
            BallotEffect::MarkSpent { action: 0 },
            BallotEffect::StoreCmx { action: 0 },
            BallotEffect::AddNullifier { action: 0 },
            BallotEffect::MarkSpent { action: 1 },
            BallotEffect::StoreNote { action: 1, position: 101 },
            BallotEffect::StoreCmx { action: 1 },
            BallotEffect::AddNullifier { action: 1 },
            BallotEffect::MarkSpent { action: 2 },
            BallotEffect::StoreNote { action: 2, position: 102 },
            BallotEffect::StoreCmx { action: 2 },
            BallotEffect::AddNullifier { action: 2 },
            BallotEffect::StoreBallot,
        ])
    );
}

#[test]
fn positions_stay_within_32_bits() {
    assert_eq!(handle_ballot(u32::MAX - 1, &vec![true, true]), None);
    assert_eq!(
        handle_ballot(u32::MAX - 1, &vec![true]),
        Some(vec![
            BallotEffect::MarkSpent { action: 0 },
            BallotEffect::StoreNote { action: 0, position: u32::MAX - 1 },
            BallotEffect::StoreCmx { action: 0 },
            BallotEffect::AddNullifier { action: 0 },
            BallotEffect::StoreBallot,
        ])
    );
    assert_eq!(handle_ballot(u32::MAX, &vec![]), Some(vec![BallotEffect::StoreBallot]));
}

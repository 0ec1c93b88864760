//! Core of a shielded voting client: field elements, the two Merkle trees that
//! anchor a ballot, the vote-address codec, the ballot and the rules around it.

use vstd::prelude::*;

pub mod address;
pub mod ballot;
pub mod db;
pub mod download;
pub mod field;
pub mod ranges;
pub mod trees;
pub mod validate;
pub mod vote;

verus! {

/// Copies a slice of 32 bytes into an array.
pub fn as_byte256(h: &[u8]) -> (hh: [u8; 32])
    requires
        h@.len() == 32,
    ensures
        hh@ == h@,
{
    let mut hh = [0u8; 32];
    let mut i: usize = 0;
    while i < 32
        invariant
            i <= 32,
            h@.len() == 32,
            forall|j: int| 0 <= j < i ==> hh@[j] == h@[j],
        decreases 32 - i,
    {
        hh[i] = h[i];
        i += 1;
    }
    assert(hh@ =~= h@);
    hh
}

} // verus!

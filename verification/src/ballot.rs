//! The ballot: its parts, the shape that every ballot has, and the hash that
//! its signatures sign.

use vstd::prelude::*;

verus! {

/// One action of a ballot: six fields of bytes.
#[derive(Clone, Debug, PartialEq, Eq)]
pub struct BallotAction {
    /// The commitment to the value that the action spends less what it
    /// gives, 32 bytes.
    pub cv_net: Vec<u8>,
    /// The randomised key that checks the action's signature, 32 bytes.
    pub rk: Vec<u8>,
    /// The nullifier of the spent note in the election's domain, 32 bytes.
    pub nf: Vec<u8>,
    /// The commitment to the new note, 32 bytes.
    pub cmx: Vec<u8>,
    /// The key that the new note was encrypted to, 32 bytes.
    pub epk: Vec<u8>,
    /// The encrypted new note, 52 bytes.
    pub enc: Vec<u8>,
}

/// The two roots that a ballot was made against.
#[derive(Clone, Debug, PartialEq, Eq)]
pub struct BallotAnchors {
    /// The root of the nullifier tree, 32 bytes.
    pub nf: Vec<u8>,
    /// The root of the commitment tree, 32 bytes.
    pub cmx: Vec<u8>,
}

/// What a ballot says in public.
#[derive(Clone, Debug, PartialEq, Eq)]
pub struct BallotData {
    /// The version of the format.
    pub version: u32,
    /// The election's domain, 32 bytes.
    pub domain: Vec<u8>,
    /// The actions, at least two.
    pub actions: Vec<BallotAction>,
    /// The roots.
    pub anchors: BallotAnchors,
}

/// What shows that a ballot is valid.
#[derive(Clone, Debug, PartialEq, Eq)]
pub struct BallotWitnesses {
    /// One proof for each action.
    pub proofs: Vec<Vec<u8>>,
    /// One signature of 64 bytes for each action, where the ballot is signed.
    pub sp_signatures: Option<Vec<Vec<u8>>>,
    /// The signature that binds the values, 64 bytes.
    pub binding_signature: Vec<u8>,
}

/// A ballot.
#[derive(Clone, Debug, PartialEq, Eq)]
pub struct Ballot {
    /// The public part.
    pub data: BallotData,
    /// The proofs and signatures.
    pub witnesses: BallotWitnesses,
}

/// The personalization of the hash of a ballot: the bytes of
/// `Zcash_VoteBallot`.
pub open spec fn sighash_personalization() -> Seq<u8> {
    seq![
        0x5au8, 0x63u8, 0x61u8, 0x73u8, 0x68u8, 0x5fu8, 0x56u8, 0x6fu8, 0x74u8, 0x65u8, 0x42u8,
        0x61u8, 0x6cu8, 0x6cu8, 0x6fu8, 0x74u8,
    ]
}

/// The four bytes of a number, the lowest first.
pub open spec fn le_u32(v: u32) -> Seq<u8> {
    seq![
        (v % 256) as u8,
        (v / 256 % 256) as u8,
        (v / 65536 % 256) as u8,
        (v / 16777216) as u8,
    ]
}

/// The fields of the actions, one action after the other.
pub open spec fn actions_bytes(actions: Seq<BallotAction>) -> Seq<u8>
    decreases actions.len(),
{
    if actions.len() == 0 {
        Seq::empty()
    } else {
        actions_bytes(actions.drop_last()) + actions.last().canonical()
    }
}

/// BLAKE2b with a digest of 32 bytes and the given personalization, as
/// `blake2b_simd` computes it.
pub uninterp spec fn blake2b_256(personal: Seq<u8>, data: Seq<u8>) -> Seq<u8>;

/// `Params::hash` of `blake2b_simd`, with a hash length of 32 and the given
/// personalization of 16 bytes: a function of the personalization and the
/// data.
#[verifier::external_body]
fn blake2b_hash(personal: &[u8; 16], data: &Vec<u8>) -> (r: [u8; 32])
    ensures
        r@ == blake2b_256(personal@, data@),
{
    let hash = blake2b_simd::Params::new().hash_length(32).personal(personal).hash(data);
    let mut out = [0u8; 32];
    out.copy_from_slice(hash.as_bytes());
    out
}

/// Appends `bytes` to `out`.
fn append(out: &mut Vec<u8>, bytes: &Vec<u8>)
    ensures
        final(out)@ == old(out)@ + bytes@,
{
    let ghost start = out@;
    let mut i: usize = 0;
    while i < bytes.len()
        invariant
            i <= bytes@.len(),
            out@ == start + bytes@.take(i as int),
        decreases bytes@.len() - i,
    {
        out.push(bytes[i]);
        proof {
            assert(bytes@.take(i + 1) =~= bytes@.take(i as int).push(bytes@[i as int]));
            assert(start + bytes@.take(i + 1) =~= (start + bytes@.take(i as int)).push(
                bytes@[i as int],
            ));
        }
        i += 1;
    }
    proof {
        assert(bytes@.take(i as int) =~= bytes@);
    }
}

/// Appends the four bytes of `v`, the lowest first.
fn append_u32(out: &mut Vec<u8>, v: u32)
    ensures
        final(out)@ == old(out)@ + le_u32(v),
{
    let ghost start = out@;
    out.push((v % 256) as u8);
    out.push((v / 256 % 256) as u8);
    out.push((v / 65536 % 256) as u8);
    out.push((v / 16777216) as u8);
    proof {
        assert(out@ =~= start + le_u32(v));
    }
}

impl BallotAction {
    /// The six fields one after the other: `cv_net`, `rk`, `nf`, `cmx`,
    /// `epk`, `enc`.
    pub open spec fn canonical(self) -> Seq<u8> {
        self.cv_net@ + self.rk@ + self.nf@ + self.cmx@ + self.epk@ + self.enc@
    }

    /// Appends the six fields to `out`.
    pub fn write(&self, out: &mut Vec<u8>)
        ensures
            final(out)@ == old(out)@ + self.canonical(),
    {
        let ghost start = out@;
        append(out, &self.cv_net);
        append(out, &self.rk);
        append(out, &self.nf);
        append(out, &self.cmx);
        append(out, &self.epk);
        append(out, &self.enc);
        proof {
            assert(out@ =~= start + self.canonical());
        }
    }
}

impl BallotData {
    /// The bytes that are hashed: the version and the number of actions, each
    /// in four bytes with the lowest first, then the actions.
    pub open spec fn canonical(self) -> Seq<u8> {
        le_u32(self.version) + le_u32(self.actions@.len() as u32) + actions_bytes(self.actions@)
    }

    /// The hash that the signatures of a ballot with this data sign.
    pub open spec fn spec_sighash(self) -> Seq<u8> {
        blake2b_256(sighash_personalization(), self.canonical())
    }

    /// The bytes that are hashed, unless there are more actions than 32 bits
    /// count.
    pub fn canonical_bytes(&self) -> (r: Option<Vec<u8>>)
        ensures
            r.is_some() == (self.actions@.len() <= u32::MAX),
            r matches Some(bytes) ==> bytes@ == self.canonical(),
    {
        let n = self.actions.len();
        if n > u32::MAX as usize {
            return None;
        }
        let mut out: Vec<u8> = Vec::new();
        append_u32(&mut out, self.version);
        append_u32(&mut out, n as u32);
        let ghost head = out@;
        let mut i: usize = 0;
        proof {
            assert(self.actions@.take(0) =~= Seq::<BallotAction>::empty());
            assert(head =~= le_u32(self.version) + le_u32(n as u32));
            assert(head + actions_bytes(self.actions@.take(0)) =~= head);
        }
        while i < n
            invariant
                i <= n,
                n == self.actions@.len(),
                out@ == head + actions_bytes(self.actions@.take(i as int)),
            decreases n - i,
        {
            let ghost before = out@;
            self.actions[i].write(&mut out);
            proof {
                let next = self.actions@.take(i + 1);
                assert(next.drop_last() =~= self.actions@.take(i as int));
                assert(next.last() == self.actions@[i as int]);
                assert(out@ =~= head + actions_bytes(next));
            }
            i += 1;
        }
        proof {
            assert(self.actions@.take(n as int) =~= self.actions@);
        }
        Some(out)
    }

    /// The hash that the signatures sign: BLAKE2b of the canonical bytes, 32
    /// bytes long, personalized for ballots. The same data gives the same
    /// hash.
    pub fn sighash(&self) -> (r: Option<[u8; 32]>)
        ensures
            r.is_some() == (self.actions@.len() <= u32::MAX),
            r matches Some(h) ==> h@ == self.spec_sighash(),
    {
        match self.canonical_bytes() {
            None => None,
            Some(bytes) => {
                let personal: [u8; 16] = [
                    0x5a, 0x63, 0x61, 0x73, 0x68, 0x5f, 0x56, 0x6f, 0x74, 0x65, 0x42, 0x61, 0x6c,
                    0x6c, 0x6f, 0x74,
                ];
                proof {
                    assert(personal@ =~= sighash_personalization());
                }
                Some(blake2b_hash(&personal, &bytes))
            },
        }
    }
}

/// Why a ballot is turned down before any cryptography.
#[derive(Clone, Copy, Debug, PartialEq, Eq, Structural)]
pub enum BallotError {
    /// Fewer than two actions.
    TooFewActions,
    /// A field has not the length that the format fixes.
    FieldLength,
    /// The number of proofs is not the number of actions.
    ProofCount,
    /// The number of signatures is not the number of actions.
    SignatureCount,
    /// The election asks for signatures and the ballot has none.
    MissingSignatures,
}

/// Every entry has `len` bytes.
pub open spec fn all_of_len(items: Seq<Vec<u8>>, len: nat) -> bool {
    forall|i: int| 0 <= i < items.len() ==> (#[trigger] items[i])@.len() == len
}

/// Whether every entry has `len` bytes.
pub fn check_all_of_len(items: &Vec<Vec<u8>>, len: usize) -> (ok: bool)
    ensures
        ok == all_of_len(items@, len as nat),
{
    let mut i: usize = 0;
    while i < items.len()
        invariant
            i <= items@.len(),
            forall|j: int| 0 <= j < i ==> (#[trigger] items@[j])@.len() == len,
        decreases items@.len() - i,
    {
        if items[i].len() != len {
            return false;
        }
        i += 1;
    }
    true
}

impl BallotAction {
    /// Each field has the length that the format fixes.
    pub open spec fn well_formed(self) -> bool {
        &&& self.cv_net@.len() == 32
        &&& self.rk@.len() == 32
        &&& self.nf@.len() == 32
        &&& self.cmx@.len() == 32
        &&& self.epk@.len() == 32
        &&& self.enc@.len() == 52
    }

    /// Whether each field has the length that the format fixes.
    pub fn is_well_formed(&self) -> (ok: bool)
        ensures
            ok == self.well_formed(),
    {
        self.cv_net.len() == 32 && self.rk.len() == 32 && self.nf.len() == 32 && self.cmx.len()
            == 32 && self.epk.len() == 32 && self.enc.len() == 52
    }
}

impl Ballot {
    /// Every field of the ballot outside its proofs has the length that the
    /// format fixes.
    pub open spec fn lengths_ok(self) -> bool {
        &&& self.data.domain@.len() == 32
        &&& self.data.anchors.nf@.len() == 32
        &&& self.data.anchors.cmx@.len() == 32
        &&& self.witnesses.binding_signature@.len() == 64
        &&& forall|i: int|
            0 <= i < self.data.actions@.len() ==> (#[trigger] self.data.actions@[i]).well_formed()
        &&& match self.witnesses.sp_signatures {
            Some(sigs) => all_of_len(sigs@, 64),
            None => true,
        }
    }

    /// What holds of every ballot: at least two actions, a proof for each,
    /// and no signatures or one for each.
    pub open spec fn counts_ok(self) -> bool {
        &&& self.data.actions@.len() >= 2
        &&& self.witnesses.proofs@.len() == self.data.actions@.len()
        &&& match self.witnesses.sp_signatures {
            Some(sigs) => sigs@.len() == self.data.actions@.len(),
            None => true,
        }
    }

    /// Why the ballot is turned down by its shape, if it is.
    pub open spec fn shape_error(self, signature_required: bool) -> Option<BallotError> {
        if self.data.actions@.len() < 2 {
            Some(BallotError::TooFewActions)
        } else if !self.lengths_ok() {
            Some(BallotError::FieldLength)
        } else if self.witnesses.proofs@.len() != self.data.actions@.len() {
            Some(BallotError::ProofCount)
        } else {
            match self.witnesses.sp_signatures {
                Some(sigs) => if sigs@.len() != self.data.actions@.len() {
                    Some(BallotError::SignatureCount)
                } else {
                    None
                },
                None => if signature_required {
                    Some(BallotError::MissingSignatures)
                } else {
                    None
                },
            }
        }
    }

    /// Whether every field outside the proofs has its fixed length.
    pub fn check_lengths(&self) -> (ok: bool)
        ensures
            ok == self.lengths_ok(),
    {
        if self.data.domain.len() != 32 || self.data.anchors.nf.len() != 32
            || self.data.anchors.cmx.len() != 32 || self.witnesses.binding_signature.len() != 64 {
            return false;
        }
        let mut i: usize = 0;
        while i < self.data.actions.len()
            invariant
                i <= self.data.actions@.len(),
                forall|j: int| 0 <= j < i ==> (#[trigger] self.data.actions@[j]).well_formed(),
            decreases self.data.actions@.len() - i,
        {
            if !self.data.actions[i].is_well_formed() {
                return false;
            }
            i += 1;
        }
        match &self.witnesses.sp_signatures {
            Some(sigs) => check_all_of_len(sigs, 64),
            None => true,
        }
    }

    /// The check of a ballot's shape, which comes before its signatures and
    /// proofs are checked: the counts and lengths must be right, and where
    /// the election asks for signatures the ballot must have them.
    pub fn check_shape(&self, signature_required: bool) -> (r: Result<(), BallotError>)
        ensures
            r == match self.shape_error(signature_required) {
                Some(e) => Err::<(), BallotError>(e),
                None => Ok::<(), BallotError>(()),
            },
            r.is_ok() <==> self.counts_ok() && self.lengths_ok() && (signature_required
                ==> self.witnesses.sp_signatures.is_some()),
    {
        let n = self.data.actions.len();
        if n < 2 {
            return Err(BallotError::TooFewActions);
        }
        if !self.check_lengths() {
            return Err(BallotError::FieldLength);
        }
        if self.witnesses.proofs.len() != n {
            return Err(BallotError::ProofCount);
        }
        match &self.witnesses.sp_signatures {
            Some(sigs) => {
                if sigs.len() != n {
                    return Err(BallotError::SignatureCount);
                }
            },
            None => {
                if signature_required {
                    return Err(BallotError::MissingSignatures);
                }
            },
        }
        Ok(())
    }
}

/// A ballot whose shape is accepted has at least two actions, a proof for
/// each of them and, where it is signed, a signature for each of them; it is
/// signed where the election asks for it.
pub proof fn lemma_accepted_shape(ballot: Ballot, signature_required: bool)
    requires
        ballot.shape_error(signature_required).is_none(),
    ensures
        ballot.data.actions@.len() >= 2,
        ballot.witnesses.proofs@.len() == ballot.data.actions@.len(),
        ballot.witnesses.sp_signatures.is_none() || ballot.witnesses.sp_signatures.unwrap()@.len()
            == ballot.data.actions@.len(),
        signature_required ==> ballot.witnesses.sp_signatures.is_some(),
{
}

} // verus!

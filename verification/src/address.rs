//! The vote address: a raw Orchard address of 43 bytes, written as bech32m
//! under the prefix `zvote`.
//!
//! The bech32 coding is done by `bech32`, the test of the raw address by
//! `orchard`; this module holds the rules between them.

use bech32::ToBase32;
use orchard::Address;
use vstd::prelude::*;

verus! {

/// The human-readable prefix of a vote address.
pub const VOTE_HRP: &'static str = "zvote";

/// The length of a raw Orchard address.
pub const RAW_ADDRESS_LEN: usize = 43;

/// `bech32::Error`, the error of the `bech32` coding, carried and never read.
#[verifier::external_type_specification]
#[verifier::external_body]
pub struct ExBech32Error(bech32::Error);

/// Why a string is no vote address.
#[derive(Clone, Copy, Debug, PartialEq, Eq, Structural)]
pub enum AddressError {
    /// The string is no bech32 string, or its data part is padded wrongly.
    Encoding,
    /// The prefix is not that of a vote address.
    IncorrectPrefix,
    /// The data part does not hold 43 bytes.
    IncorrectLength,
    /// The 43 bytes are no Orchard address.
    InvalidData,
}

/// What `bech32::decode` makes of a string: the prefix in lower case and the
/// data part as 5-bit values, or nothing where it fails.
pub uninterp spec fn bech32_decoded(s: Seq<char>) -> Option<(Seq<char>, Seq<u8>)>;

/// What `bech32::convert_bits` makes of 5-bit values when it regroups them
/// into bytes without padding, or nothing where it fails.
pub uninterp spec fn base32_expanded(data: Seq<u8>) -> Option<Seq<u8>>;

/// The 5-bit values that `to_base32` of `bech32` gives for bytes.
pub uninterp spec fn base32_of(bytes: Seq<u8>) -> Seq<u8>;

/// The bech32m string that `bech32::encode` gives for a prefix and a data
/// part of 5-bit values.
pub uninterp spec fn bech32m_encoded(hrp: Seq<char>, data: Seq<u8>) -> Seq<char>;

/// Whether `Address::from_raw_address_bytes` of `orchard` accepts the bytes.
pub uninterp spec fn is_orchard_address(raw: Seq<u8>) -> bool;

/// A prefix that `bech32` accepts: 1 to 83 characters between `!` and `~`,
/// not both lower-case and upper-case letters among them.
pub open spec fn valid_hrp(hrp: Seq<char>) -> bool {
    &&& 1 <= hrp.len() <= 83
    &&& forall|i: int| 0 <= i < hrp.len() ==> '!' <= #[trigger] hrp[i] <= '~'
    &&& !((exists|i: int| 0 <= i < hrp.len() && 'a' <= #[trigger] hrp[i] <= 'z') && (exists|
        i: int,
    | 0 <= i < hrp.len() && 'A' <= #[trigger] hrp[i] <= 'Z'))
}

/// `bech32::decode`: the prefix and the data part of a bech32 or bech32m
/// string, each 5-bit value of the data as a byte.
#[verifier::external_body]
fn bech32_decode(s: &str) -> (r: Result<(String, Vec<u8>), bech32::Error>)
    ensures
        match r {
            Ok((hrp, data)) => bech32_decoded(s@) == Some((hrp@, data@)),
            Err(_) => bech32_decoded(s@).is_none(),
        },
{
    let (hrp, data, _) = bech32::decode(s)?;
    Ok((hrp, data.iter().map(|v| v.to_u8()).collect()))
}

/// `bech32::convert_bits` from 5 to 8 bits without padding, which is what
/// `from_base32` of `bech32` does.
#[verifier::external_body]
fn base32_expand(data: &Vec<u8>) -> (r: Result<Vec<u8>, bech32::Error>)
    ensures
        match r {
            Ok(bytes) => base32_expanded(data@) == Some(bytes@),
            Err(_) => base32_expanded(data@).is_none(),
        },
{
    bech32::convert_bits(data, 5, 8, false)
}

/// `to_base32` of `bech32` on a raw address: its bits in groups of five,
/// each group a value below 32.
#[verifier::external_body]
fn base32_from(raw: &[u8; 43]) -> (r: Vec<u8>)
    ensures
        r@ == base32_of(raw@),
        forall|i: int| 0 <= i < r@.len() ==> #[trigger] r@[i] < 32,
{
    raw.to_base32().iter().map(|v| v.to_u8()).collect()
}

/// `bech32::encode` with the variant bech32m. It fails only on a prefix that
/// is not valid.
#[verifier::external_body]
fn bech32m_encode(hrp: &str, data: &Vec<u8>) -> (r: Result<String, bech32::Error>)
    requires
        forall|i: int| 0 <= i < data@.len() ==> #[trigger] data@[i] < 32,
    ensures
        valid_hrp(hrp@) ==> r.is_ok(),
        r matches Ok(s) ==> s@ == bech32m_encoded(hrp@, data@),
{
    let data: Vec<bech32::u5> = data.iter().map(|b| bech32::u5::try_from_u8(*b).unwrap()).collect();
    bech32::encode(hrp, data, bech32::Variant::Bech32m)
}

/// `Address::from_raw_address_bytes` of `orchard`: whether the bytes are the
/// raw encoding of an address.
#[verifier::external_body]
fn raw_address_ok(raw: &[u8; 43]) -> (ok: bool)
    ensures
        ok == is_orchard_address(raw@),
{
    bool::from(Address::from_raw_address_bytes(raw).is_some())
}

/// The raw address that 43 bytes stand for, or why they stand for none.
pub open spec fn address_from_bytes(bytes: Seq<u8>) -> Result<Seq<u8>, AddressError> {
    if bytes.len() != 43 {
        Err(AddressError::IncorrectLength)
    } else if !is_orchard_address(bytes) {
        Err(AddressError::InvalidData)
    } else {
        Ok(bytes)
    }
}

/// The raw address that a prefix and a data part stand for.
pub open spec fn address_from_parts(hrp: Seq<char>, data: Seq<u8>) -> Result<
    Seq<u8>,
    AddressError,
> {
    if hrp != VOTE_HRP@ {
        Err(AddressError::IncorrectPrefix)
    } else {
        match base32_expanded(data) {
            None => Err(AddressError::Encoding),
            Some(bytes) => address_from_bytes(bytes),
        }
    }
}

/// The raw address that a string stands for.
pub open spec fn decoded_address(s: Seq<char>) -> Result<Seq<u8>, AddressError> {
    match bech32_decoded(s) {
        None => Err(AddressError::Encoding),
        Some((hrp, data)) => address_from_parts(hrp, data),
    }
}

/// The string that a raw address is written as.
pub open spec fn encoded_address(raw: Seq<u8>) -> Seq<char> {
    bech32m_encoded(VOTE_HRP@, base32_of(raw))
}

/// The prefix of a vote address is one that `bech32` accepts.
pub proof fn lemma_vote_hrp_valid()
    ensures
        valid_hrp(VOTE_HRP@),
{
    reveal_strlit("zvote");
    let h = VOTE_HRP@;
    assert(h.len() == 5);
    assert(h[0] == 'z' && h[1] == 'v' && h[2] == 'o' && h[3] == 't' && h[4] == 'e');
}

/// An address to vote for: a raw Orchard address.
#[derive(Clone, Copy, Debug, PartialEq, Eq)]
pub struct VoteAddress {
    raw: [u8; 43],
}

impl View for VoteAddress {
    type V = Seq<u8>;

    /// The raw address, 43 bytes.
    closed spec fn view(&self) -> Seq<u8> {
        self.raw@
    }
}

impl AddressError {
    /// The message that goes with the error.
    pub fn message(&self) -> (m: &'static str)
        ensures
            m@ == match *self {
                AddressError::Encoding => "Invalid Address (incorrect encoding)"@,
                AddressError::IncorrectPrefix => "Invalid Address (incorrect prefix)"@,
                AddressError::IncorrectLength => "Invalid Address (incorrect length)"@,
                AddressError::InvalidData => "Invalid Address (invalid data)"@,
            },
    {
        match self {
            AddressError::Encoding => "Invalid Address (incorrect encoding)",
            AddressError::IncorrectPrefix => "Invalid Address (incorrect prefix)",
            AddressError::IncorrectLength => "Invalid Address (incorrect length)",
            AddressError::InvalidData => "Invalid Address (invalid data)",
        }
    }
}

impl VoteAddress {
    /// What holds of every vote address: 43 bytes that Orchard accepts.
    #[verifier::type_invariant]
    pub open spec fn valid(self) -> bool {
        &&& self@.len() == 43
        &&& is_orchard_address(self@)
    }

    /// The address with the given raw encoding, if it is one.
    pub fn from_raw_address_bytes(bytes: [u8; 43]) -> (r: Option<VoteAddress>)
        ensures
            r.is_some() == is_orchard_address(bytes@),
            r matches Some(a) ==> a@ == bytes@,
    {
        if raw_address_ok(&bytes) {
            Some(VoteAddress { raw: bytes })
        } else {
            None
        }
    }

    /// The raw encoding.
    pub fn to_raw_address_bytes(&self) -> (r: [u8; 43])
        ensures
            r@ == self@,
            is_orchard_address(r@),
    {
        proof {
            use_type_invariant(self);
        }
        self.raw
    }

    /// The address that the bytes of a data part stand for: there must be 43
    /// of them, and Orchard must accept them.
    pub fn from_bytes(bytes: &Vec<u8>) -> (r: Result<VoteAddress, AddressError>)
        ensures
            match r {
                Ok(a) => address_from_bytes(bytes@) == Ok::<Seq<u8>, AddressError>(a@),
                Err(e) => address_from_bytes(bytes@) == Err::<Seq<u8>, AddressError>(e),
            },
    {
        if bytes.len() != 43 {
            return Err(AddressError::IncorrectLength);
        }
        let mut raw = [0u8; 43];
        let mut i: usize = 0;
        while i < 43
            invariant
                i <= 43,
                bytes@.len() == 43,
                forall|j: int| 0 <= j < i ==> raw@[j] == bytes@[j],
            decreases 43 - i,
        {
            raw[i] = bytes[i];
            i += 1;
        }
        assert(raw@ =~= bytes@);
        match VoteAddress::from_raw_address_bytes(raw) {
            Some(a) => Ok(a),
            None => Err(AddressError::InvalidData),
        }
    }

    /// The address that a decoded prefix and data part stand for: the prefix
    /// must be `zvote`, and the data must regroup into the bytes of an
    /// address.
    pub fn from_parts(hrp: &String, data: &Vec<u8>) -> (r: Result<VoteAddress, AddressError>)
        ensures
            match r {
                Ok(a) => address_from_parts(hrp@, data@) == Ok::<Seq<u8>, AddressError>(a@),
                Err(e) => address_from_parts(hrp@, data@) == Err::<Seq<u8>, AddressError>(e),
            },
    {
        let expected = VOTE_HRP.to_owned();
        if !hrp.eq(&expected) {
            return Err(AddressError::IncorrectPrefix);
        }
        match base32_expand(data) {
            Ok(bytes) => VoteAddress::from_bytes(&bytes),
            Err(_) => Err(AddressError::Encoding),
        }
    }

    /// The address that a string stands for, or why it stands for none.
    pub fn decode(s: &str) -> (r: Result<VoteAddress, AddressError>)
        ensures
            match r {
                Ok(a) => decoded_address(s@) == Ok::<Seq<u8>, AddressError>(a@),
                Err(e) => decoded_address(s@) == Err::<Seq<u8>, AddressError>(e),
            },
    {
        match bech32_decode(s) {
            Ok((hrp, data)) => VoteAddress::from_parts(&hrp, &data),
            Err(_) => Err(AddressError::Encoding),
        }
    }

    /// The address as a string.
    pub fn encode(&self) -> (s: String)
        ensures
            s@ == encoded_address(self@),
    {
        let data = base32_from(&self.raw);
        proof {
            lemma_vote_hrp_valid();
        }
        match bech32m_encode(VOTE_HRP, &data) {
            Ok(s) => s,
            Err(_) => vstd::pervasive::unreached(),
        }
    }
}

} // verus!

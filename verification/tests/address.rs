use bech32::{ToBase32, Variant};
use orchard::keys::{FullViewingKey, Scope, SpendingKey};
use zvote_core::address::{AddressError, VoteAddress, RAW_ADDRESS_LEN, VOTE_HRP};

fn raw_address(seed: u8) -> [u8; 43] {
    let mut s = seed;
    loop {
        let sk = SpendingKey::from_bytes([s; 32]);
        if bool::from(sk.is_some()) {
            let fvk = FullViewingKey::from(&sk.unwrap());
            return fvk.address_at(0u32, Scope::External).to_raw_address_bytes();
        }
        s = s.wrapping_add(1);
    }
}

#[test]
fn the_prefix_and_the_length_are_fixed() {
    assert_eq!(VOTE_HRP, "zvote");
    assert_eq!(RAW_ADDRESS_LEN, 43);
}

#[test]
fn an_address_is_written_as_bech32m_under_zvote() {
    let raw = raw_address(7);
    let a = VoteAddress::from_raw_address_bytes(raw).unwrap();
    assert_eq!(a.to_raw_address_bytes(), raw);
    let s = a.encode();
    assert!(s.starts_with("zvote1"));
    assert_eq!(s, bech32::encode("zvote", raw.to_base32(), Variant::Bech32m).unwrap());
    let (hrp, data, variant) = bech32::decode(&s).unwrap();
    assert_eq!(hrp, "zvote");
    assert_eq!(variant, Variant::Bech32m);
    assert_eq!(data, raw.to_base32());
}

#[test]
fn decoding_gives_the_address_back() {
    let raw = raw_address(9);
    let a = VoteAddress::from_raw_address_bytes(raw).unwrap();
    let s = a.encode();
    let b = VoteAddress::decode(&s).unwrap();
    assert_eq!(b, a);
    assert_eq!(b.to_raw_address_bytes(), raw);
}

#[test]
fn encoding_a_decoded_address_gives_the_string_back() {
    for seed in [1u8, 2, 3, 40, 200] {
        let raw = raw_address(seed);
        let s = bech32::encode("zvote", raw.to_base32(), Variant::Bech32m).unwrap();
        assert_eq!(VoteAddress::decode(&s).unwrap().encode(), s);
    }
}

#[test]
fn what_is_no_bech32_is_an_encoding_error() {
    assert_eq!(VoteAddress::decode(""), Err(AddressError::Encoding));
    assert_eq!(VoteAddress::decode("zvote"), Err(AddressError::Encoding));
    assert_eq!(VoteAddress::decode("not an address at all"), Err(AddressError::Encoding));
    let raw = raw_address(7);
    let mut s = VoteAddress::from_raw_address_bytes(raw).unwrap().encode();
    let last = s.pop().unwrap();
    s.push(if last == 'q' { 'p' } else { 'q' });
    assert_eq!(VoteAddress::decode(&s), Err(AddressError::Encoding));
}

#[test]
fn another_prefix_is_refused() {
    let raw = raw_address(7);
    let s = bech32::encode("zother", raw.to_base32(), Variant::Bech32m).unwrap();
    assert_eq!(VoteAddress::decode(&s), Err(AddressError::IncorrectPrefix));
}

#[test]
fn another_length_is_refused() {
    let raw = raw_address(7);
    let s = bech32::encode("zvote", raw[..42].to_vec().to_base32(), Variant::Bech32m).unwrap();
    assert_eq!(VoteAddress::decode(&s), Err(AddressError::IncorrectLength));
    let mut long = raw.to_vec();
    long.push(0);
    let s = bech32::encode("zvote", long.to_base32(), Variant::Bech32m).unwrap();
    assert_eq!(VoteAddress::decode(&s), Err(AddressError::IncorrectLength));
}

#[test]
fn bytes_that_are_no_address_are_refused() {
    let bad = [0xffu8; 43];
    assert!(VoteAddress::from_raw_address_bytes(bad).is_none());
    let s = bech32::encode("zvote", bad.to_base32(), Variant::Bech32m).unwrap();
    assert_eq!(VoteAddress::decode(&s), Err(AddressError::InvalidData));
}

#[test]
fn wrong_padding_is_an_encoding_error() {
    let data: Vec<bech32::u5> =
        [31u8, 31, 31].iter().map(|b| bech32::u5::try_from_u8(*b).unwrap()).collect();
    let s = bech32::encode("zvote", data, Variant::Bech32m).unwrap();
    assert_eq!(VoteAddress::decode(&s), Err(AddressError::Encoding));
}

#[test]
fn the_parts_are_checked_in_order() {
    let raw = raw_address(7);
    let data: Vec<u8> = raw.to_base32().iter().map(|v| v.to_u8()).collect();
    let a = VoteAddress::from_parts(&"zvote".to_string(), &data).unwrap();
    assert_eq!(a.to_raw_address_bytes(), raw);
    assert_eq!(
        VoteAddress::from_parts(&"zvot".to_string(), &data),
        Err(AddressError::IncorrectPrefix)
    );
    assert_eq!(
        VoteAddress::from_parts(&"ZVOTE".to_string(), &data),
        Err(AddressError::IncorrectPrefix)
    );
    assert_eq!(VoteAddress::from_bytes(&raw.to_vec()), Ok(a));
    assert_eq!(VoteAddress::from_bytes(&vec![1, 2, 3]), Err(AddressError::IncorrectLength));
    assert_eq!(VoteAddress::from_bytes(&vec![0xff; 43]), Err(AddressError::InvalidData));
}

#[test]
fn each_error_has_its_message() {
    assert_eq!(AddressError::Encoding.message(), "Invalid Address (incorrect encoding)");
    assert_eq!(AddressError::IncorrectPrefix.message(), "Invalid Address (incorrect prefix)");
    assert_eq!(AddressError::IncorrectLength.message(), "Invalid Address (incorrect length)");
    assert_eq!(AddressError::InvalidData.message(), "Invalid Address (invalid data)");
}

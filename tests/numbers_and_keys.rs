use execution_engine::host::{check_access, AccessError};
use execution_engine::key::{AccessRights, Key};
use execution_engine::uint::{U256, U512};
use execution_engine::validator::{addr_to_hex, pos_validator_key, pos_validator_to_tuple, PublicKey};

#[test]
fn u512_decimal_round_trip() {
    let v = U512::from_dec_str("1000000000").unwrap();
    assert_eq!(v, U512::from_u64(1_000_000_000));
    assert_eq!(v.to_dec_string(), "1000000000");
    assert_eq!(U512::zero().to_dec_string(), "0");
}

#[test]
fn u512_decimal_edges() {
    assert_eq!(U512::from_dec_str(""), Some(U512::zero()));
    assert!(U512::from_dec_str("12a").is_none());
    assert!(U512::from_dec_str("-1").is_none());
    let max = U512::max_value().to_dec_string();
    assert_eq!(max.len(), 155);
    assert_eq!(U512::from_dec_str(&max), Some(U512::max_value()));
    let mut over = max.clone();
    over.push('0');
    assert!(U512::from_dec_str(&over).is_none());
}

#[test]
fn u512_saturating_add() {
    let max = U512::max_value();
    assert_eq!(max.saturating_add(&max), U512::max_value());
    assert_eq!(U512::from_u64(2).saturating_add(&U512::from_u64(3)), U512::from_u64(5));
    let big = U512::from_u64(u64::MAX).saturating_add(&U512::from_u64(1));
    assert_eq!(big.to_dec_string(), "18446744073709551616");
}

#[test]
fn u256_saturating_add() {
    let max = U256::max_value();
    assert_eq!(max.saturating_add(&U256::from_u64(1)), U256::max_value());
    assert_eq!(U256::from_u64(7).saturating_add(&U256::from_u64(8)), U256::from_u64(15));
}

#[test]
fn hex_of_address() {
    let mut a = [0u8; 32];
    a[0] = 0xab;
    a[31] = 0x01;
    let h = addr_to_hex(&a);
    assert_eq!(h.len(), 64);
    assert!(h.starts_with("ab00"));
    assert!(h.ends_with("0001"));
}

#[test]
fn validator_key_format() {
    let pk = PublicKey::new([0x1f; 32]);
    let key = pos_validator_key(pk, U512::from_u64(1000));
    let expected = format!("v_{}_1000", "1f".repeat(32));
    assert_eq!(key, expected);
}

#[test]
fn validator_key_round_trip() {
    let mut raw = [0u8; 32];
    for (i, b) in raw.iter_mut().enumerate() {
        *b = (i as u8) * 7;
    }
    let stakes = U512::from_dec_str("123456789012345678901234567890").unwrap();
    let key = pos_validator_key(PublicKey::new(raw), U512::from_dec_str("123456789012345678901234567890").unwrap());
    let (pk, bond) = pos_validator_to_tuple(&key).unwrap();
    assert_eq!(pk.value(), raw);
    assert_eq!(bond, stakes);
}

#[test]
fn validator_key_rejects() {
    let hex = "ab".repeat(32);
    assert!(pos_validator_to_tuple(&format!("x_{}_5", hex)).is_none());
    assert!(pos_validator_to_tuple(&format!("v_{}", hex)).is_none());
    assert!(pos_validator_to_tuple("v_abcd_5").is_none());
    assert!(pos_validator_to_tuple(&format!("v_{}zz_5", "ab".repeat(31))).is_none());
    assert!(pos_validator_to_tuple(&format!("v_{}_5x", hex)).is_none());
    // Upper case digits, and trailing segments, are accepted.
    let (pk, bond) = pos_validator_to_tuple(&format!("v_{}_42_extra", "AB".repeat(32))).unwrap();
    assert_eq!(pk.value(), [0xab; 32]);
    assert_eq!(bond, U512::from_u64(42));
}

#[test]
fn key_wire_round_trip() {
    let keys = [
        Key::Account([3; 32]),
        Key::Hash([4; 32]),
        Key::URef([5; 32], AccessRights { read: true, write: false, add: true }),
    ];
    for k in keys.iter() {
        let b = k.to_bytes();
        assert_eq!(Key::from_bytes(&b), Some(*k));
    }
    let b = Key::URef([5; 32], AccessRights { read: true, write: false, add: true }).to_bytes();
    assert_eq!(b.len(), 34);
    assert_eq!(b[0], 2);
    assert_eq!(b[33], 0b101);
    assert_eq!(Key::from_bytes(&[9u8; 33]), None);
    let mut bad = b.clone();
    bad[33] = 8;
    assert_eq!(Key::from_bytes(&bad), None);
}

#[test]
fn access_rights_contains() {
    let all = AccessRights::read_add_write();
    let read = AccessRights { read: true, write: false, add: false };
    assert!(all.contains(&read));
    assert!(!read.contains(&all));
    assert_eq!(AccessRights::from_bits(7), Some(all));
    assert_eq!(AccessRights::from_bits(8), None);
}

#[test]
fn access_checks_on_references() {
    let read = AccessRights { read: true, write: false, add: false };
    let write = AccessRights { read: false, write: true, add: false };
    let granted = vec![Key::Account([1; 32]), Key::URef([7; 32], read)];
    assert_eq!(check_access(&granted, &Key::URef([7; 32], read), read), Ok(()));
    assert_eq!(
        check_access(&granted, &Key::URef([7; 32], AccessRights::read_add_write()), write),
        Err(AccessError::InvalidAccessRights)
    );
    assert_eq!(
        check_access(&granted, &Key::URef([8; 32], AccessRights::read_add_write()), read),
        Err(AccessError::ForgedReference)
    );
    assert_eq!(check_access(&vec![], &Key::Hash([8; 32]), write), Ok(()));
}

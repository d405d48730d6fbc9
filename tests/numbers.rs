use polyjuice::address::{BlockNumber, EthAddress};
use polyjuice::error::Error;
use polyjuice::hex::serialize_u64;
use polyjuice::num::{bytes_to_u256, bytes_to_u64, capacity_to_wei, wei_to_capacity, U256};

fn u256_from_u128(v: u128) -> U256 {
    let mut le_bytes = [0u8; 32];
    le_bytes[..16].copy_from_slice(&v.to_le_bytes());
    U256 { le_bytes }
}

#[test]
fn serialize_u64_writes_lower_case_hex() {
    assert_eq!(serialize_u64(0), "0x0");
    assert_eq!(serialize_u64(255), "0xff");
    assert_eq!(serialize_u64(0x1234abcd), "0x1234abcd");
    assert_eq!(serialize_u64(u64::MAX), "0xffffffffffffffff");
}

#[test]
fn block_number_parses_latest_and_hex() {
    assert_eq!(BlockNumber::parse("latest").unwrap(), BlockNumber::Latest);
    assert_eq!(BlockNumber::parse("0x1a").unwrap(), BlockNumber::Number(26));
    assert_eq!(BlockNumber::parse("0xFF").unwrap(), BlockNumber::Number(255));
    assert_eq!(BlockNumber::parse("0xffffffffffffffff").unwrap(), BlockNumber::Number(u64::MAX));
}

#[test]
fn block_number_rejects_leading_zero_and_garbage() {
    assert!(matches!(BlockNumber::parse("0x0"), Err(Error::MalformedData(_))));
    assert!(matches!(BlockNumber::parse("0x01"), Err(Error::MalformedData(_))));
    assert!(matches!(BlockNumber::parse("0x"), Err(Error::MalformedData(_))));
    assert!(matches!(BlockNumber::parse("12"), Err(Error::MalformedData(_))));
    assert!(matches!(BlockNumber::parse("0xzz"), Err(Error::MalformedData(_))));
    assert!(matches!(BlockNumber::parse("0x10000000000000000"), Err(Error::MalformedData(_))));
    assert!(matches!(BlockNumber::parse("Latest"), Err(Error::MalformedData(_))));
    assert!(matches!(BlockNumber::parse("0x+1"), Err(Error::MalformedData(_))));
    assert!(matches!(BlockNumber::parse("0x+0"), Err(Error::MalformedData(_))));
}

#[test]
fn block_number_default_is_latest() {
    assert_eq!(BlockNumber::parse_with_default(&None).unwrap(), BlockNumber::Latest);
    assert_eq!(
        BlockNumber::parse_with_default(&Some("0x5".to_string())).unwrap(),
        BlockNumber::Number(5)
    );
}

#[test]
fn address_parses_forty_hex_digits() {
    let a = EthAddress::parse("0x00112233445566778899aabbccddeeffAABBCCDD").unwrap();
    assert_eq!(
        a.0,
        vec![0x00, 0x11, 0x22, 0x33, 0x44, 0x55, 0x66, 0x77, 0x88, 0x99, 0xaa, 0xbb, 0xcc, 0xdd, 0xee, 0xff, 0xaa, 0xbb, 0xcc, 0xdd]
    );
}

#[test]
fn address_rejects_bad_text() {
    assert!(matches!(EthAddress::parse("0x0011"), Err(Error::MalformedData(_))));
    assert!(matches!(
        EthAddress::parse("1x00112233445566778899aabbccddeeffaabbccdd"),
        Err(Error::MalformedData(_))
    ));
    assert!(matches!(
        EthAddress::parse("0x00112233445566778899aabbccddeeffaabbccdg"),
        Err(Error::MalformedData(_))
    ));
}

#[test]
fn default_address_is_twenty_zero_bytes() {
    assert_eq!(EthAddress::default().0, vec![0u8; 20]);
}

#[test]
fn bytes_to_u64_reads_big_endian() {
    assert_eq!(bytes_to_u64(&[]).unwrap(), 0);
    assert_eq!(bytes_to_u64(&[0x01, 0x02]).unwrap(), 0x0102);
    assert_eq!(bytes_to_u64(&[0xff; 8]).unwrap(), u64::MAX);
    assert!(matches!(bytes_to_u64(&[0; 9]), Err(Error::MalformedData(_))));
}

#[test]
fn bytes_to_u256_reads_big_endian() {
    let v = bytes_to_u256(&[0x01, 0x00]).unwrap();
    assert_eq!(v, u256_from_u128(256));
    assert!(bytes_to_u256(&[0xff; 32]).is_ok());
    assert!(matches!(bytes_to_u256(&[0; 33]), Err(Error::MalformedData(_))));
}

#[test]
fn wei_to_capacity_truncates() {
    assert_eq!(wei_to_capacity(&u256_from_u128(5 * 10_000_000_000 + 9)).unwrap(), 5);
    assert_eq!(wei_to_capacity(&u256_from_u128(9_999_999_999)).unwrap(), 0);
}

#[test]
fn wei_to_capacity_rejects_values_beyond_u64() {
    let too_big = u256_from_u128((u64::MAX as u128 + 1) * 10_000_000_000);
    assert!(matches!(wei_to_capacity(&too_big), Err(Error::MalformedData(_))));
    let largest = u256_from_u128(u64::MAX as u128 * 10_000_000_000 + 9_999_999_999);
    assert_eq!(wei_to_capacity(&largest).unwrap(), u64::MAX);
}

#[test]
fn capacity_wei_round_trip() {
    for c in [0u64, 1, 50, 12_345_678_901, u64::MAX] {
        let w = capacity_to_wei(c).unwrap();
        assert_eq!(w, u256_from_u128(c as u128 * 10_000_000_000));
        assert_eq!(wei_to_capacity(&w).unwrap(), c);
    }
}

#[test]
fn u256_checked_arithmetic() {
    let a = u256_from_u128(1 << 100);
    assert_eq!(a.checked_mul(&u256_from_u128(4)).unwrap(), u256_from_u128(1 << 102));
    let big = U256 { le_bytes: [0xff; 32] };
    assert!(big.checked_add(&u256_from_u128(1)).is_none());
    assert!(big.checked_mul(&u256_from_u128(2)).is_none());
    assert_eq!(U256::zero(), u256_from_u128(0));
}

#[test]
fn number_errors_carry_their_messages() {
    let too_big = u256_from_u128((u64::MAX as u128 + 1) * 10_000_000_000);
    assert!(matches!(wei_to_capacity(&too_big), Err(Error::MalformedData(m)) if m == "Exceeds maximum range of capacity!"));
    assert!(matches!(BlockNumber::parse("0x0"), Err(Error::MalformedData(m)) if m == "Invalid block number"));
    assert!(matches!(BlockNumber::parse_with_default(&Some("x".to_string())), Err(Error::MalformedData(m)) if m == "Invalid block number"));
}

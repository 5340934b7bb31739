use pool_loader::primitives::{Address, B256, U256};

#[test]
fn word_from_big_endian_bytes_matches_the_limbs() {
    let mut bytes = [0u8; 32];
    bytes[31] = 0x2a;
    bytes[23] = 0x01;
    bytes[0] = 0x80;
    let word = U256::from_be_bytes(bytes);
    assert_eq!(word.into_limbs(), [0x2a, 0x01, 0, 0x8000_0000_0000_0000]);
    let same = alloy::primitives::U256::from_be_bytes(bytes);
    assert_eq!(word.into_limbs(), same.into_limbs());
}

#[test]
fn repeat_byte_fills_every_position() {
    assert_eq!(Address::repeat_byte(7).0, [7u8; 20]);
    assert_eq!(B256::repeat_byte(9).0, [9u8; 32]);
    assert_eq!(Address::zero().0, [0u8; 20]);
    assert_eq!(U256::from(5u64), U256::from_limbs([5, 0, 0, 0]));
}

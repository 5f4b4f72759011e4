use ctb_crypt::nonce::increase_bytes_le;

#[test]
fn increase_bytes_le_carries_into_next_byte() {
    let mut nonce = vec![0xffu8, 0x00, 0x05];
    increase_bytes_le(&mut nonce);
    assert_eq!(nonce, vec![0x00, 0x01, 0x05]);
}

#[test]
fn increase_bytes_le_wraps_to_zero() {
    let mut nonce = vec![0xffu8; 12];
    increase_bytes_le(&mut nonce);
    assert_eq!(nonce, vec![0u8; 12]);
}

#[test]
fn increase_bytes_le_from_zero() {
    let mut nonce = vec![0u8; 12];
    increase_bytes_le(&mut nonce);
    let mut expected = vec![0u8; 12];
    expected[0] = 1;
    assert_eq!(nonce, expected);
}

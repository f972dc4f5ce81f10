use primitive_types::{H160, H256, H512};

#[test]
fn h160_embeds_into_h256_low_bytes() {
    let mut b = [0u8; 20];
    for (i, e) in b.iter_mut().enumerate() {
        *e = (i + 1) as u8;
    }
    let h = H160::from_bytes(b);
    let wide = H256::from_h160(&h);
    let mut expected = [0u8; 32];
    expected[12..32].copy_from_slice(&b);
    assert_eq!(wide, H256::from_bytes(expected));
}

#[test]
fn bridge_roundtrip_h160() {
    let mut b = [0u8; 20];
    for (i, e) in b.iter_mut().enumerate() {
        *e = (0xa0 + i) as u8;
    }
    let h = H160::from_bytes(b);
    assert_eq!(H160::from_h256(&H256::from_h160(&h)), h);
}

#[test]
fn truncation_drops_high_bytes() {
    let mut b = [0u8; 32];
    for (i, e) in b.iter_mut().enumerate() {
        *e = i as u8;
    }
    let h = H256::from_bytes(b);
    let narrow = H160::from_h256(&h);
    let mut expected = [0u8; 20];
    expected.copy_from_slice(&b[12..32]);
    assert_eq!(narrow, H160::from_bytes(expected));
}

#[test]
fn truncation_loses_nonzero_high_bytes() {
    // The top 12 bytes are nonzero: embedding the truncation back does not
    // reproduce the original, by design.
    let mut b = [0u8; 32];
    b[0] = 0xaa;
    b[31] = 0x55;
    let h = H256::from_bytes(b);
    let back = H256::from_h160(&H160::from_h256(&h));
    assert_ne!(back, h);
}

#[test]
fn byte_types_compare_bytewise() {
    let a = H512::from_bytes([7u8; 64]);
    let b = H512::from_bytes([7u8; 64]);
    let c = H512::from_bytes([8u8; 64]);
    assert_eq!(a, b);
    assert_ne!(a, c);
    let x = H160::from_bytes([1u8; 20]);
    let y = H160::from_bytes([2u8; 20]);
    assert!(x < y);
}

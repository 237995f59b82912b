use fast_aes_break::power::{leakage_vector, power_model, predict, sbox};

#[test]
fn power_model_counts_bits() {
    assert_eq!(power_model(0x00), 0);
    assert_eq!(power_model(0xff), 8);
    assert_eq!(power_model(0x63), 4);
    assert_eq!(power_model(0x80), 1);
    for b in 0..=255u8 {
        assert_eq!(power_model(b), b.count_ones() as usize);
    }
}

#[test]
fn substitution_table() {
    assert_eq!(sbox(0x00), 0x63);
    assert_eq!(sbox(0x01), 0x7c);
    assert_eq!(sbox(0x53), 0xed);
    assert_eq!(sbox(0xff), 0x16);
}

#[test]
fn prediction() {
    assert_eq!(predict(0x00, 0x00), 4);
    assert_eq!(predict(0x12, 0x12), 4);
    assert_eq!(predict(0x52, 0x00), 0);
    assert_eq!(predict(0x00, 0xff), 3);
}

#[test]
fn leakage_of_a_column() {
    let v = leakage_vector(&vec![0x00, 0x52, 0xff, 0x01], 0x00);
    assert_eq!(v, vec![4, 0, 3, 5]);
    assert!(leakage_vector(&vec![], 7).is_empty());
}

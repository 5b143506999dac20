use oro_link::entropy::{fresh_number, fresh_seed, number_from};

#[test]
fn a_number_is_spelled_least_significant_byte_first() {
    let mut bytes = [0u8; 32];
    bytes[0] = 0x01;
    assert_eq!(number_from(&bytes), 1);
    bytes[1] = 0x02;
    assert_eq!(number_from(&bytes), 0x0201);
    for (i, byte) in bytes.iter_mut().enumerate() {
        *byte = i as u8 + 1;
    }
    assert_eq!(number_from(&bytes), 0x0807_0605_0403_0201);
    assert_eq!(number_from(&[0xFF; 32]), u64::MAX);
    assert_eq!(number_from(&[0; 32]), 0);
}

#[test]
fn only_the_first_eight_bytes_count() {
    let mut bytes = [0u8; 32];
    bytes[8] = 0xFF;
    bytes[31] = 0xFF;
    assert_eq!(number_from(&bytes), 0);
}

#[test]
fn the_operating_system_gives_randomness() {
    assert!(fresh_seed().is_some());
    assert!(fresh_number().is_some());
}

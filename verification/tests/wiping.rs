use password_kvstore::{
    chunk_padded, discharge, drop, rem, rev, scrub_with_byte, xor, xor_ip, zerofill, Data,
};

#[test]
fn test_rem() {
    let data = vec![0x01, 0x10, 0xF1, 0x61];
    assert_eq!(rem(&data, 6), 2);
    let data = vec![0x01, 0x10, 0xF1, 0x61, 0x01, 0x10, 0xF1, 0x61];
    assert_eq!(rem(&data, 6), 2);
    let data = vec![];
    assert_eq!(rem(&data, 6), 0);
}

#[test]
fn rem_of_equal_lengths_is_zero() {
    assert_eq!(rem(&[1, 2, 3], 3), 0);
    assert_eq!(rem(&[], 0), 0);
}

#[test]
fn chunk_padded_pads_then_cuts() {
    // four bytes, chunks of six: 6 % 4 = 2 bytes of padding, one chunk
    assert_eq!(chunk_padded(&[1, 2, 3, 4], 6, 0xAA), vec![vec![1, 2, 3, 4, 0xAA, 0xAA]]);
    // eight bytes, chunks of six: 8 % 6 = 2 bytes of padding, a short last chunk
    assert_eq!(
        chunk_padded(&[1, 2, 3, 4, 5, 6, 7, 8], 6, 0),
        vec![vec![1, 2, 3, 4, 5, 6], vec![7, 8, 0, 0]]
    );
    assert_eq!(chunk_padded(&[], 6, 0), Vec::<Vec<u8>>::new());
    assert_eq!(chunk_padded(&[1, 2, 3], 3, 9), vec![vec![1, 2, 3]]);
    assert_eq!(chunk_padded(&[1, 2], 1, 9), vec![vec![1], vec![2]]);
}

#[test]
fn destroy_leaves_zeros_whatever_was_there() {
    for start in [vec![], vec![0u8], vec![0xFF; 17], (0..=255u8).collect::<Vec<u8>>()] {
        let len = start.len();
        let mut bytes = start.clone();
        drop(&mut bytes);
        assert_eq!(bytes, vec![0u8; len]);
        let mut data = Data::new(start);
        data.destroy();
        assert_eq!(data.to_vec(), vec![0u8; len]);
    }
}

#[test]
fn overwrite_passes() {
    let mut bytes = vec![1u8, 2, 3];
    scrub_with_byte(&mut bytes, 0x7);
    assert_eq!(bytes, vec![7, 7, 7]);
    zerofill(&mut bytes);
    assert_eq!(bytes, vec![0, 0, 0]);
    discharge(&mut bytes);
    assert_eq!(bytes, vec![1, 1, 1]);
    let mut bytes = vec![0x00u8, 0xFF, 0x0F];
    rev(&mut bytes);
    assert_eq!(bytes, vec![0xFF, 0x00, 0xF0]);
    rev(&mut bytes);
    assert_eq!(bytes, vec![0x00, 0xFF, 0x0F]);
}

#[test]
fn xor_stops_at_the_shorter_operand() {
    let a = vec![0b1100u8, 0b1010, 0xFF, 0x01];
    let b = vec![0b1010u8, 0b1010];
    assert_eq!(xor(&a, &b), vec![0b0110, 0]);
    assert_eq!(xor(&b, &a), vec![0b0110, 0]);
    assert_eq!(xor(&a, &vec![]), Vec::<u8>::new());
    let mut long = a.clone();
    xor_ip(&mut long, &b);
    assert_eq!(long, vec![0b0110, 0, 0xFF, 0x01]);
    let mut short = b.clone();
    xor_ip(&mut short, &a);
    assert_eq!(short, vec![0b0110, 0]);
}

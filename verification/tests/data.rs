use password_kvstore::{Data, DataIterator, DataSeq, Error, PlainBytes};
use std::cmp::Ordering;

#[test]
fn hex_with_separator_and_hint() {
    let data = Data::new(vec![0x0a, 0xff]);
    assert_eq!(data.to_hex(",", true), "0x0a,0xff");
    assert_eq!(data.to_hex("", false), "0aff");
    assert_eq!(data.to_hex(", ", false), "0a, ff");
    assert_eq!(Data::new(vec![]).to_hex(",", true), "");
    assert_eq!(Data::new(vec![0]).to_hex(",", true), "0x00");
    assert_eq!(data.to_string(), "0aff");
}

#[test]
fn layout_as_hex_has_the_length_in_front() {
    let data = Data::new(vec![0x0a, 0xff]);
    assert_eq!(PlainBytes::to_hex(&data), "0x02000000000000000aff");
}

#[test]
fn from_hex_reads_both_cases() {
    assert_eq!(Data::from_hex("0aFf").unwrap().to_vec(), vec![0x0a, 0xff]);
    assert_eq!(Data::from_hex("").unwrap().to_vec(), Vec::<u8>::new());
    assert!(matches!(Data::from_hex("abc"), Err(Error::HexDecodeError(_))));
    assert!(matches!(Data::from_hex("zz"), Err(Error::HexDecodeError(_))));
    assert!(matches!(Data::from_hex("0x0a"), Err(Error::HexDecodeError(_))));
    let data = Data::new((0..=255u8).collect());
    assert_eq!(Data::from_hex(&data.to_hex("", false)).unwrap(), data);
}

#[test]
fn what_to_hex_writes_is_read_with_the_same_separator() {
    let buffers = [vec![], vec![0x0au8], vec![0x0a, 0xff], (0..=255u8).collect::<Vec<u8>>()];
    for bytes in buffers {
        let data = Data::new(bytes);
        for sep in ["", ",", ", ", "0x", "ab", "é-"] {
            for hint in [false, true] {
                let text = data.to_hex(sep, hint);
                assert_eq!(Data::from_hex_with(&text, sep, hint), Ok(data.clone()));
            }
        }
    }
    assert_eq!(Data::from_hex_with("0x0A,0xFf", ",", true).unwrap().to_vec(), vec![0x0a, 0xff]);
    assert_eq!(Data::from_hex_with("0aff", "", false), Data::from_hex("0aff"));
    for (text, sep, hint) in [
        ("0x0a,0xff", ",", false),
        ("0a,ff", ",", true),
        ("0a,ff,", ",", false),
        (",0a", ",", false),
        ("0a;ff", ",", false),
        ("0a,,ff", ",", false),
        ("0a,f", ",", false),
        ("0X0a", "", true),
        ("0g", "", false),
        ("a", "", false),
    ] {
        assert!(matches!(Data::from_hex_with(text, sep, hint), Err(Error::HexDecodeError(_))));
    }
}

#[test]
fn equality_and_order_go_by_content() {
    assert_eq!(Data::new(vec![1, 2]), Data::new(vec![1, 2]));
    assert_ne!(Data::new(vec![1, 2]), Data::new(vec![1, 3]));
    assert_ne!(Data::new(vec![1, 2]), Data::new(vec![1, 2, 0]));
    assert!(Data::new(vec![1, 2]) < Data::new(vec![1, 3]));
    assert!(Data::new(vec![1, 2]) < Data::new(vec![1, 2, 0]));
    assert!(Data::new(vec![2]) > Data::new(vec![1, 255]));
    assert!(Data::new(vec![]) < Data::new(vec![0]));
    assert_eq!(
        Data::new(vec![5]).partial_cmp(&Data::new(vec![5])),
        Some(Ordering::Equal)
    );
    assert_eq!(Data::new(vec![1, 9]).cmp(&Data::new(vec![2])), Ordering::Less);
}

#[test]
fn positional_operations() {
    let mut data = Data::new(vec![1, 2, 3]);
    assert_eq!(data.len(), 3);
    assert!(!data.is_empty());
    assert_eq!(data.get(1), Some(2));
    assert_eq!(data.get(3), None);
    data.push(4);
    assert_eq!(data.to_bytes(), vec![1, 2, 3, 4]);
    assert_eq!(data.pop(), Some(4));
    assert_eq!(*data.index(0), 1);
    *data.index_mut(0) = 9;
    assert_eq!(data.to_vec(), vec![9, 2, 3]);
    assert!(data.contains(9));
    assert!(!data.contains(1));
    data.extend(vec![7u8, 8].into_iter());
    assert_eq!(data.to_vec(), vec![9, 2, 3, 7, 8]);
    assert_eq!(data.extended(vec![1u8].into_iter()).to_vec(), vec![9, 2, 3, 7, 8, 1]);
    let mut empty = Data::new(vec![]);
    assert_eq!(empty.pop(), None);
    assert!(empty.is_empty());
}

#[test]
fn iteration_hands_out_every_byte_once() {
    let data = Data::new(vec![5, 6]);
    let mut it = data.iter();
    assert_eq!(it.next(), Some(5));
    assert_eq!(it.next(), Some(6));
    assert_eq!(it.next(), None);
    assert_eq!(it.next(), None);
    let mut again = DataIterator::new(&data);
    assert_eq!(again.next(), Some(5));
}

#[test]
fn filter_map_and_then() {
    let data = Data::new(vec![1, 2, 3, 4, 5]);
    assert_eq!(data.clone().filter(|b| *b % 2 == 1).to_vec(), vec![1, 3, 5]);
    assert_eq!(data.clone().map(|b| b.wrapping_mul(2)).to_vec(), vec![2, 4, 6, 8, 10]);
    assert_eq!(data.then(|d| d.len()), Some(5));
    assert_eq!(Data::new(vec![]).then(|d| d.len()), None);
}

#[test]
fn set_operations_collapse_duplicates() {
    let a = Data::new(vec![3, 1, 3, 2, 1]);
    let b = Data::new(vec![2, 2, 9]);
    assert_eq!(a.difference(&b).to_vec(), vec![1, 3]);
    assert_eq!(b.difference(&a).to_vec(), vec![9]);
    assert_eq!(a.intersection(&b).to_vec(), vec![2]);
    assert_eq!(a.set().into_iter().collect::<Vec<u8>>(), vec![1, 2, 3]);
    assert_eq!(a.difference(&a).to_vec(), Vec::<u8>::new());
}

#[test]
fn sort_by_is_stable_and_keeps_the_bytes() {
    let mut data = Data::new(vec![0x21, 0x13, 0x11, 0x02, 0x23]);
    // compare by the high nibble only
    data.sort_by(|a, b| (a >> 4).cmp(&(b >> 4)));
    assert_eq!(data.to_vec(), vec![0x02, 0x13, 0x11, 0x21, 0x23]);
    data.sort_by(|a, b| b.cmp(a));
    assert_eq!(data.to_vec(), vec![0x23, 0x21, 0x13, 0x11, 0x02]);
}

#[test]
fn arithmetic_pairs_up_to_the_shorter_operand() {
    let long = || Data::new(vec![10, 20, 30, 40]);
    let short = || Data::new(vec![1, 2]);
    assert_eq!(long().add(short()).to_vec(), vec![11, 22]);
    assert_eq!(short().add(long()).to_vec(), vec![11, 22]);
    assert_eq!(long().sub(short()).to_vec(), vec![9, 18]);
    assert_eq!(long().mul(short()).to_vec(), vec![10, 40]);
    assert_eq!(long().div(short()).to_vec(), vec![10, 10]);
    assert_eq!(long().rem(Data::new(vec![3, 7, 1])).to_vec(), vec![1, 6, 0]);
    assert_eq!(long().shl(short()).to_vec(), vec![20, 80]);
    assert_eq!(Data::new(vec![0xFF]).shl(Data::new(vec![4])).to_vec(), vec![0xF0]);
    assert_eq!(long().shr(short()).to_vec(), vec![5, 5]);
    assert_eq!(long().bitxor(short()).to_vec(), vec![11, 22]);
    assert_eq!(long().add(Data::new(vec![])).to_vec(), Vec::<u8>::new());
    let mut target = long();
    target.bitxor_assign(short());
    assert_eq!(target.to_vec(), vec![11, 22, 30, 40]);
    assert_eq!(Data::new(vec![0x00, 0xF0]).not().to_vec(), vec![0xFF, 0x0F]);
}

#[test]
fn conversions() {
    assert_eq!(Data::from(vec![1u8, 2]).to_vec(), vec![1, 2]);
    assert_eq!(Data::from(&vec![1u8, 2]).to_vec(), vec![1, 2]);
    assert_eq!(Data::from(&[1u8, 2][..]).to_vec(), vec![1, 2]);
    assert_eq!(password_kvstore::data::from::from_iter(vec![1u8, 2].into_iter()).to_vec(), vec![1, 2]);
    let bytes: Vec<u8> = Data::new(vec![3]).into();
    assert_eq!(bytes, vec![3]);
    assert_eq!(Data::from_bytes(&[4, 5]).to_vec(), vec![4, 5]);
}

#[test]
fn random_bytes_have_the_length_asked_for() {
    assert_eq!(Data::randomc(rand::rngs::OsRng, 0).len(), 0);
    let a = Data::randomc(rand::rngs::OsRng, 64);
    let b = Data::randomc(rand::rngs::OsRng, 64);
    assert_eq!(a.len(), 64);
    assert_ne!(a, b);
}

#[test]
fn data_layout_and_compression_round_trip() {
    for bytes in [vec![], vec![0u8], vec![1, 2, 3], vec![7u8; 1000]] {
        let data = Data::new(bytes.clone());
        let plain = data.to_plain_bytes();
        assert_eq!(plain.len(), bytes.len() + 8);
        assert_eq!(plain, bincode::serialize(&bytes).unwrap());
        assert_eq!(Data::from_plain_bytes(&plain).unwrap(), data);
        let packed = data.to_flate_bytes().unwrap();
        assert_eq!(Data::from_deflate_bytes(&packed).unwrap(), data);
    }
    let big = Data::new(vec![7u8; 1000]);
    assert!(big.to_flate_bytes().unwrap().len() < 100);
    assert!(matches!(Data::from_plain_bytes(&[1, 0, 0]), Err(Error::DeserializationError(_))));
    assert!(matches!(
        Data::from_plain_bytes(&[2, 0, 0, 0, 0, 0, 0, 0, 1]),
        Err(Error::DeserializationError(_))
    ));
    assert!(matches!(Data::from_deflate_bytes(&[0xFF, 0xFF, 0xFF]), Err(Error::DecodingError(_))));
    // trailing bytes are ignored
    assert_eq!(
        Data::from_plain_bytes(&[1, 0, 0, 0, 0, 0, 0, 0, 9, 9, 9]).unwrap().to_vec(),
        vec![9]
    );
}

#[test]
fn data_seq() {
    let mut seq = DataSeq::new();
    assert!(seq.is_empty());
    assert_eq!(seq.pop(), None);
    seq.push(Data::new(vec![1]));
    seq.push(Data::new(vec![2, 3]));
    assert_eq!(seq.len(), 2);
    assert_eq!(seq.get(1), Some(Data::new(vec![2, 3])));
    assert_eq!(seq.get(2), None);
    assert_eq!(seq.index(0), &Data::new(vec![1]));
    assert_eq!(seq.to_vec(), vec![Data::new(vec![1]), Data::new(vec![2, 3])]);
    let plain = seq.to_plain_bytes();
    assert_eq!(
        plain,
        bincode::serialize(&(vec![vec![1u8], vec![2u8, 3]], 2u64)).unwrap()
    );
    let data = seq.to_data().unwrap();
    assert_eq!(data.to_vec(), plain);
    assert_eq!(DataSeq::from_data(&data).unwrap(), seq);
    assert!(matches!(
        DataSeq::from_data(&Data::new(vec![1])),
        Err(Error::DeserializationError(_))
    ));
    let mut it = seq.iter();
    assert_eq!(it.next(), Some(Data::new(vec![1])));
    assert_eq!(it.next(), Some(Data::new(vec![2, 3])));
    assert_eq!(it.next(), None);
    let longer = seq.extended(vec![Data::new(vec![4])].into_iter());
    assert_eq!(longer.len(), 3);
    seq.extend(vec![Data::new(vec![4])].into_iter());
    assert_eq!(seq, longer);
    assert_eq!(seq.pop(), Some(Data::new(vec![4])));
    assert_eq!(seq.len(), 2);
}

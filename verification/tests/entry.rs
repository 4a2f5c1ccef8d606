use password_kvstore::{Entry, PlainBytes, Result, Secret};

fn sample() -> Entry {
    let mut entry = Entry::new("entry");
    entry.password = Secret::from("entry");
    entry
}

const PLAIN: [u8; 74] = [
    5, 0, 0, 0, 0, 0, 0, 0, 101, 110, 116, 114, 121, 0, 0, 0, 0, 0, 0, 0, 0, 5, 0, 0, 0, 0, 0, 0, 0,
    101, 110, 116, 114, 121, 5, 0, 0, 0, 0, 0, 0, 0, 0, 0, 0, 0, 0, 0, 0, 0, 0, 0, 0, 0, 0, 0, 0,
    0, 0, 0, 0, 0, 0, 0, 0, 0, 0, 0, 0, 0, 0, 0, 0, 0,
];

const FLATE: [u8; 31] = [
    133, 136, 161, 13, 0, 0, 8, 195, 102, 118, 42, 22, 65, 48, 124, 143, 0, 18, 220, 170, 218, 18,
    131, 121, 70, 173, 131, 127, 94, 40, 26,
];

#[test]
fn test_entry_to_plain_bytes() -> Result<()> {
    let entry = sample();
    assert_eq!(entry.to_plain_bytes(), PLAIN.to_vec());
    Ok(())
}

#[test]
fn test_entry_to_flate_bytes() -> Result<()> {
    let entry = sample();
    assert_eq!(entry.to_flate_bytes()?, FLATE.to_vec());
    Ok(())
}

#[test]
fn test_entry_from_plain_bytes() -> Result<()> {
    let entry_from_bytes = Entry::from_plain_bytes(&PLAIN)?;
    assert_eq!(entry_from_bytes, sample());
    Ok(())
}

#[test]
fn test_entry_from_flate_bytes() -> Result<()> {
    let entry_from_bytes = Entry::from_deflate_bytes(&FLATE)?;
    assert_eq!(entry_from_bytes, sample());
    Ok(())
}

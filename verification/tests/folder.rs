use password_kvstore::{
    Chacha20Tool, Entry, Error, Folder, NameMap, PlainBytes, PlainFolder, Secret, SecretBox,
};
use std::collections::BTreeMap;

const HASH: [u8; 42] = [7; 42];
const SALT: [u8; 12] = [9; 12];

#[test]
fn test_folder() -> Result<(), Error> {
    let tool = Chacha20Tool::new("password", 600)?;
    let mut folder = Folder::default();
    let mut entry = folder.add_entry(Entry::from("entry"), &tool, &HASH, &SALT)?;
    entry.password = Secret::from("entry");
    folder.update_entry(&entry, &tool, &HASH, &SALT)?;
    assert_eq!(folder.get("entry", &tool)?, entry);
    folder.delete(entry.name.as_str())?;
    assert_eq!(
        folder.get("entry", &tool),
        Err(Error::NotFound(format!("no entry found with name {:#?}", "entry")))
    );
    Ok(())
}

fn rich_entry(name: &str) -> Entry {
    let mut entry = Entry::new(name);
    entry.username = "someone".to_string();
    entry.password = Secret::from("hunter2");
    entry.description = "a déscription".to_string();
    entry.email = "someone@example.com".to_string();
    entry.urls = vec!["https://example.com".to_string(), String::new()];
    entry.attributes.insert("pin".to_string(), Secret::from("1234"));
    entry.attributes.insert("answer".to_string(), Secret::from(""));
    entry
}

#[test]
fn what_is_added_is_what_is_read() -> Result<(), Error> {
    let tool = Chacha20Tool::new("password", 5)?;
    let mut folder = Folder::default();
    for name in ["b", "a", "", "ä"] {
        let entry = rich_entry(name);
        let kept = folder.add_entry(entry.clone(), &tool, &HASH, &SALT)?;
        assert_eq!(kept, entry);
        assert_eq!(folder.get(name, &tool)?, entry);
    }
    assert_eq!(folder.get("a", &tool)?, rich_entry("a"));
    assert_eq!(folder.entries.len(), 4);
    assert_eq!(folder.nonces.len(), 4);
    assert_eq!(folder.get_nonce("a")?, tool.nonce(&HASH, &SALT)?);
    Ok(())
}

#[test]
fn a_failure_leaves_the_folder_as_it_was() -> Result<(), Error> {
    let tool = Chacha20Tool::new("password", 5)?;
    let mut folder = Folder::default();
    folder.add_entry(Entry::new("entry"), &tool, &HASH, &SALT)?;
    let before = folder.clone();

    assert_eq!(
        folder.add_entry(rich_entry("entry"), &tool, &HASH, &SALT),
        Err(Error::AlreadyExists(format!("entry {:#?} already exists", "entry")))
    );
    assert_eq!(folder, before);
    assert_eq!(
        folder.update_entry(&Entry::new("absent"), &tool, &HASH, &SALT),
        Err(Error::NotFound(format!("no entry found with name {:#?}", "absent")))
    );
    assert_eq!(folder, before);
    assert_eq!(
        folder.get("absent", &tool),
        Err(Error::NotFound(format!("no entry found with name {:#?}", "absent")))
    );
    assert_eq!(
        folder.get_nonce("absent"),
        Err(Error::NotFound(format!("no entry (nonce) found with name {:#?}", "absent")))
    );
    assert_eq!(
        folder.delete("absent"),
        Err(Error::NotFound(format!("no entry found with name {:#?}", "absent")))
    );
    assert_eq!(folder, before);
    assert!(matches!(
        folder.add_entry(Entry::new("other"), &tool, &HASH[..3], &SALT),
        Err(Error::PasswordHashingError(_))
    ));
    assert!(matches!(
        folder.update_entry(&Entry::new("entry"), &tool, &HASH, &[]),
        Err(Error::PasswordHashingError(_))
    ));
    assert_eq!(folder, before);
    assert_eq!(folder.get("entry", &tool)?, Entry::new("entry"));
    Ok(())
}

#[test]
fn delete_takes_box_and_nonce_together() -> Result<(), Error> {
    let tool = Chacha20Tool::new("password", 5)?;
    let mut folder = Folder::default();
    folder.add_entry(Entry::new("entry"), &tool, &HASH, &SALT)?;
    folder.add_entry(Entry::new("other"), &tool, &HASH, &SALT)?;
    assert_eq!(folder.delete("entry"), Ok(true));
    assert!(!folder.entries.contains_key("entry"));
    assert!(!folder.nonces.contains_key("entry"));
    assert!(matches!(folder.get("entry", &tool), Err(Error::NotFound(_))));
    assert_eq!(folder.get("other", &tool)?, Entry::new("other"));
    assert!(matches!(folder.delete("entry"), Err(Error::NotFound(_))));
    Ok(())
}

#[test]
fn a_missing_nonce_counts_as_not_found() -> Result<(), Error> {
    let tool = Chacha20Tool::new("password", 5)?;
    let mut folder = Folder::default();
    folder.add_entry(Entry::new("entry"), &tool, &HASH, &SALT)?;
    folder.nonces.remove("entry");
    assert_eq!(
        folder.get("entry", &tool),
        Err(Error::NotFound(format!("no entry (nonce) found with name {:#?}", "entry")))
    );
    Ok(())
}

#[test]
fn another_password_or_a_changed_box_does_not_read() -> Result<(), Error> {
    let tool = Chacha20Tool::new("password", 5)?;
    let mut folder = Folder::default();
    folder.add_entry(rich_entry("entry"), &tool, &HASH, &SALT)?;
    let other = Chacha20Tool::new("passwor", 5)?;
    assert!(folder.get("entry", &other).is_err());

    let mut sealed: SecretBox = folder.entries.get("entry").unwrap().clone();
    sealed.nonce[0] ^= 1;
    folder.entries.insert("entry".to_string(), sealed);
    assert!(matches!(folder.get("entry", &tool), Err(Error::DecryptionError(_))));
    Ok(())
}

#[test]
fn insert_packed_keeps_any_bytes() -> Result<(), Error> {
    let tool = Chacha20Tool::new("password", 5)?;
    let mut folder = Folder::default();
    // bytes that are no compressed entry are kept, and fail to expand when read
    folder.insert_packed("raw", &[0xFF, 0xFF, 0xFF], &tool, &HASH, &SALT)?;
    assert!(matches!(folder.get("raw", &tool), Err(Error::DecodingError(_))));
    // a compressed value that is no entry fails to be laid out
    let packed = 7usize.to_flate_bytes()?;
    folder.insert_packed("seven", &packed, &tool, &HASH, &SALT)?;
    assert!(matches!(folder.get("seven", &tool), Err(Error::DeserializationError(_))));
    Ok(())
}

fn as_std(map: &NameMap<Secret>) -> BTreeMap<String, (Vec<u8>, u64)> {
    let mut out = BTreeMap::new();
    for i in 0..map.len() {
        let (name, secret) = map.entry_at(i);
        out.insert(name.clone(), (secret.as_bytes(), secret.len() as u64));
    }
    out
}

#[test]
fn the_layout_of_an_entry_is_the_fixed_one() -> Result<(), Error> {
    for entry in [Entry::default(), Entry::new("entry"), rich_entry("näme")] {
        let expected = bincode::serialize(&(
            &entry.name,
            &entry.username,
            (entry.password.as_bytes(), entry.password.len() as u64),
            &entry.description,
            &entry.email,
            &entry.urls,
            as_std(&entry.attributes),
        ))
        .unwrap();
        assert_eq!(entry.to_plain_bytes(), expected);
        assert_eq!(entry.to_bytes(), expected);
        assert_eq!(Entry::from_plain_bytes(&expected)?, entry);
        assert_eq!(Entry::from_bytes(&expected), entry);
        assert_eq!(Entry::from_deflate_bytes(&entry.to_flate_bytes()?)?, entry);
    }
    Ok(())
}

#[test]
fn a_map_is_written_in_ascending_order_and_read_in_any() -> Result<(), Error> {
    let mut map: NameMap<usize> = NameMap::new();
    assert_eq!(map.insert("b".to_string(), 2), None);
    assert_eq!(map.insert("a".to_string(), 1), None);
    assert_eq!(map.insert("ab".to_string(), 3), None);
    assert_eq!(map.insert("b".to_string(), 4), Some(2));
    assert_eq!(map.len(), 3);
    assert_eq!(map.entry_at(0), (&"a".to_string(), &1));
    assert_eq!(map.entry_at(1), (&"ab".to_string(), &3));
    assert_eq!(map.entry_at(2), (&"b".to_string(), &4));
    assert_eq!(map.get("ab"), Some(&3));
    assert_eq!(map.get("c"), None);
    let mut expected = BTreeMap::new();
    expected.insert("a".to_string(), 1u64);
    expected.insert("ab".to_string(), 3u64);
    expected.insert("b".to_string(), 4u64);
    assert_eq!(map.to_plain_bytes(), bincode::serialize(&expected).unwrap());
    assert_eq!(NameMap::<usize>::from_plain_bytes(&map.to_plain_bytes())?, map);

    // the same pairs in another order, with one name twice: the later value stays
    let unordered = bincode::serialize(&vec![("b", 9u64), ("ab", 3), ("a", 1), ("b", 4)]).unwrap();
    assert_eq!(NameMap::<usize>::from_plain_bytes(&unordered)?, map);

    assert_eq!(map.remove("ab"), Some(3));
    assert_eq!(map.remove("ab"), None);
    assert_eq!(map.len(), 2);
    assert!(NameMap::<usize>::new().is_empty());
    assert_eq!(NameMap::<usize>::default().to_plain_bytes(), vec![0u8; 8]);
    Ok(())
}

#[test]
fn a_folder_is_stored_as_one_blob() -> Result<(), Error> {
    let tool = Chacha20Tool::new("password", 5)?;
    let mut folder = Folder::default();
    folder.name = "vault".to_string();
    assert_eq!(Folder::from_deflate_bytes(&Folder::default().to_flate_bytes()?)?, Folder::default());
    folder.add_entry(rich_entry("z"), &tool, &HASH, &SALT)?;
    folder.add_entry(rich_entry("a"), &tool, &HASH, &SALT)?;

    let mut boxes = BTreeMap::new();
    let mut nonces = BTreeMap::new();
    for name in ["a", "z"] {
        let sealed = folder.entries.get(name).unwrap();
        boxes.insert(name.to_string(), (sealed.ciphertext.to_vec(), sealed.key, sealed.nonce));
        nonces.insert(name.to_string(), *folder.nonces.get(name).unwrap());
    }
    let expected = bincode::serialize(&("vault", boxes, nonces)).unwrap();
    assert_eq!(folder.to_plain_bytes(), expected);

    let blob = folder.to_flate_bytes()?;
    let loaded = Folder::from_deflate_bytes(&blob)?;
    assert_eq!(loaded, folder);
    assert_eq!(loaded.get("a", &tool)?, rich_entry("a"));
    assert!(matches!(Folder::from_deflate_bytes(&blob[..blob.len() / 2]), Err(_)));
    assert!(matches!(
        Folder::from_plain_bytes(&expected[..expected.len() - 1]),
        Err(Error::DeserializationError(_))
    ));
    Ok(())
}

#[test]
fn text_that_is_no_utf8_is_not_read() {
    let mut layout = vec![1u8, 0, 0, 0, 0, 0, 0, 0, 0xFF];
    layout.extend_from_slice(&[0u8; 64]);
    assert!(matches!(Entry::from_plain_bytes(&layout), Err(Error::DeserializationError(_))));
    assert!(matches!(String::from_plain_bytes(&[1, 0, 0, 0, 0, 0, 0, 0, 0xC3]), Err(_)));
    assert_eq!(
        String::from_plain_bytes(&[2, 0, 0, 0, 0, 0, 0, 0, 0xC3, 0xA4]).unwrap(),
        "ä".to_string()
    );
}

#[test]
fn the_store_without_a_cipher_has_the_same_transitions() {
    let mut folder = PlainFolder::new("plain");
    assert_eq!(folder.add_entry(rich_entry("entry")), Ok(()));
    assert_eq!(
        folder.add_entry(Entry::new("entry")),
        Err(Error::AlreadyExists(format!("entry {:#?} already exists", "entry")))
    );
    assert_eq!(folder.get("entry"), Ok(&rich_entry("entry")));
    assert!(matches!(folder.update_entry(Entry::new("absent")), Err(Error::NotFound(_))));
    assert_eq!(folder.update_entry(Entry::new("entry")), Ok(()));
    assert_eq!(folder.get("entry"), Ok(&Entry::new("entry")));
    assert!(matches!(folder.get("absent"), Err(Error::NotFound(_))));
    assert!(matches!(folder.delete("absent"), Err(Error::NotFound(_))));
    assert_eq!(folder.delete("entry"), Ok(true));
    assert!(matches!(folder.get("entry"), Err(Error::NotFound(_))));
    assert!(folder.entries.is_empty());
}

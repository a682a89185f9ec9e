use passup::chrome::{decrypt_and_parse_db, decrypt_with_key, derive_key, encrypt_with_key, select_chrome_password, split_blob_exec, update_db, Error, KeyringError, Login};
use passup::config::ProfileTypes;
use passup::model::{DBEntry, Uuid};

const V10_KEY: [u8; 16] = [0xfd, 0x62, 0x1f, 0xe5, 0xa2, 0xb4, 0x02, 0x53, 0x9d, 0xfa, 0x14, 0x7c, 0xa9, 0x27, 0x27, 0x78];
const HUNTER2: [u8; 16] = [0x58, 0x18, 0x6c, 0xf8, 0x8a, 0xbd, 0x51, 0x5a, 0x1c, 0xd3, 0x6a, 0xfe, 0x2d, 0x4d, 0x93, 0xca];

fn blob(tag: &[u8], c: &[u8]) -> Vec<u8> {
    let mut b = tag.to_vec();
    b.extend_from_slice(c);
    b
}

#[test]
fn v10_key_is_the_known_key() {
    let k = derive_key(b"v10", ProfileTypes::ChromeK, &None).unwrap();
    assert_eq!(k, V10_KEY);
}

#[test]
fn known_ciphertext_decrypts() {
    assert_eq!(decrypt_with_key(&V10_KEY, &HUNTER2).unwrap(), "hunter2");
}

#[test]
fn encryption_reproduces_known_ciphertext() {
    let b = encrypt_with_key(&V10_KEY, b"v10", "hunter2");
    assert_eq!(b, blob(b"v10", &HUNTER2));
}

#[test]
fn keyring_profile_without_secret_fails() {
    assert_eq!(derive_key(b"v11", ProfileTypes::ChromeG, &None).unwrap_err(), Error::CredentialError);
    assert!(derive_key(b"v11", ProfileTypes::ChromeG, &Some("secret".to_owned())).is_ok());
}

#[test]
fn other_tags_use_empty_passphrase() {
    let k = derive_key(b"v11", ProfileTypes::ChromeK, &None).unwrap();
    assert_ne!(k, V10_KEY);
    let k2 = derive_key(b"v11", ProfileTypes::ChromeK, &Some("ignored".to_owned())).unwrap();
    assert_eq!(k, k2);
}

#[test]
fn blob_tag_is_lowercased_and_split() {
    let (v, c) = split_blob_exec(&[b'V', b'1', b'0', 1, 2]).unwrap();
    assert_eq!(v, b"v10".to_vec());
    assert_eq!(c, vec![1, 2]);
    assert!(split_blob_exec(&[b'v', b'1']).is_none());
}

#[test]
fn wrong_key_text_fails_the_store() {
    let not_text = [0x9b, 0xe1, 0x75, 0x56, 0xf9, 0x30, 0xf4, 0xc1, 0x2f, 0xa8, 0xd6, 0xc9, 0x81, 0x62, 0x9a, 0x62];
    assert_eq!(decrypt_with_key(&V10_KEY, &not_text).unwrap_err(), Error::StringConversionError);
    // a ciphertext of no whole block decrypts to nothing, which is text
    assert_eq!(decrypt_with_key(&V10_KEY, &[1, 2, 3]).unwrap(), "");
}

#[test]
fn login_rows_are_read() {
    let rows = vec![
        Login { origin_url: "https://a.example".to_owned(), username: "ann".to_owned(), password: blob(b"v10", &HUNTER2) },
        Login { origin_url: "https://b.example".to_owned(), username: "ben".to_owned(), password: vec![] },
    ];
    let es = decrypt_and_parse_db(&rows, ProfileTypes::ChromeK, &None).unwrap();
    assert_eq!(es.len(), 1);
    assert_eq!(es[0].url, "https://a.example");
    assert_eq!(es[0].username, "ann");
    assert_eq!(es[0].old_password, "hunter2");
    assert!(matches!(es[0].uuid, Uuid::Chrome(t) if &t == b"v10"));
}

#[test]
fn rows_without_site_or_username_are_dropped() {
    let rows = vec![
        Login { origin_url: String::new(), username: "ann".to_owned(), password: blob(b"v10", &HUNTER2) },
        Login { origin_url: "https://b.example".to_owned(), username: String::new(), password: vec![b'x'] },
        Login { origin_url: "https://c.example".to_owned(), username: "cid".to_owned(), password: blob(b"V10", &HUNTER2) },
    ];
    let es = decrypt_and_parse_db(&rows, ProfileTypes::ChromeK, &None).unwrap();
    assert_eq!(es.len(), 1);
    assert_eq!(es[0].username, "cid");
}

#[test]
fn short_blob_fails_the_store() {
    let rows = vec![Login { origin_url: "u".to_owned(), username: "n".to_owned(), password: vec![b'v'] }];
    assert_eq!(decrypt_and_parse_db(&rows, ProfileTypes::ChromeK, &None).unwrap_err(), Error::BlobTooShort);
}

#[test]
fn only_rotated_rows_are_updated() {
    let mut a = DBEntry::new("https://a.example".to_owned(), "ann".to_owned(), "old".to_owned(), "hunter2".to_owned());
    a.uuid = Uuid::Chrome(*b"v10");
    let mut b = DBEntry::new("https://b.example".to_owned(), "ben".to_owned(), "same".to_owned(), "same".to_owned());
    b.uuid = Uuid::Chrome(*b"v10");
    let ups = update_db(&vec![a, b], ProfileTypes::ChromeK, &None).unwrap();
    assert_eq!(ups.len(), 1);
    assert_eq!(ups[0].origin_url, "https://a.example");
    assert_eq!(ups[0].username, "ann");
    assert_eq!(ups[0].password, blob(b"v10", &HUNTER2));
}

#[test]
fn each_entry_is_written_under_its_own_tag() {
    let mut a = DBEntry::new("https://a.example".to_owned(), "ann".to_owned(), "old".to_owned(), "hunter2".to_owned());
    a.uuid = Uuid::Chrome(*b"v11");
    let mut b = DBEntry::new("https://b.example".to_owned(), "ben".to_owned(), "old".to_owned(), "hunter2".to_owned());
    b.uuid = Uuid::Chrome(*b"v10");
    let ups = update_db(&vec![a, b], ProfileTypes::ChromeK, &None).unwrap();
    assert_eq!(ups.len(), 2);
    assert_eq!(&ups[0].password[..3], b"v11");
    assert_ne!(ups[0].password[3..].to_vec(), HUNTER2.to_vec());
    assert_eq!(ups[1].password, blob(b"v10", &HUNTER2));
    let untagged = DBEntry::new("u".to_owned(), "n".to_owned(), "o".to_owned(), "x".to_owned());
    assert_eq!(update_db(&vec![untagged], ProfileTypes::ChromeK, &None).unwrap_err(), Error::WrongUuidType);
}

#[test]
fn keyring_secret_is_picked_by_application() {
    let secrets = vec![
        ("{\"application\": \"firefox\"}".to_owned(), b"nope".to_vec()),
        ("{\"application\": \"chromium\"}".to_owned(), b"s3cret".to_vec()),
        ("{\"application\": \"chrome\"}".to_owned(), b"later".to_vec()),
    ];
    assert_eq!(select_chrome_password(&secrets).unwrap(), "s3cret");
    let none = vec![("{\"application\": \"firefox\"}".to_owned(), b"nope".to_vec())];
    assert_eq!(select_chrome_password(&none).unwrap_err(), KeyringError::PasswordNotPresent);
    let empty = vec![("{\"application\": \"chrome\"}".to_owned(), vec![])];
    assert_eq!(select_chrome_password(&empty).unwrap_err(), KeyringError::PasswordNotPresent);
    let bad = vec![("{\"application\": \"chrome\"}".to_owned(), vec![0xff])];
    assert_eq!(select_chrome_password(&bad).unwrap_err(), KeyringError::StringConversionError);
}

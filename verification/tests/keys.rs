use tenebrae::error::StoreError;
use tenebrae::hex::to_hex;
use tenebrae::key::{ApiKey, ApiKeyState, KeyStore};

#[test]
fn hex_of_small_numbers() {
    assert_eq!(to_hex(0), "0");
    assert_eq!(to_hex(9), "9");
    assert_eq!(to_hex(10), "a");
    assert_eq!(to_hex(15), "f");
    assert_eq!(to_hex(16), "10");
    assert_eq!(to_hex(255), "ff");
    assert_eq!(to_hex(4096), "1000");
    assert_eq!(to_hex(0xdead_beef), "deadbeef");
}

#[test]
fn hex_of_large_numbers() {
    assert_eq!(to_hex(u128::MAX), "ffffffffffffffffffffffffffffffff");
    assert_eq!(to_hex(1u128 << 127), "80000000000000000000000000000000");
    assert_eq!(to_hex(0x0123_4567_89ab_cdef_0123_4567_89ab_cdef), "123456789abcdef0123456789abcdef");
}

#[test]
fn hex_agrees_with_the_standard_rendering() {
    let mut n: u128 = 1;
    for _ in 0..200 {
        assert_eq!(to_hex(n), format!("{:x}", n));
        n = n.wrapping_mul(6364136223846793005).wrapping_add(1442695040888963407);
    }
}

#[test]
fn key_made_from_a_token_carries_it_in_hex() {
    let key = ApiKey::with_token("alice", ApiKeyState::Moderator, Some("note".to_string()), 0xabc);
    assert_eq!(key.id, 0);
    assert_eq!(key.name, "alice");
    assert_eq!(key.key, "abc");
    assert_eq!(key.state, ApiKeyState::Moderator);
    assert_eq!(key.message, Some("note".to_string()));
}

#[test]
fn new_key_has_a_random_hex_secret() {
    let key = ApiKey::new("bob", ApiKeyState::Enabled, None);
    assert_eq!(key.id, 0);
    assert_eq!(key.name, "bob");
    assert_eq!(key.state, ApiKeyState::Enabled);
    assert_eq!(key.message, None);
    assert!(!key.key.is_empty());
    assert!(key.key.len() <= 32);
    assert!(key.key.chars().all(|c| c.is_ascii_digit() || ('a'..='f').contains(&c)));
    assert!(key.key == "0" || !key.key.starts_with('0'));
}

#[test]
fn new_keys_differ() {
    let first = ApiKey::new("a", ApiKeyState::Enabled, None);
    let second = ApiKey::new("a", ApiKeyState::Enabled, None);
    let third = ApiKey::new("a", ApiKeyState::Enabled, None);
    assert!(first.key != second.key || second.key != third.key);
}

#[test]
fn persist_assigns_ids_in_order() {
    let mut keys = KeyStore::new();
    let a = ApiKey::with_token("a", ApiKeyState::Enabled, None, 1);
    let b = ApiKey::with_token("b", ApiKeyState::Admin, None, 2);
    assert_eq!(a.persist(&mut keys), Ok(1));
    assert_eq!(b.persist(&mut keys), Ok(1));
    assert_eq!(a.id, 0);
    assert_eq!(ApiKey::get_api_key("1", &keys).unwrap().id, 1);
    assert_eq!(ApiKey::get_api_key("2", &keys).unwrap().id, 2);
    assert_eq!(ApiKey::get_api_key("2", &keys).unwrap().name, "b");
    assert_eq!(ApiKey::get_api_key("2", &keys).unwrap().state, ApiKeyState::Admin);
}

#[test]
fn lookup_of_unknown_key_is_not_found() {
    let mut keys = KeyStore::new();
    assert_eq!(ApiKey::get_api_key("1", &keys).err(), Some(StoreError::NotFound));
    ApiKey::with_token("a", ApiKeyState::Enabled, None, 0x1f).persist(&mut keys).unwrap();
    assert_eq!(ApiKey::get_api_key("1", &keys).err(), Some(StoreError::NotFound));
    assert_eq!(ApiKey::get_api_key("1F", &keys).err(), Some(StoreError::NotFound));
    assert_eq!(ApiKey::get_api_key("", &keys).err(), Some(StoreError::NotFound));
    assert!(ApiKey::get_api_key("1f", &keys).is_ok());
}

#[test]
fn lookup_takes_the_first_of_equal_secrets() {
    let mut keys = KeyStore::new();
    ApiKey::with_token("first", ApiKeyState::Enabled, None, 5).persist(&mut keys).unwrap();
    ApiKey::with_token("second", ApiKeyState::Admin, None, 5).persist(&mut keys).unwrap();
    let found = ApiKey::get_api_key("5", &keys).unwrap();
    assert_eq!(found.id, 1);
    assert_eq!(found.name, "first");
}

#[test]
fn master_keys_are_counted_by_tier() {
    let mut keys = KeyStore::new();
    assert_eq!(ApiKey::count_master_keys(&keys), Ok(0));
    ApiKey::with_token("a", ApiKeyState::Admin, None, 1).persist(&mut keys).unwrap();
    ApiKey::with_token("b", ApiKeyState::Enabled, None, 2).persist(&mut keys).unwrap();
    ApiKey::with_token("c", ApiKeyState::Moderator, None, 3).persist(&mut keys).unwrap();
    ApiKey::with_token("d", ApiKeyState::Admin, None, 4).persist(&mut keys).unwrap();
    ApiKey::with_token("e", ApiKeyState::Disabled, None, 5).persist(&mut keys).unwrap();
    assert_eq!(ApiKey::count_master_keys(&keys), Ok(2));
}

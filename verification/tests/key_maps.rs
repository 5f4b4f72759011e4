use base64::Engine;
use ctb_crypt::error::CtbError;
use ctb_crypt::hash_map_serde::{deserialize, serialize, try_deserialize};
use ctb_crypt::keymap::KeyMap;
use ctb_crypt::serializable::KeyStore;

fn b64(bytes: &[u8]) -> String {
    base64::prelude::BASE64_STANDARD.encode(bytes)
}

#[test]
fn key_map_insert_replaces() {
    let mut m = KeyMap::new();
    m.insert("a".to_string(), vec![1]);
    m.insert("b".to_string(), vec![2]);
    m.insert("a".to_string(), vec![3]);
    assert_eq!(m.get(&"a".to_string()), Some(&vec![3]));
    assert_eq!(m.get(&"b".to_string()), Some(&vec![2]));
    assert_eq!(m.get(&"c".to_string()), None);
    assert_eq!(m.entries().len(), 2);
}

#[test]
fn deserialize_fills_keys() {
    let entries = vec![
        ("short".to_string(), b64(&[1, 2, 3])),
        ("long".to_string(), b64(&[7u8; 40])),
        ("short".to_string(), b64(&[9])),
    ];
    let m = deserialize(entries);
    let mut short = vec![0u8; 32];
    short[0] = 9;
    assert_eq!(m.get(&"short".to_string()), Some(&short));
    assert_eq!(m.get(&"long".to_string()), Some(&vec![7u8; 32]));
}

#[test]
fn try_deserialize_refuses_bad_base64() {
    assert!(try_deserialize(vec![("a".to_string(), "@@".to_string())]).is_none());
    assert!(try_deserialize(vec![("a".to_string(), b64(&[1]))]).is_some());
}

#[test]
fn serialize_writes_base64_values() {
    let mut m = KeyMap::new();
    m.insert("a".to_string(), vec![1, 2]);
    let s = serialize(&m).unwrap();
    assert_eq!(s, vec![("a".to_string(), b64(&[1, 2]))]);
}

#[test]
fn key_store_text_round_trip() {
    let mut m = KeyMap::new();
    m.insert("k1".to_string(), vec![1u8; 32]);
    m.insert("k2".to_string(), vec![2u8; 32]);
    let store = KeyStore { data_key_map: m, key_len: 32 };
    let text = store.serialize().unwrap();
    assert_eq!(text, format!("k1:{}\nk2:{}", b64(&[1u8; 32]), b64(&[2u8; 32])));
    let back = KeyStore::from_serialized(&text, 32).unwrap();
    assert_eq!(back.data_key_map.get(&"k1".to_string()), Some(&vec![1u8; 32]));
    assert_eq!(back.data_key_map.get(&"k2".to_string()), Some(&vec![2u8; 32]));
}

#[test]
fn from_serialized_skips_lines_without_colon_and_trims() {
    let text = format!("no colon here\r\n  id : {} \r\n\n", b64(&[5u8; 4]));
    let store = KeyStore::from_serialized(&text, 4).unwrap();
    assert_eq!(store.data_key_map.get(&"id".to_string()), Some(&vec![5u8; 4]));
    assert_eq!(store.data_key_map.entries().len(), 1);
}

#[test]
fn from_serialized_errors() {
    assert_eq!(KeyStore::from_serialized(&"a:@@".to_string(), 4).err(), Some(CtbError::Base64));
    let text = format!("a:{}", b64(&[1u8; 3]));
    assert_eq!(KeyStore::from_serialized(&text, 4).err(), Some(CtbError::KeySize));
}

#[test]
fn value_may_hold_colons() {
    let text = format!("a:{}", b64(&[0xfbu8, 0xff, 0xbf]));
    let store = KeyStore::from_serialized(&text, 3).unwrap();
    assert_eq!(store.data_key_map.get(&"a".to_string()), Some(&vec![0xfb, 0xff, 0xbf]));
}

#[test]
fn serialize_then_deserialize_gives_map_back() {
    let mut m = KeyMap::new();
    m.insert("first".to_string(), vec![4u8; 32]);
    m.insert("second".to_string(), (0u8..32).collect());
    let back = deserialize(serialize(&m).unwrap());
    assert_eq!(back.entries(), m.entries());
}

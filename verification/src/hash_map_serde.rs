use vstd::prelude::*;
use crate::error::CtbError;
use crate::keymap::{KeyMap, entries_map, keys_unique};
use crate::text::{base64_decode_text, base64_decoding, base64_encode_bytes, base64_encoding, base64_input_fits};

verus! {

/// Length of the keys that a serialized key map holds.
pub const STORED_KEY_LEN: usize = 32;

/// A stored key made from decoded bytes: the bytes fill a zeroed key from the
/// start, and bytes beyond its length are dropped.
pub open spec fn fill_key(bytes: Seq<u8>) -> Seq<u8> {
    Seq::new(STORED_KEY_LEN as nat, |i: int| if i < bytes.len() { bytes[i] } else { 0u8 })
}

/// Every value of the entries is standard base64.
pub open spec fn all_decodable(entries: Seq<(String, String)>) -> bool {
    forall|i: int| 0 <= i < entries.len() ==> (#[trigger] base64_decoding(entries[i].1@)) is Some
}

/// The key map that serialized entries stand for: each key with its value
/// decoded and filled into a key, a later entry for a key winning.
pub open spec fn deserialized_map(entries: Seq<(String, String)>) -> Map<Seq<char>, Seq<u8>>
    decreases entries.len(),
{
    if entries.len() == 0 {
        Map::empty()
    } else {
        deserialized_map(entries.drop_last()).insert(
            entries.last().0@,
            fill_key(base64_decoding(entries.last().1@).unwrap()),
        )
    }
}

/// The entries that a key map is serialized as: each key with its value in
/// base64, in the map's order.
pub open spec fn serialized_entries(entries: Seq<(String, Vec<u8>)>) -> Seq<(Seq<char>, Seq<char>)> {
    entries.map_values(|e: (String, Vec<u8>)| (e.0@, base64_encoding(e.1@)))
}

/// Serialized entries, one for each key map entry in order: the same key,
/// and a value that is the base64 text of the entry's bytes and decodes to them.
pub open spec fn serialized_as(entries: Seq<(String, Vec<u8>)>, texts: Seq<(String, String)>) -> bool {
    &&& texts.len() == entries.len()
    &&& forall|i: int| 0 <= i < entries.len() ==> {
        &&& (#[trigger] texts[i]).0@ == entries[i].0@
        &&& texts[i].1@ == base64_encoding(entries[i].1@)
        &&& base64_decoding(texts[i].1@) == Some(entries[i].1@)
    }
}

/// Every value of the entries is a stored key.
pub open spec fn all_stored_keys(entries: Seq<(String, Vec<u8>)>) -> bool {
    forall|i: int| 0 <= i < entries.len() ==> (#[trigger] entries[i]).1@.len() == STORED_KEY_LEN
}

/// The entries of a key map with their values written as base64.
pub fn serialize(map: &KeyMap) -> (r: Result<Vec<(String, String)>, CtbError>)
    requires
        map.wf(),
    ensures
        (forall|i: int| 0 <= i < map.entry_seq().len() ==> base64_input_fits((#[trigger] map.entry_seq()[i]).1@.len()))
            ==> (r matches Ok(v) && v@.map_values(|e: (String, String)| (e.0@, e.1@)) == serialized_entries(map.entry_seq())
                && serialized_as(map.entry_seq(), v@)),
        !(forall|i: int| 0 <= i < map.entry_seq().len() ==> base64_input_fits((#[trigger] map.entry_seq()[i]).1@.len()))
            ==> r == Err::<Vec<(String, String)>, CtbError>(CtbError::Serialization),
{
    let entries = map.entries();
    let mut converted: Vec<(String, String)> = Vec::new();
    let mut i: usize = 0;
    while i < entries.len()
        invariant
            i <= entries@.len(),
            entries@ == map.entry_seq(),
            converted@.len() == i,
            forall|j: int| 0 <= j < i ==> base64_input_fits((#[trigger] entries@[j]).1@.len()),
            forall|j: int| 0 <= j < i ==> (#[trigger] converted@[j]).0@ == entries@[j].0@
                && converted@[j].1@ == base64_encoding(entries@[j].1@)
                && base64_decoding(converted@[j].1@) == Some(entries@[j].1@),
        decreases entries@.len() - i,
    {
        let text = match base64_encode_bytes(entries[i].1.as_slice()) {
            Ok(t) => t,
            Err(e) => return Err(e),
        };
        converted.push((entries[i].0.clone(), text));
        i = i + 1;
    }
    assert(converted@.map_values(|e: (String, String)| (e.0@, e.1@)) =~= serialized_entries(map.entry_seq()));
    Ok(converted)
}

/// Entries serialized from key map entries stand for the same map, when
/// every value is a stored key.
proof fn lemma_deserialized_entries(entries: Seq<(String, Vec<u8>)>, texts: Seq<(String, String)>)
    requires
        serialized_as(entries, texts),
        all_stored_keys(entries),
    ensures
        all_decodable(texts),
        deserialized_map(texts) == entries_map(entries),
    decreases entries.len(),
{
    if entries.len() > 0 {
        let n = entries.len() - 1;
        assert(serialized_as(entries.drop_last(), texts.drop_last())) by {
            assert forall|i: int| 0 <= i < n implies (#[trigger] texts.drop_last()[i]).0@ == entries.drop_last()[i].0@
                && texts.drop_last()[i].1@ == base64_encoding(entries.drop_last()[i].1@)
                && base64_decoding(texts.drop_last()[i].1@) == Some(entries.drop_last()[i].1@) by {
                assert(texts.drop_last()[i] == texts[i]);
                assert(entries.drop_last()[i] == entries[i]);
            }
        }
        assert(all_stored_keys(entries.drop_last())) by {
            assert forall|i: int| 0 <= i < n implies (#[trigger] entries.drop_last()[i]).1@.len() == STORED_KEY_LEN by {
                assert(entries.drop_last()[i] == entries[i]);
            }
        }
        lemma_deserialized_entries(entries.drop_last(), texts.drop_last());
        assert(texts.last() == texts[n]);
        assert(entries.last() == entries[n]);
        assert(entries[n].1@.len() == STORED_KEY_LEN);
        assert(fill_key(entries[n].1@) =~= entries[n].1@);
        assert forall|i: int| 0 <= i < texts.len() implies (#[trigger] base64_decoding(texts[i].1@)) is Some by {
            if i < n {
                assert(texts.drop_last()[i] == texts[i]);
            }
        }
    }
}

/// Serializing a key map whose values are all stored keys and deserializing
/// the entries gives the same map back.
pub proof fn lemma_serialize_roundtrip(map: &KeyMap, texts: Seq<(String, String)>)
    requires
        map.wf(),
        all_stored_keys(map.entry_seq()),
        serialized_as(map.entry_seq(), texts),
    ensures
        all_decodable(texts),
        deserialized_map(texts) == map@,
{
    map.lemma_entries();
    lemma_deserialized_entries(map.entry_seq(), texts);
}

/// The key map that serialized entries stand for. Every value must be
/// standard base64.
pub fn deserialize(entries: Vec<(String, String)>) -> (r: KeyMap)
    requires
        all_decodable(entries@),
    ensures
        r.wf(),
        r@ == deserialized_map(entries@),
{
    let mut map = KeyMap::new();
    let mut i: usize = 0;
    while i < entries.len()
        invariant
            i <= entries@.len(),
            all_decodable(entries@),
            map.wf(),
            map@ == deserialized_map(entries@.take(i as int)),
        decreases entries@.len() - i,
    {
        assert(base64_decoding(entries@[i as int].1@) is Some);
        let bytes = match base64_decode_text(entries[i].1.as_str()) {
            Ok(b) => b,
            Err(_) => {
                assert(false);
                Vec::new()
            },
        };
        let mut arr: Vec<u8> = vec![0u8; STORED_KEY_LEN];
        let mut j: usize = 0;
        while j < STORED_KEY_LEN && j < bytes.len()
            invariant
                j <= STORED_KEY_LEN,
                arr@.len() == STORED_KEY_LEN,
                forall|k: int| 0 <= k < STORED_KEY_LEN ==> #[trigger] arr@[k] == (if k < j && k < bytes@.len() { bytes@[k] } else { 0u8 }),
            decreases STORED_KEY_LEN - j,
        {
            arr.set(j, bytes[j]);
            j = j + 1;
        }
        assert(arr@ =~= fill_key(bytes@));
        map.insert(entries[i].0.clone(), arr);
        i = i + 1;
        assert(entries@.take(i as int).drop_last() =~= entries@.take(i - 1));
    }
    assert(entries@.take(entries@.len() as int) =~= entries@);
    map
}

/// The key map that serialized entries stand for, or `None` where some value
/// is not standard base64.
pub fn try_deserialize(entries: Vec<(String, String)>) -> (r: Option<KeyMap>)
    ensures
        all_decodable(entries@) ==> (r matches Some(m) && m.wf() && m@ == deserialized_map(entries@)),
        !all_decodable(entries@) ==> r is None,
{
    let mut i: usize = 0;
    while i < entries.len()
        invariant
            i <= entries@.len(),
            forall|j: int| 0 <= j < i ==> (#[trigger] base64_decoding(entries@[j].1@)) is Some,
        decreases entries@.len() - i,
    {
        match base64_decode_text(entries[i].1.as_str()) {
            Ok(_) => {},
            Err(_) => return None,
        }
        i = i + 1;
    }
    Some(deserialize(entries))
}

} // verus!

use vstd::prelude::*;
use vstd::string::*;
use crate::error::CtbError;
use crate::keymap::{KeyMap, entries_map, lemma_entries_map_has};
use crate::text::{base64_decode_text, base64_decoding, base64_encode_bytes, base64_encoding, base64_input_fits, base64_round_trips, is_base64_char, lemma_trim_base64, trim, trim_spec};

verus! {

/// A key store's keys as text: each id with its key in base64.
pub struct SerializableKeyStore {
    pub data_key_map: Vec<(String, String)>,
}

/// The pieces of `s` between newline characters (one more than there are newlines).
pub open spec fn newline_pieces(s: Seq<char>) -> Seq<Seq<char>>
    decreases s.len(),
{
    if s.len() == 0 {
        seq![Seq::<char>::empty()]
    } else {
        let prev = newline_pieces(s.drop_last());
        if s.last() == '\n' {
            prev.push(Seq::empty())
        } else {
            prev.update(prev.len() - 1, prev.last().push(s.last()))
        }
    }
}

/// The lines of `s` as `str::lines` gives them: split at `\n`, a `\r` just
/// before a `\n` dropped, and no empty line after a final `\n`.
pub open spec fn lines_spec(s: Seq<char>) -> Seq<Seq<char>> {
    let raw = newline_pieces(s);
    let body = if raw.last().len() == 0 { raw.drop_last() } else { raw };
    body.map(|i: int, l: Seq<char>| if i < raw.len() - 1 && l.len() > 0 && l.last() == '\r' { l.drop_last() } else { l })
}

/// The index of the first `c` in `s`, if there is one.
pub open spec fn first_index_of(s: Seq<char>, c: char) -> Option<nat>
    decreases s.len(),
{
    if s.len() == 0 {
        None
    } else if s[0] == c {
        Some(0)
    } else {
        match first_index_of(s.drop_first(), c) {
            Some(i) => Some(i + 1),
            None => None,
        }
    }
}

/// `s` split at its first `c` into at most two parts, as `str::splitn(2, c)` gives them.
pub open spec fn splitn2_spec(s: Seq<char>, c: char) -> Seq<Seq<char>> {
    match first_index_of(s, c) {
        Some(i) => seq![s.take(i as int), s.skip(i as int + 1)],
        None => seq![s],
    }
}

/// Calls `str::lines` and collects the lines. Trusted: the lines are those
/// that std documents (split at `\n` or `\r\n`, no empty line after a final
/// line ending).
#[verifier::external_body]
fn text_lines(s: &str) -> (r: Vec<String>)
    ensures
        r@.len() == lines_spec(s@).len(),
        forall|i: int| 0 <= i < r@.len() ==> (#[trigger] r@[i])@ == lines_spec(s@)[i],
{
    s.lines().map(|l| l.to_string()).collect()
}

/// Calls `str::splitn(2, c)` and collects the parts. Trusted: the text before
/// the first `c` and the rest, or the whole text where there is no `c`.
#[verifier::external_body]
fn text_splitn2(s: &str, c: char) -> (r: Vec<String>)
    ensures
        r@.len() == splitn2_spec(s@, c).len(),
        forall|i: int| 0 <= i < r@.len() ==> (#[trigger] r@[i])@ == splitn2_spec(s@, c)[i],
{
    s.splitn(2, c).map(|p| p.to_string()).collect()
}

/// One line of a serialized key store: nothing for a line without `:`,
/// otherwise the trimmed id and the key that the trimmed text after the
/// first `:` decodes to, which must have the store's key length.
pub open spec fn parse_key_line(line: Seq<char>, key_len: nat) -> Option<Result<(Seq<char>, Seq<u8>), CtbError>> {
    let parts = splitn2_spec(line, ':');
    if parts.len() != 2 {
        None
    } else {
        match base64_decoding(trim_spec(parts[1])) {
            None => Some(Err(CtbError::Base64)),
            Some(key) => if key.len() != key_len {
                Some(Err(CtbError::KeySize))
            } else {
                Some(Ok((trim_spec(parts[0]), key)))
            },
        }
    }
}

/// The keys of serialized lines, each inserted over the last: the first
/// malformed line's error, or the map.
pub open spec fn parse_key_lines(lines: Seq<Seq<char>>, key_len: nat) -> Result<Map<Seq<char>, Seq<u8>>, CtbError>
    decreases lines.len(),
{
    if lines.len() == 0 {
        Ok(Map::empty())
    } else {
        match parse_key_lines(lines.drop_last(), key_len) {
            Err(e) => Err(e),
            Ok(m) => match parse_key_line(lines.last(), key_len) {
                None => Ok(m),
                Some(Err(e)) => Err(e),
                Some(Ok((id, key))) => Ok(m.insert(id, key)),
            },
        }
    }
}

/// The line a key is serialized as: its id, `:`, and the key in base64.
pub open spec fn key_line(id: Seq<char>, key: Seq<u8>) -> Seq<char> {
    id + ":"@ + base64_encoding(key)
}

/// Lines joined with `\n` between them.
pub open spec fn join_lines(lines: Seq<Seq<char>>) -> Seq<char>
    decreases lines.len(),
{
    if lines.len() == 0 {
        Seq::empty()
    } else if lines.len() == 1 {
        lines[0]
    } else {
        join_lines(lines.drop_last()) + "\n"@ + lines.last()
    }
}

/// The text that key map entries are serialized as.
pub open spec fn key_store_text(entries: Seq<(String, Vec<u8>)>) -> Seq<char> {
    join_lines(entries.map_values(|e: (String, Vec<u8>)| key_line(e.0@, e.1@)))
}

/// An id that reads back as itself: no `:` or line feed in it, and no
/// whitespace around it.
pub open spec fn id_reads_back(id: Seq<char>) -> bool {
    &&& forall|i: int| 0 <= i < id.len() ==> #[trigger] id[i] != ':' && id[i] != '\n'
    &&& trim_spec(id) == id
}

/// An in-memory key store: data keys by id, all of one length.
pub struct KeyStore {
    pub data_key_map: KeyMap,
    pub key_len: usize,
}

impl KeyStore {
    /// Keys are unique, and every key has the store's key length.
    pub open spec fn wf(&self) -> bool {
        &&& self.data_key_map.wf()
        &&& forall|id: Seq<char>| #[trigger] self.data_key_map@.contains_key(id)
            ==> self.data_key_map@[id].len() == self.key_len
    }

    /// The keys written one per line, as `id:base64`, in the map's order.
    /// Fails only where some key is too long to write as base64.
    pub fn serialize(&self) -> (r: Result<String, CtbError>)
        requires
            self.data_key_map.wf(),
        ensures
            r is Ok <==> (forall|i: int| 0 <= i < self.data_key_map.entry_seq().len()
                ==> base64_input_fits((#[trigger] self.data_key_map.entry_seq()[i]).1@.len())),
            r matches Ok(t) ==> t@ == key_store_text(self.data_key_map.entry_seq()),
            r is Err ==> r == Err::<String, CtbError>(CtbError::Serialization),
            r is Ok ==> forall|i: int| 0 <= i < self.data_key_map.entry_seq().len()
                ==> base64_round_trips((#[trigger] self.data_key_map.entry_seq()[i]).1@),
    {
        let entries = self.data_key_map.entries();
        let ghost lines = entries@.map_values(|e: (String, Vec<u8>)| key_line(e.0@, e.1@));
        let mut out = String::new();
        let mut i: usize = 0;
        while i < entries.len()
            invariant
                i <= entries@.len(),
                entries@ == self.data_key_map.entry_seq(),
                lines == entries@.map_values(|e: (String, Vec<u8>)| key_line(e.0@, e.1@)),
                out@ == join_lines(lines.take(i as int)),
                forall|j: int| 0 <= j < i ==> base64_round_trips((#[trigger] entries@[j]).1@),
                forall|j: int| 0 <= j < i ==> base64_input_fits((#[trigger] entries@[j]).1@.len()),
            decreases entries@.len() - i,
        {
            let text = match base64_encode_bytes(entries[i].1.as_slice()) {
                Ok(t) => t,
                Err(e) => return Err(e),
            };
            if i > 0 {
                out.append("\n");
            }
            out.append(entries[i].0.as_str());
            out.append(":");
            out.append(text.as_str());
            proof {
                let t = lines.take(i + 1);
                assert(t.drop_last() =~= lines.take(i as int));
                assert(t.last() == key_line(entries@[i as int].0@, entries@[i as int].1@));
                if i == 0 {
                    assert(lines.take(0) =~= Seq::<Seq<char>>::empty());
                    assert(out@ =~= join_lines(t));
                } else {
                    assert(out@ =~= join_lines(t));
                }
            }
            i = i + 1;
        }
        assert(lines.take(entries@.len() as int) =~= lines);
        Ok(out)
    }

    /// A store read from serialized lines with keys of `key_len` bytes; lines
    /// without `:` are skipped.
    pub fn from_serialized(str: &String, key_len: usize) -> (r: Result<Self, CtbError>)
        ensures
            match parse_key_lines(lines_spec(str@), key_len as nat) {
                Ok(m) => r matches Ok(s) && s.wf() && s.data_key_map@ == m && s.key_len == key_len,
                Err(e) => r is Err && r->Err_0 == e,
            },
    {
        let lines = text_lines(str.as_str());
        let ghost ls = lines_spec(str@);
        let mut map = KeyMap::new();
        let mut i: usize = 0;
        while i < lines.len()
            invariant
                i <= lines@.len(),
                ls == lines_spec(str@),
                lines@.len() == ls.len(),
                forall|j: int| 0 <= j < lines@.len() ==> (#[trigger] lines@[j])@ == ls[j],
                map.wf(),
                forall|id: Seq<char>| #[trigger] map@.contains_key(id) ==> map@[id].len() == key_len,
                parse_key_lines(ls.take(i as int), key_len as nat) == Ok::<Map<Seq<char>, Seq<u8>>, CtbError>(map@),
            decreases lines@.len() - i,
        {
            proof {
                let t = ls.take(i + 1);
                assert(t.drop_last() =~= ls.take(i as int));
                assert(t.last() == ls[i as int]);
            }
            let parts = text_splitn2(lines[i].as_str(), ':');
            if parts.len() == 2 {
                let key_id = trim(parts[0].as_str());
                let key_vec = match base64_decode_text(trim(parts[1].as_str())) {
                    Ok(v) => v,
                    Err(_) => {
                        proof {
                            assert(lines@[i as int]@ == ls[i as int]);
                            assert(parts@[1]@ == splitn2_spec(ls[i as int], ':')[1]);
                            lemma_parse_key_lines_error(ls, i as nat, key_len as nat, CtbError::Base64);
                        }
                        return Err(CtbError::Base64);
                    },
                };
                if key_vec.len() != key_len {
                    proof {
                        lemma_parse_key_lines_error(ls, i as nat, key_len as nat, CtbError::KeySize);
                    }
                    return Err(CtbError::KeySize);
                }
                map.insert(key_id.to_string(), key_vec);
            }
            i = i + 1;
        }
        assert(ls.take(lines@.len() as int) =~= ls);
        assert(parse_key_lines(lines_spec(str@), key_len as nat) == Ok::<Map<Seq<char>, Seq<u8>>, CtbError>(map@));
        Ok(KeyStore { data_key_map: map, key_len })
    }
}

/// An error at one line is the error of the whole text.
proof fn lemma_parse_key_lines_error(ls: Seq<Seq<char>>, i: nat, key_len: nat, e: CtbError)
    requires
        i < ls.len(),
        parse_key_lines(ls.take(i as int), key_len) is Ok,
        parse_key_line(ls[i as int], key_len) == Some(Err::<(Seq<char>, Seq<u8>), CtbError>(e)),
    ensures
        parse_key_lines(ls, key_len) == Err::<Map<Seq<char>, Seq<u8>>, CtbError>(e),
    decreases ls.len() - i,
{
    let t = ls.take(i as int + 1);
    assert(t.drop_last() =~= ls.take(i as int));
    assert(t.last() == ls[i as int]);
    lemma_parse_key_lines_error_extends(ls, (i + 1) as nat, key_len, e);
}

proof fn lemma_parse_key_lines_error_extends(ls: Seq<Seq<char>>, k: nat, key_len: nat, e: CtbError)
    requires
        k <= ls.len(),
        parse_key_lines(ls.take(k as int), key_len) == Err::<Map<Seq<char>, Seq<u8>>, CtbError>(e),
    ensures
        parse_key_lines(ls, key_len) == Err::<Map<Seq<char>, Seq<u8>>, CtbError>(e),
    decreases ls.len() - k,
{
    if k == ls.len() {
        assert(ls.take(k as int) =~= ls);
    } else {
        let t = ls.take(k as int + 1);
        assert(t.drop_last() =~= ls.take(k as int));
        lemma_parse_key_lines_error_extends(ls, (k + 1) as nat, key_len, e);
    }
}


/// A text without line feeds is a single piece.
proof fn lemma_pieces_single(b: Seq<char>)
    requires
        forall|i: int| 0 <= i < b.len() ==> #[trigger] b[i] != '\n',
    ensures
        newline_pieces(b) == seq![b],
    decreases b.len(),
{
    if b.len() > 0 {
        let d = b.drop_last();
        assert forall|i: int| 0 <= i < d.len() implies #[trigger] d[i] != '\n' by {
            assert(d[i] == b[i]);
        }
        lemma_pieces_single(d);
        assert(b.last() == b[b.len() - 1]);
        assert(d.push(b.last()) =~= b);
        let prev = newline_pieces(d);
        assert(prev.update(prev.len() - 1, prev.last().push(b.last())) =~= seq![b]);
        assert(newline_pieces(b) == prev.update(prev.len() - 1, prev.last().push(b.last())));
    } else {
        assert(b =~= Seq::<char>::empty());
    }
}

/// Appending a line feed and a text without line feeds adds that text as a piece.
proof fn lemma_pieces_append(a: Seq<char>, b: Seq<char>)
    requires
        forall|i: int| 0 <= i < b.len() ==> #[trigger] b[i] != '\n',
    ensures
        newline_pieces(a + "\n"@ + b) == newline_pieces(a).push(b),
    decreases b.len(),
{
    reveal_strlit("\n");
    let s = a + "\n"@ + b;
    assert("\n"@ =~= seq!['\n']);
    if b.len() == 0 {
        assert(s =~= a.push('\n'));
        assert(s.drop_last() =~= a);
        assert(s.last() == '\n');
        assert(b =~= Seq::<char>::empty());
        assert(newline_pieces(s) == newline_pieces(a).push(Seq::empty()));
    } else {
        let b2 = b.drop_last();
        assert forall|i: int| 0 <= i < b2.len() implies #[trigger] b2[i] != '\n' by {
            assert(b2[i] == b[i]);
        }
        lemma_pieces_append(a, b2);
        assert(s.drop_last() =~= a + "\n"@ + b2);
        assert(s.last() == b[b.len() - 1]);
        assert(b2.push(b.last()) =~= b);
        let prev = newline_pieces(a + "\n"@ + b2);
        assert(prev.update(prev.len() - 1, prev.last().push(s.last())) =~= newline_pieces(a).push(b));
        assert(newline_pieces(s) == prev.update(prev.len() - 1, prev.last().push(s.last())));
    }
}

/// Joined lines without line feeds split back into the same lines.
proof fn lemma_pieces_join(lines: Seq<Seq<char>>)
    requires
        lines.len() > 0,
        forall|k: int, i: int| 0 <= k < lines.len() && 0 <= i < lines[k].len() ==> #[trigger] lines[k][i] != '\n',
    ensures
        newline_pieces(join_lines(lines)) == lines,
    decreases lines.len(),
{
    if lines.len() == 1 {
        assert forall|i: int| 0 <= i < lines[0].len() implies #[trigger] lines[0][i] != '\n' by {
            assert(lines[0][i] != '\n');
        }
        lemma_pieces_single(lines[0]);
        assert(seq![lines[0]] =~= lines);
    } else {
        let d = lines.drop_last();
        assert forall|k: int, i: int| 0 <= k < d.len() && 0 <= i < d[k].len() implies #[trigger] d[k][i] != '\n' by {
            assert(d[k] == lines[k]);
            assert(lines[k][i] != '\n');
        }
        lemma_pieces_join(d);
        let l = lines.last();
        assert forall|i: int| 0 <= i < l.len() implies #[trigger] l[i] != '\n' by {
            assert(lines[lines.len() - 1][i] != '\n');
        }
        lemma_pieces_append(join_lines(d), l);
        assert(d.push(l) =~= lines);
    }
}

/// The first `c` in `id + [c] + rest`, where `id` holds no `c`, follows `id`.
proof fn lemma_first_index_after(id: Seq<char>, c: char, rest: Seq<char>)
    requires
        forall|i: int| 0 <= i < id.len() ==> #[trigger] id[i] != c,
    ensures
        first_index_of(id + seq![c] + rest, c) == Some(id.len()),
    decreases id.len(),
{
    let s = id + seq![c] + rest;
    if id.len() > 0 {
        assert(s[0] == id[0]);
        let t = id.drop_first();
        assert forall|i: int| 0 <= i < t.len() implies #[trigger] t[i] != c by {
            assert(t[i] == id[i + 1]);
        }
        lemma_first_index_after(t, c, rest);
        assert(s.drop_first() =~= t + seq![c] + rest);
    } else {
        assert(s[0] == c);
    }
}

/// A key line of an id that reads back gives that id and key back.
proof fn lemma_parse_key_line(id: Seq<char>, key: Seq<u8>, key_len: nat)
    requires
        id_reads_back(id),
        base64_round_trips(key),
        key.len() == key_len,
    ensures
        parse_key_line(key_line(id, key), key_len) == Some(Ok::<(Seq<char>, Seq<u8>), CtbError>((id, key))),
{
    reveal_strlit(":");
    let enc = base64_encoding(key);
    let line = key_line(id, key);
    assert(":"@ =~= seq![':']);
    assert forall|i: int| 0 <= i < id.len() implies #[trigger] id[i] != ':' by {
        assert(id[i] != ':' && id[i] != '\n');
    }
    lemma_first_index_after(id, ':', enc);
    assert(line.take(id.len() as int) =~= id);
    assert(line.skip(id.len() as int + 1) =~= enc);
    lemma_trim_base64(enc);
}

/// A key line holds no line feed and does not end in a carriage return.
proof fn lemma_key_line_shape(id: Seq<char>, key: Seq<u8>)
    requires
        id_reads_back(id),
        base64_round_trips(key),
    ensures
        forall|i: int| 0 <= i < key_line(id, key).len() ==> #[trigger] key_line(id, key)[i] != '\n',
        key_line(id, key).len() > 0,
        key_line(id, key).last() != '\r',
{
    reveal_strlit(":");
    let enc = base64_encoding(key);
    let line = key_line(id, key);
    assert forall|i: int| 0 <= i < line.len() implies #[trigger] line[i] != '\n' by {
        if i < id.len() {
            assert(line[i] == id[i]);
            assert(id[i] != ':' && id[i] != '\n');
        } else if i == id.len() {
            assert(line[i] == ':');
        } else {
            assert(line[i] == enc[i - id.len() - 1]);
            assert(is_base64_char(enc[i - id.len() - 1]));
        }
    }
    if enc.len() > 0 {
        assert(line.last() == enc[enc.len() - 1]);
        assert(is_base64_char(enc[enc.len() - 1]));
    } else {
        assert(line.last() == ':');
    }
}

/// The key lines of entries whose ids read back parse to the map of the entries.
proof fn lemma_parse_key_lines_entries(entries: Seq<(String, Vec<u8>)>, key_len: nat)
    requires
        forall|i: int| 0 <= i < entries.len() ==> {
            &&& id_reads_back((#[trigger] entries[i]).0@)
            &&& base64_round_trips(entries[i].1@)
            &&& entries[i].1@.len() == key_len
        },
    ensures
        parse_key_lines(entries.map_values(|e: (String, Vec<u8>)| key_line(e.0@, e.1@)), key_len)
            == Ok::<Map<Seq<char>, Seq<u8>>, CtbError>(entries_map(entries)),
    decreases entries.len(),
{
    let lines = entries.map_values(|e: (String, Vec<u8>)| key_line(e.0@, e.1@));
    if entries.len() > 0 {
        let d = entries.drop_last();
        assert forall|i: int| 0 <= i < d.len() implies {
            &&& id_reads_back((#[trigger] d[i]).0@)
            &&& base64_round_trips(d[i].1@)
            &&& d[i].1@.len() == key_len
        } by {
            assert(d[i] == entries[i]);
        }
        lemma_parse_key_lines_entries(d, key_len);
        assert(lines.drop_last() =~= d.map_values(|e: (String, Vec<u8>)| key_line(e.0@, e.1@)));
        let e = entries.last();
        assert(e == entries[entries.len() - 1]);
        lemma_parse_key_line(e.0@, e.1@, key_len);
        assert(lines.last() == key_line(e.0@, e.1@));
    }
}

/// Reading back the text that a key store is serialized as gives the store's
/// keys, when every key has the store's length and base64 round-trips, and
/// every id reads back as itself.
pub proof fn lemma_key_store_text_roundtrip(store: &KeyStore)
    requires
        store.wf(),
        forall|i: int| 0 <= i < store.data_key_map.entry_seq().len() ==> {
            &&& id_reads_back((#[trigger] store.data_key_map.entry_seq()[i]).0@)
            &&& base64_round_trips(store.data_key_map.entry_seq()[i].1@)
        },
    ensures
        parse_key_lines(lines_spec(key_store_text(store.data_key_map.entry_seq())), store.key_len as nat)
            == Ok::<Map<Seq<char>, Seq<u8>>, CtbError>(store.data_key_map@),
{
    let entries = store.data_key_map.entry_seq();
    store.data_key_map.lemma_entries();
    assert forall|i: int| 0 <= i < entries.len() implies (#[trigger] entries[i]).1@.len() == store.key_len by {
        lemma_entries_map_has(entries, i);
    }
    let lines = entries.map_values(|e: (String, Vec<u8>)| key_line(e.0@, e.1@));
    lemma_parse_key_lines_entries(entries, store.key_len as nat);
    if entries.len() == 0 {
        assert(key_store_text(entries) =~= Seq::<char>::empty());
        assert(newline_pieces(Seq::<char>::empty()) == seq![Seq::<char>::empty()]);
        assert(lines_spec(key_store_text(entries)) =~= lines);
    } else {
        assert forall|k: int| 0 <= k < lines.len() implies {
            &&& forall|i: int| 0 <= i < (#[trigger] lines[k]).len() ==> #[trigger] lines[k][i] != '\n'
            &&& lines[k].len() > 0
            &&& lines[k].last() != '\r'
        } by {
            lemma_key_line_shape(entries[k].0@, entries[k].1@);
        }
        lemma_pieces_join(lines);
        let raw = newline_pieces(key_store_text(entries));
        assert(raw == lines);
        assert(raw.last() == lines[lines.len() - 1]);
        assert(lines_spec(key_store_text(entries)) =~= lines);
    }
}

} // verus!

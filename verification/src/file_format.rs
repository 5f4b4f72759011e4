use vstd::prelude::*;
use vstd::string::*;
use crate::error::CtbError;
use crate::json::{decimal, decimal_value, is_decimal_digits, json_quote, json_string, json_u64, lemma_decimal_reads_back};

verus! {

/// The version byte that opens every encrypted file.
pub const ENCRYPTED_FILE_VERSION: u8 = 1u8;

/// Length of the marker that precedes every sealed chunk.
pub const SEPARATOR_LEN: usize = 4;

/// Chunk size of a header made without one given.
pub const DEFAULT_CHUNK_SIZE: u64 = 5242880u64;

/// The marker that precedes every sealed chunk: four zero bytes.
pub open spec fn separator() -> Seq<u8> {
    seq![0u8, 0u8, 0u8, 0u8]
}

/// The version of the file header's layout.
#[derive(Debug, Clone, Copy, PartialEq, Eq, Structural)]
pub enum EncryptionFileHeaderVersion {
    V1,
}

/// The header written, as JSON, at the start of an encrypted file.
pub struct EncryptionFileHeader {
    pub version: EncryptionFileHeaderVersion,
    pub alg: String,
    pub client_id: String,
    pub file_id: String,
    pub chunk_size: u64,
    pub recovery: String,
}

/// The JSON text of a header version.
pub open spec fn version_json(v: EncryptionFileHeaderVersion) -> Seq<char> {
    match v {
        EncryptionFileHeaderVersion::V1 => "\"V1\""@,
    }
}

/// The JSON object that a header with these fields is written as: the
/// fields in declaration order, without spaces.
pub open spec fn header_json_text(
    version: EncryptionFileHeaderVersion,
    alg: Seq<char>,
    client_id: Seq<char>,
    file_id: Seq<char>,
    chunk_size: u64,
    recovery: Seq<char>,
) -> Seq<char> {
    "{\"version\":"@ + version_json(version) + ",\"alg\":"@ + json_quote(alg) + ",\"client_id\":"@
        + json_quote(client_id) + ",\"file_id\":"@ + json_quote(file_id) + ",\"chunk_size\":"@
        + decimal(chunk_size as nat) + ",\"recovery\":"@ + json_quote(recovery) + "}"@
}

/// The JSON object that a header is written as.
pub open spec fn header_json(h: EncryptionFileHeader) -> Seq<char> {
    header_json_text(h.version, h.alg@, h.client_id@, h.file_id@, h.chunk_size, h.recovery@)
}

/// The header's JSON as UTF-8 bytes.
pub open spec fn header_bytes(h: EncryptionFileHeader) -> Seq<u8> {
    vstd::utf8::encode_utf8(header_json(h))
}

impl EncryptionFileHeaderVersion {
    /// The JSON text of this version.
    pub fn to_json(&self) -> (r: String)
        ensures
            r@ == version_json(*self),
    {
        match self {
            EncryptionFileHeaderVersion::V1 => String::from_str("\"V1\""),
        }
    }
}

impl EncryptionFileHeader {
    /// A header for the cipher whose compiler type name is given: version 1,
    /// the default chunk size and empty identifiers.
    pub fn default_for(cipher_type_name: &str) -> (r: Self)
        ensures
            r.version == EncryptionFileHeaderVersion::V1,
            r.alg@ == crate::type_names::type_name_or_default_spec(cipher_type_name@),
            r.chunk_size == DEFAULT_CHUNK_SIZE,
            r.client_id@ == Seq::<char>::empty(),
            r.file_id@ == Seq::<char>::empty(),
            r.recovery@ == Seq::<char>::empty(),
    {
        EncryptionFileHeader {
            version: EncryptionFileHeaderVersion::V1,
            alg: crate::type_names::type_name_or_default(cipher_type_name),
            chunk_size: DEFAULT_CHUNK_SIZE,
            client_id: String::new(),
            file_id: String::new(),
            recovery: String::new(),
        }
    }

    /// The header as a compact JSON object.
    pub fn to_json(&self) -> (r: Result<String, CtbError>)
        ensures
            r matches Ok(t) && t@ == header_json(*self),
    {
        let mut s = String::from_str("{\"version\":");
        let v = self.version.to_json();
        s.append(v.as_str());
        s.append(",\"alg\":");
        let alg = match json_string(self.alg.as_str()) {
            Ok(t) => t,
            Err(_) => return Err(CtbError::Serialization),
        };
        s.append(alg.as_str());
        s.append(",\"client_id\":");
        let client_id = match json_string(self.client_id.as_str()) {
            Ok(t) => t,
            Err(_) => return Err(CtbError::Serialization),
        };
        s.append(client_id.as_str());
        s.append(",\"file_id\":");
        let file_id = match json_string(self.file_id.as_str()) {
            Ok(t) => t,
            Err(_) => return Err(CtbError::Serialization),
        };
        s.append(file_id.as_str());
        s.append(",\"chunk_size\":");
        let chunk_size = match json_u64(self.chunk_size) {
            Ok(t) => t,
            Err(_) => return Err(CtbError::Serialization),
        };
        s.append(chunk_size.as_str());
        s.append(",\"recovery\":");
        let recovery = match json_string(self.recovery.as_str()) {
            Ok(t) => t,
            Err(_) => return Err(CtbError::Serialization),
        };
        s.append(recovery.as_str());
        s.append("}");
        assert(s@ =~= header_json(*self));
        Ok(s)
    }
}

/// `text` holds the chunk-size field of a header between `before` and
/// `after`: the key `"chunk_size"`, a colon, decimal digits, and then the
/// recovery field.
pub open spec fn chunk_size_field_at(text: Seq<char>, before: Seq<char>, digits: Seq<char>, after: Seq<char>) -> bool {
    &&& text == before + ",\"chunk_size\":"@ + digits + ",\"recovery\":"@ + after
    &&& is_decimal_digits(digits)
}

/// A header's JSON records its chunk size unchanged: the digits of its
/// `"chunk_size"` field read back as the full chunk size, for every `u64`.
pub proof fn lemma_header_records_chunk_size(h: EncryptionFileHeader)
    ensures
        exists|before: Seq<char>, digits: Seq<char>, after: Seq<char>|
            #[trigger] chunk_size_field_at(header_json(h), before, digits, after)
                && decimal_value(digits) == h.chunk_size,
{
    lemma_decimal_reads_back(h.chunk_size as nat);
    let before = "{\"version\":"@ + version_json(h.version) + ",\"alg\":"@ + json_quote(h.alg@) + ",\"client_id\":"@
        + json_quote(h.client_id@) + ",\"file_id\":"@ + json_quote(h.file_id@);
    let digits = decimal(h.chunk_size as nat);
    let after = json_quote(h.recovery@) + "}"@;
    assert(header_json(h) =~= before + ",\"chunk_size\":"@ + digits + ",\"recovery\":"@ + after);
    assert(chunk_size_field_at(header_json(h), before, digits, after));
}

/// The two little-endian bytes of `n`, which is below `65536`.
pub open spec fn u16_le(n: nat) -> Seq<u8> {
    seq![(n % 256) as u8, (n / 256) as u8]
}

/// The little-endian value of two bytes.
pub open spec fn u16_le_value(lo: u8, hi: u8) -> nat {
    lo as nat + 256 * hi as nat
}

/// What an encrypted file starts with: the version byte, the length of the
/// header text as two little-endian bytes (modulo `65536`), and the header text.
pub open spec fn file_prefix(context: Seq<u8>) -> Seq<u8> {
    seq![ENCRYPTED_FILE_VERSION] + u16_le(context.len() % 65536) + context
}

/// One sealed chunk as it stands in a file: the separator, then the sealed bytes.
pub open spec fn frame(sealed: Seq<u8>) -> Seq<u8> {
    separator() + sealed
}

/// Sealed chunks one after the other, each behind its separator.
pub open spec fn frames_bytes(sealed: Seq<Seq<u8>>) -> Seq<u8>
    decreases sealed.len(),
{
    if sealed.len() == 0 {
        Seq::empty()
    } else {
        frame(sealed[0]) + frames_bytes(sealed.drop_first())
    }
}

/// `s` written `n` times in a row.
pub open spec fn repeat_bytes(s: Seq<u8>, n: nat) -> Seq<u8>
    decreases n,
{
    if n == 0 {
        Seq::empty()
    } else {
        repeat_bytes(s, (n - 1) as nat) + s
    }
}

/// Appending a chunk appends its frame.
pub proof fn lemma_frames_bytes_push(sealed: Seq<Seq<u8>>, c: Seq<u8>)
    ensures
        frames_bytes(sealed.push(c)) == frames_bytes(sealed) + frame(c),
    decreases sealed.len(),
{
    if sealed.len() == 0 {
        assert(sealed.push(c).drop_first() =~= Seq::<Seq<u8>>::empty());
        assert(frames_bytes(sealed.push(c)) =~= frame(c) + frames_bytes(Seq::<Seq<u8>>::empty()));
        assert(frames_bytes(sealed.push(c)) =~= frames_bytes(sealed) + frame(c));
    } else {
        assert(sealed.push(c).drop_first() =~= sealed.drop_first().push(c));
        lemma_frames_bytes_push(sealed.drop_first(), c);
        assert(frames_bytes(sealed.push(c)) =~= frames_bytes(sealed) + frame(c));
    }
}

/// Appends the header text to `buffer`, behind its length as two
/// little-endian bytes; a length of `65536` or more is kept modulo `65536`.
pub fn write_context(buffer: &mut Vec<u8>, context: &str)
    ensures
        final(buffer)@ == old(buffer)@ + u16_le(context.spec_bytes().len() % 65536) + context.spec_bytes(),
{
    let bytes = context.as_bytes();
    let length = bytes.len() % 65536;
    let lo = (length % 256) as u8;
    let hi = (length / 256) as u8;
    buffer.push(lo);
    buffer.push(hi);
    let mut i: usize = 0;
    let ghost start = buffer@;
    while i < bytes.len()
        invariant
            i <= bytes@.len(),
            buffer@ == start + bytes@.subrange(0, i as int),
        decreases bytes@.len() - i,
    {
        buffer.push(bytes[i]);
        i = i + 1;
        assert(buffer@ =~= start + bytes@.subrange(0, i as int));
    }
    assert(bytes@.subrange(0, bytes@.len() as int) =~= bytes@);
    assert(buffer@ =~= old(buffer)@ + u16_le(context.spec_bytes().len() % 65536) + context.spec_bytes());
}

/// The outcome of reading the version byte from the start of `source`: one
/// byte consumed where it is the supported version.
pub open spec fn parse_file_version(source: Seq<u8>) -> Result<nat, CtbError> {
    if source.len() >= 1 && source[0] == ENCRYPTED_FILE_VERSION {
        Ok(1)
    } else {
        Err(CtbError::FileVersion)
    }
}

/// The outcome of reading the header text from the start of `source`: the
/// text and the number of bytes consumed.
pub open spec fn parse_header(source: Seq<u8>) -> Result<(Seq<u8>, nat), CtbError> {
    if source.len() < 2 {
        Err(CtbError::ContextSize)
    } else {
        let size = u16_le_value(source[0], source[1]);
        if source.len() - 2 < size {
            Err(CtbError::Context)
        } else {
            Ok((source.subrange(2, 2 + size as int), 2 + size))
        }
    }
}

/// The outcome of reading the version byte and then the header text.
pub open spec fn parse_file_header(source: Seq<u8>) -> Result<(Seq<u8>, nat), CtbError> {
    match parse_file_version(source) {
        Err(e) => Err(e),
        Ok(n) => match parse_header(source.skip(n as int)) {
            Err(e) => Err(e),
            Ok((context, m)) => Ok((context, n + m)),
        },
    }
}

/// The outcome of reading a chunk's separator: nothing read at the end of the
/// source, four bytes read where they are all zero, an error otherwise.
pub open spec fn parse_chunk_header(source: Seq<u8>) -> Result<nat, CtbError> {
    if source.len() == 0 {
        Ok(0)
    } else if source.len() >= 4 && source.take(4) == separator() {
        Ok(4)
    } else {
        Err(CtbError::ChunkHeader(header_byte(source, 0), header_byte(source, 1), header_byte(source, 2), header_byte(source, 3)))
    }
}

/// Byte `i` of what was read for a chunk separator, zero past its end.
pub open spec fn header_byte(source: Seq<u8>, i: int) -> u8 {
    if i < source.len() {
        source[i]
    } else {
        0
    }
}

/// Checks the version byte at the start of `source`; returns how many bytes it took.
pub fn read_file_version(source: &[u8]) -> (r: Result<usize, CtbError>)
    ensures
        r matches Ok(n) ==> parse_file_version(source@) == Ok::<nat, CtbError>(n as nat),
        r matches Err(e) ==> parse_file_version(source@) == Err::<nat, CtbError>(e),
{
    if source.len() >= 1 && source[0] == ENCRYPTED_FILE_VERSION {
        Ok(1)
    } else {
        Err(CtbError::FileVersion)
    }
}

/// Takes what a read of the header length's two bytes gave: the length,
/// where both bytes came.
pub fn read_context_size(read: &[u8]) -> (r: Result<usize, CtbError>)
    ensures
        read@.len() == 2 ==> r == Ok::<usize, CtbError>(u16_le_value(read@[0], read@[1]) as usize),
        read@.len() != 2 ==> r == Err::<usize, CtbError>(CtbError::ContextSize),
{
    if read.len() != 2 {
        return Err(CtbError::ContextSize);
    }
    Ok(read[0] as usize + 256 * (read[1] as usize))
}

/// Takes what a read of the header text gave: the text, where all
/// `context_size` bytes came.
pub fn read_context(read: &[u8], context_size: usize) -> (r: Result<Vec<u8>, CtbError>)
    ensures
        read@.len() == context_size ==> (r matches Ok(c) && c@ == read@),
        read@.len() != context_size ==> r == Err::<Vec<u8>, CtbError>(CtbError::Context),
{
    if read.len() != context_size {
        return Err(CtbError::Context);
    }
    Ok(vstd::slice::slice_to_vec(read))
}

/// Reads the header text, behind its two-byte little-endian length, from the
/// start of `source`; returns the text and how many bytes it took.
pub fn read_header(source: &[u8]) -> (r: Result<(Vec<u8>, usize), CtbError>)
    ensures
        r matches Ok((c, n)) ==> parse_header(source@) == Ok::<(Seq<u8>, nat), CtbError>((c@, n as nat)),
        r matches Err(e) ==> parse_header(source@) == Err::<(Seq<u8>, nat), CtbError>(e),
{
    if source.len() < 2 {
        return Err(CtbError::ContextSize);
    }
    let context_size: usize = source[0] as usize + 256 * (source[1] as usize);
    if source.len() - 2 < context_size {
        return Err(CtbError::Context);
    }
    let mut context: Vec<u8> = Vec::new();
    let mut i: usize = 0;
    while i < context_size
        invariant
            i <= context_size,
            2 + context_size <= source@.len(),
            source@.len() == source.len(),
            context@ == source@.subrange(2, 2 + i),
        decreases context_size - i,
    {
        context.push(source[2 + i]);
        i = i + 1;
        assert(context@ =~= source@.subrange(2, 2 + i));
    }
    Ok((context, 2 + context_size))
}

/// Reads the version byte and then the header text from the start of
/// `source`; returns the text and how many bytes both took.
pub fn read_file_header(source: &[u8]) -> (r: Result<(Vec<u8>, usize), CtbError>)
    ensures
        r matches Ok((c, n)) ==> parse_file_header(source@) == Ok::<(Seq<u8>, nat), CtbError>((c@, n as nat)),
        r matches Err(e) ==> parse_file_header(source@) == Err::<(Seq<u8>, nat), CtbError>(e),
{
    let n = match read_file_version(source) {
        Ok(n) => n,
        Err(e) => return Err(e),
    };
    let rest = vstd::slice::slice_subrange(source, n, source.len());
    assert(rest@ =~= source@.skip(n as int));
    match read_header(rest) {
        Ok((context, m)) => Ok((context, n + m)),
        Err(e) => Err(e),
    }
}

/// Checks the separator at the start of `source`; returns how many bytes it
/// took (none at the end of the source).
pub fn read_chunk_header(source: &[u8]) -> (r: Result<usize, CtbError>)
    ensures
        r matches Ok(n) ==> parse_chunk_header(source@) == Ok::<nat, CtbError>(n as nat),
        r matches Err(e) ==> parse_chunk_header(source@) == Err::<nat, CtbError>(e),
{
    if source.len() == 0 {
        return Ok(0);
    }
    if source.len() >= 4 && source[0] == 0 && source[1] == 0 && source[2] == 0 && source[3] == 0 {
        assert(source@.take(4) =~= separator());
        Ok(4)
    } else {
        assert(source@.len() >= 4 ==> source@.take(4)[0] == source@[0] && source@.take(4)[1] == source@[1]
            && source@.take(4)[2] == source@[2] && source@.take(4)[3] == source@[3]);
        let b0 = if 0 < source.len() { source[0] } else { 0 };
        let b1 = if 1 < source.len() { source[1] } else { 0 };
        let b2 = if 2 < source.len() { source[2] } else { 0 };
        let b3 = if 3 < source.len() { source[3] } else { 0 };
        Err(CtbError::ChunkHeader(b0, b1, b2, b3))
    }
}

/// Reading the header back from what a file starts with gives the header
/// text and its exact length, whenever the text is shorter than `65536` bytes.
pub proof fn lemma_file_header_roundtrip(context: Seq<u8>, rest: Seq<u8>)
    requires
        context.len() < 65536,
    ensures
        parse_file_header(file_prefix(context) + rest) == Ok::<(Seq<u8>, nat), CtbError>(
            (context, 3 + context.len()),
        ),
{
    let s = file_prefix(context) + rest;
    let n = context.len();
    assert(s[0] == ENCRYPTED_FILE_VERSION);
    let t = s.skip(1);
    assert(t =~= u16_le(n) + context + rest) by {
        assert(n % 65536 == n);
    }
    assert(t[0] == (n % 256) as u8);
    assert(t[1] == (n / 256) as u8);
    assert(u16_le_value(t[0], t[1]) == n);
    assert(t.subrange(2, 2 + n as int) =~= context);
}

} // verus!

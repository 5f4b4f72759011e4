use vstd::prelude::*;
use crate::bignum::usize_to_bytes_le;
use crate::bytes::{
    byte_radix_pow, le_encode, le_value, lemma_le_encode, lemma_le_encode_value, lemma_le_value_concat, lemma_le_value_top_byte,
    lemma_radix_pow_8, lemma_radix_pow_monotone,
};
use crate::crypto::{Crypto, MAX_PLAINTEXT_LEN};
use crate::encrypt_file::chunk_sealed;
use crate::encryptor::EncryptedIterator;
use crate::error::CtbError;

verus! {

/// Length of the size field that opens the stream.
pub const SIZE_FIELD_LEN: usize = 8;

/// `size` as eight little-endian bytes, zero-padded.
pub fn size_field(size: usize) -> (r: Vec<u8>)
    ensures
        r@ == le_encode(size as nat, 8),
{
    let bytes = usize_to_bytes_le(size);
    proof {
        lemma_radix_pow_8();
        if size > 0 {
            lemma_le_value_top_byte(bytes@);
            if bytes@.len() > 8 {
                lemma_radix_pow_monotone(8, (bytes@.len() - 1) as nat);
            }
        }
    }
    assert(bytes@.len() <= 8);
    let mut size_bytes: Vec<u8> = vec![0u8; SIZE_FIELD_LEN];
    let mut i: usize = 0;
    while i < bytes.len()
        invariant
            i <= bytes@.len(),
            bytes@.len() <= 8,
            size_bytes@.len() == 8,
            forall|j: int| 0 <= j < 8 ==> #[trigger] size_bytes@[j] == (if j < i { bytes@[j] } else { 0u8 }),
        decreases bytes@.len() - i,
    {
        size_bytes.set(i, bytes[i]);
        i = i + 1;
    }
    proof {
        let k = bytes@.len();
        let zeros = size_bytes@.subrange(k as int, 8);
        assert(size_bytes@ =~= bytes@ + zeros);
        lemma_le_value_concat(bytes@, zeros);
        lemma_zeros_value(zeros);
        assert(byte_radix_pow(k) * le_value(zeros) == 0) by (nonlinear_arith)
            requires
                le_value(zeros) == 0,
        ;
        assert(le_value(size_bytes@) == size);
        assert((size as nat) < byte_radix_pow(8));
        vstd::arithmetic::div_mod::lemma_small_mod(size as nat, byte_radix_pow(8));
        lemma_le_encode_value(size_bytes@, size as nat);
    }
    size_bytes
}

proof fn lemma_zeros_value(s: Seq<u8>)
    requires
        forall|i: int| 0 <= i < s.len() ==> s[i] == 0,
    ensures
        le_value(s) == 0,
    decreases s.len(),
{
    if s.len() > 0 {
        lemma_zeros_value(s.drop_first());
    }
}

/// Produces a stream of sealed chunks from an iterator: the length of the
/// first sealed chunk as eight little-endian bytes, then the sealed chunks.
pub struct EncryptedFileGenerator<C: Crypto> {
    source: EncryptedIterator<C>,
    buffer: Vec<u8>,
    counter: u32,
    chunk_size: usize,
    handed_out: Ghost<Seq<u8>>,
    prefixed: Ghost<bool>,
    plain: Ghost<Seq<Seq<u8>>>,
    sealed: Ghost<Seq<Seq<u8>>>,
    read_index: Ghost<Seq<nat>>,
}

/// The stream so far: the size field, once written, then the sealed chunks.
pub open spec fn stream_bytes(prefixed: bool, sealed: Seq<Seq<u8>>) -> Seq<u8> {
    (if prefixed && sealed.len() > 0 { le_encode(sealed[0].len(), 8) } else { Seq::<u8>::empty() }) + sealed.flatten_alt()
}

/// The size field of a stream records the full length of the first sealed
/// chunk: the stream's first eight bytes, read as a little-endian number,
/// are that length, for every length below `2^64`.
pub proof fn lemma_stream_size_field(sealed: Seq<Seq<u8>>)
    requires
        sealed.len() > 0,
        sealed[0].len() < 0x1_0000_0000_0000_0000,
    ensures
        stream_bytes(true, sealed).len() >= 8,
        le_value(stream_bytes(true, sealed).take(8)) == sealed[0].len(),
{
    lemma_le_encode(sealed[0].len(), 8);
    lemma_radix_pow_8();
    vstd::arithmetic::div_mod::lemma_small_mod(sealed[0].len(), byte_radix_pow(8));
    let field = le_encode(sealed[0].len(), 8);
    assert(stream_bytes(true, sealed).take(8) =~= field);
}

impl<C: Crypto> EncryptedFileGenerator<C> {
    pub closed spec fn key_bytes(&self) -> Seq<u8> {
        self.source.key_bytes()
    }

    /// Bytes already handed out.
    pub closed spec fn handed(&self) -> Seq<u8> {
        self.handed_out@
    }

    /// Bytes produced but not yet handed out.
    pub closed spec fn pending(&self) -> Seq<u8> {
        self.buffer@
    }

    /// Whether the size field has been written.
    pub closed spec fn prefixed(&self) -> bool {
        self.prefixed@
    }

    /// How many reads have been served.
    pub closed spec fn read_count(&self) -> nat {
        self.counter as nat
    }

    /// The plaintext chunks sealed so far, in order.
    pub closed spec fn plain_chunks(&self) -> Seq<Seq<u8>> {
        self.plain@
    }

    /// The sealed chunks written so far, in order.
    pub closed spec fn sealed_chunks(&self) -> Seq<Seq<u8>> {
        self.sealed@
    }

    /// How many source reads the iterator has taken.
    pub closed spec fn source_reads(&self) -> nat {
        self.source.read_count()
    }

    /// What every read keeps: the bytes handed out and pending are the
    /// stream of the chunks sealed so far, each sealed under the nonce of
    /// the source read it came from.
    pub closed spec fn wf(&self) -> bool {
        &&& self.source.wf()
        &&& self.plain@.len() == self.sealed@.len()
        &&& self.read_index@.len() == self.sealed@.len()
        &&& forall|i: int|
            0 <= i < self.sealed@.len() ==> {
                &&& chunk_sealed::<C>(self.source.key_bytes(), self.read_index@[i], #[trigger] self.plain@[i], self.sealed@[i])
                &&& self.read_index@[i] < self.source.read_count()
            }
        &&& forall|i: int, j: int| 0 <= i < j < self.sealed@.len() ==> self.read_index@[i] < self.read_index@[j]
        &&& self.handed_out@ + self.buffer@ == stream_bytes(self.prefixed@, self.sealed@)
        &&& self.prefixed@ ==> self.sealed@.len() > 0 && self.chunk_size == self.sealed@[0].len()
        &&& self.counter == 0 ==> self.handed_out@.len() == 0 && self.sealed@.len() == 0 && !self.prefixed@
        &&& self.counter > 0 && !self.prefixed@ ==> self.handed_out@ + self.buffer@ == self.sealed@.flatten_alt()
    }

    pub fn new(i: EncryptedIterator<C>) -> (r: Self)
        requires
            i.wf(),
        ensures
            r.wf(),
            r.key_bytes() == i.key_bytes(),
            r.source_reads() == i.read_count(),
            r.read_count() == 0,
            r.handed() == Seq::<u8>::empty(),
            r.pending() == Seq::<u8>::empty(),
            r.sealed_chunks() == Seq::<Seq<u8>>::empty(),
    {
        let r = EncryptedFileGenerator {
            source: i,
            buffer: Vec::new(),
            counter: 0,
            chunk_size: 0,
            handed_out: Ghost(Seq::empty()),
            prefixed: Ghost(false),
            plain: Ghost(Seq::empty()),
            sealed: Ghost(Seq::empty()),
            read_index: Ghost(Seq::empty()),
        };
        assert(Seq::<Seq<u8>>::empty().flatten_alt() =~= Seq::<u8>::empty());
        assert(r.handed_out@ + r.buffer@ =~= stream_bytes(false, Seq::empty()));
        r
    }

    /// Whether fewer bytes are pending than a read asks for, so that the
    /// next chunk must be read from the source.
    pub fn wants_chunk(&self, requested: usize) -> (r: bool)
        ensures
            r == (self.pending().len() < requested),
    {
        self.buffer.len() < requested
    }

    /// Serves one read of up to `requested` bytes. Where more bytes are
    /// wanted, `source_read` is what one read of the source gave, and its
    /// sealed chunk is appended; on the first read the size field is put in
    /// front. Returns the bytes handed out.
    pub fn read(&mut self, requested: usize, source_read: Option<Result<Vec<u8>, CtbError>>) -> (r: Vec<u8>)
        requires
            old(self).wf(),
            old(self).read_count() < u32::MAX,
            (source_read is Some) == (old(self).pending().len() < requested),
            source_read matches Some(rd) ==> (rd matches Ok(b) && b@.len() < MAX_PLAINTEXT_LEN),
        ensures
            final(self).wf(),
            final(self).key_bytes() == old(self).key_bytes(),
            final(self).read_count() == old(self).read_count() + 1,
            final(self).handed() == old(self).handed() + r@,
            r@.len() <= requested,
            final(self).prefixed() == (old(self).prefixed() || (old(self).read_count() == 0 && final(self).sealed_chunks().len() > 0)),
            final(self).handed() + final(self).pending() == stream_bytes(final(self).prefixed(), final(self).sealed_chunks()),
            ({
                let filled = stream_bytes(final(self).prefixed(), final(self).sealed_chunks()).skip(old(self).handed().len() as int);
                let n = if requested < filled.len() { requested as int } else { filled.len() as int };
                &&& r@ == filled.take(n)
                &&& final(self).pending() == filled.skip(n)
            }),
            match source_read {
                Some(Ok(b)) if b@.len() > 0 => {
                    let c = C::seal(old(self).key_bytes(), crate::nonce::counter_nonce(old(self).source_reads(), C::nonce_len()), b@);
                    &&& final(self).plain_chunks() == old(self).plain_chunks().push(b@)
                    &&& final(self).sealed_chunks() == old(self).sealed_chunks().push(c)
                },
                _ => {
                    &&& final(self).plain_chunks() == old(self).plain_chunks()
                    &&& final(self).sealed_chunks() == old(self).sealed_chunks()
                },
            },
    {
        let ghost pre_sealed = self.sealed@;
        if self.buffer.len() < requested {
            let rd = match source_read {
                Some(rd) => rd,
                None => Ok(Vec::new()),
            };
            let ghost plain_chunk = if rd is Ok { rd->Ok_0@ } else { Seq::<u8>::empty() };
            let ghost k = self.source.read_count();
            let ghost pre_buf = self.buffer@;
            assert(self.handed_out@ + pre_buf == stream_bytes(self.prefixed@, pre_sealed));
            match self.source.next(rd) {
                Some(Ok(mut sealed)) => {
                    let ghost c = sealed@;
                    self.buffer.append(&mut sealed);
                    proof {
                        self.plain@ = self.plain@.push(plain_chunk);
                        self.sealed@ = self.sealed@.push(c);
                        self.read_index@ = self.read_index@.push(k);
                        assert(self.sealed@.drop_last() =~= pre_sealed);
                        assert(self.sealed@.flatten_alt() == pre_sealed.flatten_alt() + c);
                        if pre_sealed.len() > 0 {
                            assert(self.sealed@[0] == pre_sealed[0]);
                        }
                        let pre_part = if old(self).prefixed@ && pre_sealed.len() > 0 { le_encode(pre_sealed[0].len(), 8) } else { Seq::<u8>::empty() };
                        let new_part = if self.prefixed@ && self.sealed@.len() > 0 { le_encode(self.sealed@[0].len(), 8) } else { Seq::<u8>::empty() };
                        assert(pre_part == new_part);
                        assert(self.buffer@ == pre_buf + c);
                        assert(self.handed_out@ + pre_buf == pre_part + pre_sealed.flatten_alt());
                        assert(stream_bytes(self.prefixed@, self.sealed@) == new_part + self.sealed@.flatten_alt());
                        assert(self.handed_out@ + self.buffer@ =~= (self.handed_out@ + pre_buf) + c);
                        assert(new_part + self.sealed@.flatten_alt() =~= (pre_part + pre_sealed.flatten_alt()) + c);
                        assert(self.handed_out@ + self.buffer@ == stream_bytes(self.prefixed@, self.sealed@));
                        assert forall|a: int, b: int| 0 <= a < b < self.sealed@.len() implies self.read_index@[a] < self.read_index@[b] by {
                            if b < pre_sealed.len() {
                                assert(self.read_index@[a] == old(self).read_index@[a]);
                                assert(self.read_index@[b] == old(self).read_index@[b]);
                            } else {
                                assert(self.read_index@[a] == old(self).read_index@[a]);
                                assert(old(self).plain@[a] == old(self).plain@[a]);
                                assert(old(self).read_index@[a] < k);
                            }
                        }
                        assert forall|i: int| 0 <= i < self.sealed@.len() implies {
                            &&& chunk_sealed::<C>(self.source.key_bytes(), self.read_index@[i], #[trigger] self.plain@[i], self.sealed@[i])
                            &&& self.read_index@[i] < self.source.read_count()
                        } by {
                            if i < pre_sealed.len() {
                                assert(self.plain@[i] == old(self).plain@[i]);
                                assert(self.sealed@[i] == old(self).sealed@[i]);
                                assert(self.read_index@[i] == old(self).read_index@[i]);
                            }
                        }
                    }
                },
                Some(Err(_)) => {
                    assert(false);
                },
                None => {},
            }
            if self.buffer.len() == 0 {
                self.counter = self.counter + 1;
                proof {
                    if !self.prefixed@ {
                        assert(self.handed_out@ + self.buffer@ == self.sealed@.flatten_alt());
                    }
                }
                return Vec::new();
            }
            if self.counter == 0 {
                self.chunk_size = self.buffer.len();
                let mut size = size_field(self.chunk_size);
                size.append(&mut self.buffer);
                self.buffer = size;
                proof {
                    assert(self.sealed@.len() == 1);
                    assert(self.sealed@.flatten_alt() =~= self.sealed@[0]) by {
                        assert(self.sealed@.drop_last() =~= Seq::<Seq<u8>>::empty());
                    }
                    self.prefixed@ = true;
                    assert(self.handed_out@ + self.buffer@ =~= stream_bytes(true, self.sealed@));
                }
            }
        }
        let n = if requested < self.buffer.len() { requested } else { self.buffer.len() };
        let ghost whole = self.buffer@;
        let mut out = self.buffer.split_off(n);
        core::mem::swap(&mut out, &mut self.buffer);
        self.counter = self.counter + 1;
        proof {
            assert(out@ + self.buffer@ =~= whole);
            let before = self.handed_out@;
            self.handed_out@ = self.handed_out@ + out@;
            assert(self.handed_out@ + self.buffer@ =~= before + (out@ + self.buffer@));
        }
        out
    }
}

} // verus!

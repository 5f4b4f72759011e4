use vstd::prelude::*;
use core::marker::PhantomData;
use crate::crypto::{Crypto, MAX_PLAINTEXT_LEN, TAG_SIZE, encrypt_chunk};
use crate::error::CtbError;
use crate::file_format::{
    EncryptionFileHeader, ENCRYPTED_FILE_VERSION, file_prefix, frame, frames_bytes, header_bytes,
    lemma_frames_bytes_push, repeat_bytes, u16_le, write_context,
};
use vstd::utf8::encode_utf8;
use crate::nonce::{counter_nonce, increase_bytes_le, lemma_counter_nonce_step, lemma_zero_nonce};

verus! {

/// `sealed` is chunk number `index` of `plain`, sealed under `key` with the
/// nonce of that index, and opens back to it.
pub open spec fn chunk_sealed<C: Crypto>(key: Seq<u8>, index: nat, plain: Seq<u8>, sealed: Seq<u8>) -> bool {
    &&& sealed == C::seal(key, counter_nonce(index, C::nonce_len()), plain)
    &&& C::open(key, counter_nonce(index, C::nonce_len()), sealed) == Some(plain)
    &&& sealed.len() == plain.len() + TAG_SIZE
}

/// Produces an encrypted file from plaintext chunks that the caller reads:
/// the header first, then each chunk sealed under the next nonce behind a
/// separator; bytes are handed out in the sizes asked for.
pub struct EncryptedFileGenerator<C: Crypto> {
    header: EncryptionFileHeader,
    key: Vec<u8>,
    buffer: Vec<u8>,
    nonce: Vec<u8>,
    chunk_counter: u32,
    chunk_size: usize,
    handed_out: Ghost<Seq<u8>>,
    header_copies: Ghost<nat>,
    plain: Ghost<Seq<Seq<u8>>>,
    sealed: Ghost<Seq<Seq<u8>>>,
    cipher: PhantomData<C>,
}

impl<C: Crypto> EncryptedFileGenerator<C> {
    /// The data key that chunks are sealed under.
    pub closed spec fn key_bytes(&self) -> Seq<u8> {
        self.key@
    }

    /// The header's JSON text as bytes.
    pub closed spec fn header_text(&self) -> Seq<u8> {
        header_bytes(self.header)
    }

    /// How many plaintext bytes a chunk holds at most.
    pub closed spec fn chunk_limit(&self) -> nat {
        self.chunk_size as nat
    }

    /// Every byte produced so far: those handed out, then those pending.
    pub closed spec fn output(&self) -> Seq<u8> {
        self.handed_out@ + self.buffer@
    }

    /// Bytes produced but not yet handed out.
    pub closed spec fn pending(&self) -> Seq<u8> {
        self.buffer@
    }

    /// Bytes already handed out.
    pub closed spec fn handed(&self) -> Seq<u8> {
        self.handed_out@
    }

    /// How many times the header has been written.
    pub closed spec fn header_copies(&self) -> nat {
        self.header_copies@
    }

    /// The plaintext chunks sealed so far, in order.
    pub closed spec fn plain_chunks(&self) -> Seq<Seq<u8>> {
        self.plain@
    }

    /// The sealed chunks written so far, in order.
    pub closed spec fn sealed_chunks(&self) -> Seq<Seq<u8>> {
        self.sealed@
    }

    /// What every operation keeps: the output is the header, written
    /// `header_copies` times, followed by the frames of the sealed chunks, and
    /// each sealed chunk is its plaintext chunk sealed under the nonce of its index.
    pub closed spec fn wf(&self) -> bool {
        &&& self.key@.len() == C::key_len()
        &&& self.nonce@ == counter_nonce(self.sealed@.len(), C::nonce_len())
        &&& self.nonce@.len() == C::nonce_len()
        &&& self.chunk_counter as nat == self.sealed@.len()
        &&& self.plain@.len() == self.sealed@.len()
        &&& forall|i: int|
            0 <= i < self.sealed@.len() ==> {
                &&& chunk_sealed::<C>(self.key@, i as nat, #[trigger] self.plain@[i], self.sealed@[i])
                &&& 0 < self.plain@[i].len() <= self.chunk_size
            }
        &&& self.handed_out@ + self.buffer@ == repeat_bytes(file_prefix(header_bytes(self.header)), self.header_copies@)
            + frames_bytes(self.sealed@)
    }

    /// What `wf` says, for use outside this module.
    pub proof fn lemma_wf(&self)
        requires
            self.wf(),
        ensures
            self.key_bytes().len() == C::key_len(),
            self.plain_chunks().len() == self.sealed_chunks().len(),
            forall|i: int|
                0 <= i < self.sealed_chunks().len() ==> {
                    &&& chunk_sealed::<C>(self.key_bytes(), i as nat, #[trigger] self.plain_chunks()[i], self.sealed_chunks()[i])
                    &&& 0 < self.plain_chunks()[i].len() <= self.chunk_limit()
                },
            self.output() == repeat_bytes(file_prefix(self.header_text()), self.header_copies())
                + frames_bytes(self.sealed_chunks()),
    {
    }

    /// A generator for `header`, sealing under `key`, that has produced nothing yet.
    pub fn new(key: Vec<u8>, header: EncryptionFileHeader) -> (r: Self)
        requires
            key@.len() == C::key_len(),
        ensures
            r.wf(),
            r.key_bytes() == key@,
            r.header_text() == header_bytes(header),
            r.chunk_limit() == header.chunk_size as usize as nat,
            r.output() == Seq::<u8>::empty(),
            r.handed() == Seq::<u8>::empty(),
            r.header_copies() == 0,
            r.plain_chunks() == Seq::<Seq<u8>>::empty(),
            r.sealed_chunks() == Seq::<Seq<u8>>::empty(),
    {
        let chunk_size = header.chunk_size as usize;
        let nonce = vec![0u8; C::nonce_size()];
        proof {
            lemma_zero_nonce(nonce@);
        }
        let r = EncryptedFileGenerator {
            header,
            buffer: Vec::new(),
            chunk_counter: 0,
            key,
            nonce,
            chunk_size,
            handed_out: Ghost(Seq::empty()),
            header_copies: Ghost(0),
            plain: Ghost(Seq::empty()),
            sealed: Ghost(Seq::empty()),
            cipher: PhantomData,
        };
        assert(r.handed_out@ + r.buffer@ =~= repeat_bytes(file_prefix(header_bytes(r.header)), 0)
            + frames_bytes(Seq::<Seq<u8>>::empty()));
        r
    }

    /// Writes the version byte and the header, behind its length, before any chunk.
    fn append_header(&mut self) -> (r: Result<(), CtbError>)
        requires
            old(self).wf(),
            old(self).sealed_chunks().len() == 0,
        ensures
            final(self).wf(),
            r is Ok,
            final(self).output() == old(self).output() + file_prefix(old(self).header_text()),
            final(self).handed() == old(self).handed(),
            final(self).header_copies() == old(self).header_copies() + 1,
            final(self).header_text() == old(self).header_text(),
            final(self).key_bytes() == old(self).key_bytes(),
            final(self).chunk_limit() == old(self).chunk_limit(),
            final(self).plain_chunks() == old(self).plain_chunks(),
            final(self).sealed_chunks() == old(self).sealed_chunks(),
    {
        self.buffer.push(ENCRYPTED_FILE_VERSION);
        let header = match self.header.to_json() {
            Ok(h) => h,
            Err(e) => return Err(e),
        };
        self.write_context(&header);
        proof {
            self.header_copies@ = self.header_copies@ + 1;
            let p = file_prefix(header_bytes(self.header));
            assert(encode_utf8(header@) == header_bytes(self.header));
            assert(frames_bytes(self.sealed@) =~= Seq::<u8>::empty());
            assert(self.handed_out@ + self.buffer@ =~= old(self).output() + p);
            assert(repeat_bytes(p, self.header_copies@) == repeat_bytes(p, old(self).header_copies()) + p);
            assert(self.handed_out@ + self.buffer@ =~= repeat_bytes(p, self.header_copies@) + frames_bytes(self.sealed@));
        }
        Ok(())
    }

    /// Appends the header text behind its length to the pending bytes.
    fn write_context(&mut self, context: &String)
        ensures
            final(self).buffer@ == old(self).buffer@ + u16_le(encode_utf8(context@).len() % 65536) + encode_utf8(context@),
            final(self).header == old(self).header,
            final(self).key == old(self).key,
            final(self).nonce == old(self).nonce,
            final(self).chunk_counter == old(self).chunk_counter,
            final(self).chunk_size == old(self).chunk_size,
            final(self).handed_out == old(self).handed_out,
            final(self).header_copies == old(self).header_copies,
            final(self).plain == old(self).plain,
            final(self).sealed == old(self).sealed,
    {
        write_context(&mut self.buffer, context.as_str());
    }

    /// Starts a read: before the first chunk, the header is written (again).
    pub fn begin_read(&mut self) -> (r: Result<(), CtbError>)
        requires
            old(self).wf(),
        ensures
            final(self).wf(),
            r is Ok,
            old(self).sealed_chunks().len() == 0 ==> {
                &&& final(self).output() == old(self).output() + file_prefix(old(self).header_text())
                &&& final(self).header_copies() == old(self).header_copies() + 1
            },
            old(self).sealed_chunks().len() > 0 ==> {
                &&& final(self).output() == old(self).output()
                &&& final(self).header_copies() == old(self).header_copies()
            },
            final(self).handed() == old(self).handed(),
            final(self).header_text() == old(self).header_text(),
            final(self).key_bytes() == old(self).key_bytes(),
            final(self).chunk_limit() == old(self).chunk_limit(),
            final(self).plain_chunks() == old(self).plain_chunks(),
            final(self).sealed_chunks() == old(self).sealed_chunks(),
    {
        if self.chunk_counter == 0 {
            match self.append_header() {
                Ok(()) => {},
                Err(e) => return Err(e),
            }
        }
        Ok(())
    }

    /// Whether fewer bytes are pending than a read asks for.
    pub fn wants_chunk(&self, requested: usize) -> (r: bool)
        ensures
            r == (self.pending().len() < requested),
    {
        self.buffer.len() < requested
    }

    /// Seals what one read of the source gave: nothing for an empty read, the
    /// error for a failed one, otherwise the sealed chunk under the current nonce.
    pub fn read_bytes_encrypted(&self, read: Result<Vec<u8>, CtbError>) -> (r: Option<Result<Vec<u8>, CtbError>>)
        requires
            self.wf(),
        ensures
            match read {
                Err(e) => r == Some(Err::<Vec<u8>, CtbError>(e)),
                Ok(b) => if b@.len() == 0 {
                    r is None
                } else if b@.len() < MAX_PLAINTEXT_LEN {
                    r matches Some(Ok(c)) && chunk_sealed::<C>(self.key_bytes(), self.sealed_chunks().len(), b@, c@)
                } else {
                    r == Some(Err::<Vec<u8>, CtbError>(CtbError::Encryption))
                },
            },
    {
        match read {
            Ok(bytes) => {
                if bytes.len() > 0 {
                    Some(encrypt_chunk::<C>(&bytes, &self.key, &self.nonce))
                } else {
                    None
                }
            },
            Err(e) => Some(Err(e)),
        }
    }

    /// The most bytes a chunk read from the source may hold.
    pub fn chunk_size(&self) -> (r: usize)
        ensures
            r == self.chunk_limit(),
    {
        self.chunk_size
    }

    /// Takes one read of the source: returns `Ok(true)` after sealing a chunk
    /// and writing it behind a separator, `Ok(false)` at the end of the
    /// source, and the error of a failed read or seal, leaving all as it was.
    pub fn push_read(&mut self, read: Result<Vec<u8>, CtbError>) -> (r: Result<bool, CtbError>)
        requires
            old(self).wf(),
            old(self).sealed_chunks().len() < u32::MAX,
            read matches Ok(b) ==> b@.len() <= old(self).chunk_limit(),
        ensures
            final(self).wf(),
            final(self).handed() == old(self).handed(),
            final(self).header_copies() == old(self).header_copies(),
            final(self).header_text() == old(self).header_text(),
            final(self).key_bytes() == old(self).key_bytes(),
            final(self).chunk_limit() == old(self).chunk_limit(),
            match read {
                Err(e) => r == Err::<bool, CtbError>(e) && final(self).output() == old(self).output()
                    && final(self).sealed_chunks() == old(self).sealed_chunks()
                    && final(self).plain_chunks() == old(self).plain_chunks(),
                Ok(b) => if b@.len() == 0 {
                    r == Ok::<bool, CtbError>(false) && final(self).output() == old(self).output()
                        && final(self).sealed_chunks() == old(self).sealed_chunks()
                        && final(self).plain_chunks() == old(self).plain_chunks()
                } else if b@.len() < MAX_PLAINTEXT_LEN {
                    let c = C::seal(old(self).key_bytes(), counter_nonce(old(self).sealed_chunks().len(), C::nonce_len()), b@);
                    &&& r == Ok::<bool, CtbError>(true)
                    &&& final(self).plain_chunks() == old(self).plain_chunks().push(b@)
                    &&& final(self).sealed_chunks() == old(self).sealed_chunks().push(c)
                    &&& final(self).output() == old(self).output() + frame(c)
                } else {
                    r == Err::<bool, CtbError>(CtbError::Encryption) && final(self).output() == old(self).output()
                        && final(self).sealed_chunks() == old(self).sealed_chunks()
                        && final(self).plain_chunks() == old(self).plain_chunks()
                },
            },
    {
        let ghost plain_chunk = if read is Ok { read->Ok_0@ } else { Seq::<u8>::empty() };
        match self.read_bytes_encrypted(read) {
            Some(Ok(mut sealed)) => {
                let ghost c = sealed@;
                let ghost k = self.sealed@.len();
                self.buffer.push(0u8);
                self.buffer.push(0u8);
                self.buffer.push(0u8);
                self.buffer.push(0u8);
                self.buffer.append(&mut sealed);
                self.chunk_counter = self.chunk_counter + 1;
                let ghost old_nonce = self.nonce@;
                increase_bytes_le(&mut self.nonce);
                proof {
                    lemma_counter_nonce_step(old_nonce, self.nonce@, k);
                    lemma_frames_bytes_push(self.sealed@, c);
                    self.plain@ = self.plain@.push(plain_chunk);
                    self.sealed@ = self.sealed@.push(c);
                    assert(self.handed_out@ + self.buffer@ =~= old(self).output() + frame(c));
                    let rep = repeat_bytes(file_prefix(header_bytes(self.header)), self.header_copies@);
                    assert(old(self).output() == rep + frames_bytes(old(self).sealed@));
                    assert(frames_bytes(self.sealed@) == frames_bytes(old(self).sealed@) + frame(c));
                    assert(self.handed_out@ + self.buffer@ =~= rep + frames_bytes(self.sealed@));
                    assert forall|i: int| 0 <= i < self.sealed@.len() implies {
                        &&& chunk_sealed::<C>(self.key@, i as nat, #[trigger] self.plain@[i], self.sealed@[i])
                        &&& 0 < self.plain@[i].len() <= self.chunk_size
                    } by {
                        if i < k {
                            assert(self.plain@[i] == old(self).plain@[i]);
                            assert(self.sealed@[i] == old(self).sealed@[i]);
                        }
                    }
                }
                Ok(true)
            },
            Some(Err(e)) => Err(e),
            None => Ok(false),
        }
    }

    /// Hands out the pending bytes, as many as asked for and as there are.
    pub fn finish_read(&mut self, requested: usize) -> (r: Vec<u8>)
        requires
            old(self).wf(),
        ensures
            final(self).wf(),
            ({
                let n = if requested < old(self).pending().len() { requested as int } else { old(self).pending().len() as int };
                &&& r@ == old(self).pending().take(n)
                &&& final(self).pending() == old(self).pending().skip(n)
            }),
            final(self).handed() == old(self).handed() + r@,
            final(self).output() == old(self).output(),
            final(self).header_copies() == old(self).header_copies(),
            final(self).header_text() == old(self).header_text(),
            final(self).key_bytes() == old(self).key_bytes(),
            final(self).chunk_limit() == old(self).chunk_limit(),
            final(self).plain_chunks() == old(self).plain_chunks(),
            final(self).sealed_chunks() == old(self).sealed_chunks(),
    {
        let n = if requested < self.buffer.len() { requested } else { self.buffer.len() };
        let mut out = self.buffer.split_off(n);
        core::mem::swap(&mut out, &mut self.buffer);
        proof {
            self.handed_out@ = self.handed_out@ + out@;
            assert(self.handed_out@ + self.buffer@ =~= old(self).output());
            assert(out@ =~= old(self).pending().take(n as int));
            assert(self.buffer@ =~= old(self).pending().skip(n as int));
        }
        out
    }
}

} // verus!

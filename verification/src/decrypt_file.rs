use vstd::prelude::*;
use core::marker::PhantomData;
use crate::crypto::{Crypto, TAG_SIZE, decrypt_chunk};
use crate::error::CtbError;
use crate::file_format::{parse_chunk_header, read_chunk_header};
use crate::nonce::{counter_nonce, increase_bytes_le, lemma_counter_nonce_step, lemma_zero_nonce};

verus! {

/// The plaintext that the chunks following a file's header open to, read as
/// the decryptor reads them from a source that gives all it is asked for: a
/// separator (nothing at the end of the source), then up to `frame_len`
/// bytes, opened under the nonce of its index; `None` where a separator is
/// malformed or a chunk does not authenticate.
pub open spec fn decrypt_body<C: Crypto>(key: Seq<u8>, body: Seq<u8>, frame_len: nat, index: nat) -> Option<Seq<u8>>
    decreases body.len(),
{
    match parse_chunk_header(body) {
        Err(_) => None,
        Ok(h) => {
            let rest = body.skip(h as int);
            let n = if frame_len < rest.len() { frame_len } else { rest.len() };
            if n == 0 || h > body.len() {
                Some(Seq::empty())
            } else {
                match C::open(key, counter_nonce(index, C::nonce_len()), rest.take(n as int)) {
                    None => None,
                    Some(p) => match decrypt_body::<C>(key, rest.skip(n as int), frame_len, index + 1) {
                        Some(q) => Some(p + q),
                        None => None,
                    },
                }
            }
        },
    }
}

/// A chunk read that succeeded with no bytes: the end of the source.
pub open spec fn is_end_of_source(chunk: Option<&[u8]>) -> bool {
    match chunk {
        Some(b) => b@.len() == 0,
        None => false,
    }
}

/// Recovers the plaintext of an encrypted file from its chunks, which the
/// caller reads after the header: each chunk is opened under the next nonce,
/// and the plaintext is handed out in the sizes asked for.
pub struct ReaderDecryptor<C: Crypto> {
    key: Vec<u8>,
    nonce: Vec<u8>,
    buffer: Vec<u8>,
    chunk_size: usize,
    chunk_counter: usize,
    handed_out: Ghost<Seq<u8>>,
    opened: Ghost<Seq<Seq<u8>>>,
    frames: Ghost<Seq<Seq<u8>>>,
    cipher: PhantomData<C>,
}

impl<C: Crypto> ReaderDecryptor<C> {
    /// The data key that chunks are opened with.
    pub closed spec fn key_bytes(&self) -> Seq<u8> {
        self.key@
    }

    /// How many sealed bytes a chunk read asks for; zero before the header is read.
    pub closed spec fn frame_len(&self) -> nat {
        self.chunk_size as nat
    }

    /// How many chunk reads were taken, failed ones included.
    pub closed spec fn chunk_count(&self) -> nat {
        self.chunk_counter as nat
    }

    /// Plaintext recovered but not yet handed out.
    pub closed spec fn pending(&self) -> Seq<u8> {
        self.buffer@
    }

    /// Plaintext already handed out.
    pub closed spec fn handed(&self) -> Seq<u8> {
        self.handed_out@
    }

    /// The plaintext of each chunk opened so far, in order.
    pub closed spec fn opened_chunks(&self) -> Seq<Seq<u8>> {
        self.opened@
    }

    /// The sealed chunks opened so far, in order.
    pub closed spec fn sealed_chunks(&self) -> Seq<Seq<u8>> {
        self.frames@
    }

    /// What every operation keeps: chunk `i` opened under the nonce of index
    /// `i`, and the plaintext handed out and pending is all of it, in order.
    pub closed spec fn wf(&self) -> bool {
        &&& self.key@.len() == C::key_len()
        &&& self.nonce@ == counter_nonce(self.frames@.len(), C::nonce_len())
        &&& self.nonce@.len() == C::nonce_len()
        &&& self.opened@.len() == self.frames@.len()
        &&& self.frames@.len() <= self.chunk_counter
        &&& forall|i: int|
            0 <= i < self.frames@.len() ==> C::open(self.key@, counter_nonce(i as nat, C::nonce_len()), #[trigger] self.frames@[i])
                == Some(self.opened@[i])
        &&& self.handed_out@ + self.buffer@ == self.opened@.flatten_alt()
    }

    /// What `wf` says, for use outside this module.
    pub proof fn lemma_wf(&self)
        requires
            self.wf(),
        ensures
            self.key_bytes().len() == C::key_len(),
            self.opened_chunks().len() == self.sealed_chunks().len(),
            forall|i: int|
                0 <= i < self.sealed_chunks().len() ==> C::open(
                    self.key_bytes(),
                    counter_nonce(i as nat, C::nonce_len()),
                    #[trigger] self.sealed_chunks()[i],
                ) == Some(self.opened_chunks()[i]),
            self.handed() + self.pending() == self.opened_chunks().flatten_alt(),
    {
    }

    /// A decryptor for chunks sealed under `key`, before the header is read.
    pub fn new(key: Vec<u8>) -> (r: Self)
        requires
            key@.len() == C::key_len(),
        ensures
            r.wf(),
            r.key_bytes() == key@,
            r.frame_len() == 0,
            r.chunk_count() == 0,
            r.pending() == Seq::<u8>::empty(),
            r.handed() == Seq::<u8>::empty(),
            r.opened_chunks() == Seq::<Seq<u8>>::empty(),
            r.sealed_chunks() == Seq::<Seq<u8>>::empty(),
    {
        let nonce = vec![0u8; C::nonce_size()];
        proof {
            lemma_zero_nonce(nonce@);
        }
        ReaderDecryptor {
            key,
            nonce,
            buffer: Vec::new(),
            chunk_size: 0,
            chunk_counter: 0,
            handed_out: Ghost(Seq::empty()),
            opened: Ghost(Seq::empty()),
            frames: Ghost(Seq::empty()),
            cipher: PhantomData,
        }
    }

    /// Whether the header is still to be read.
    pub fn needs_header(&self) -> (r: bool)
        ensures
            r == (self.frame_len() == 0),
    {
        self.chunk_size == 0
    }

    /// How many sealed bytes a chunk read asks for.
    pub fn chunk_read_len(&self) -> (r: usize)
        ensures
            r == self.frame_len(),
    {
        self.chunk_size
    }

    /// Takes the header's chunk size: a chunk read asks for that many bytes and the tag.
    pub fn set_header_chunk_size(&mut self, chunk_size: u64)
        requires
            old(self).wf(),
            chunk_size as usize as int + TAG_SIZE <= usize::MAX,
        ensures
            final(self).wf(),
            final(self).frame_len() == chunk_size as usize + TAG_SIZE,
            final(self).key_bytes() == old(self).key_bytes(),
            final(self).chunk_count() == old(self).chunk_count(),
            final(self).pending() == old(self).pending(),
            final(self).handed() == old(self).handed(),
            final(self).opened_chunks() == old(self).opened_chunks(),
            final(self).sealed_chunks() == old(self).sealed_chunks(),
    {
        self.chunk_size = chunk_size as usize + TAG_SIZE;
    }

    /// Whether less plaintext is pending than a read asks for.
    pub fn wants_chunk(&self, requested: usize) -> (r: bool)
        ensures
            r == (self.pending().len() < requested),
    {
        self.buffer.len() < requested
    }

    /// Takes one chunk: what a read of its separator gave, and what the read
    /// of its sealed bytes gave (`None` where that read failed, which counts
    /// as no bytes). Returns `Ok(false)` at the end of the source, `Ok(true)`
    /// after opening the chunk, and an error for a malformed separator or a
    /// chunk that does not authenticate.
    pub fn accept_chunk(&mut self, chunk_header: &[u8], chunk: Option<&[u8]>) -> (r: Result<bool, CtbError>)
        requires
            old(self).wf(),
            old(self).chunk_count() < usize::MAX,
        ensures
            final(self).wf(),
            final(self).key_bytes() == old(self).key_bytes(),
            final(self).frame_len() == old(self).frame_len(),
            final(self).handed() == old(self).handed(),
            parse_chunk_header(chunk_header@) is Err ==> {
                &&& r == Err::<bool, CtbError>(parse_chunk_header(chunk_header@)->Err_0)
                &&& final(self).pending() == old(self).pending()
                &&& final(self).opened_chunks() == old(self).opened_chunks()
                &&& final(self).sealed_chunks() == old(self).sealed_chunks()
                &&& final(self).chunk_count() == old(self).chunk_count()
            },
            parse_chunk_header(chunk_header@) is Ok && is_end_of_source(chunk) ==> {
                &&& r == Ok::<bool, CtbError>(false)
                &&& final(self).pending() == old(self).pending()
                &&& final(self).opened_chunks() == old(self).opened_chunks()
                &&& final(self).sealed_chunks() == old(self).sealed_chunks()
                &&& final(self).chunk_count() == old(self).chunk_count()
            },
            parse_chunk_header(chunk_header@) is Ok && !is_end_of_source(chunk) ==> {
                let sealed = match chunk {
                    Some(b) => b@,
                    None => Seq::<u8>::empty(),
                };
                let nonce = counter_nonce(old(self).sealed_chunks().len(), C::nonce_len());
                &&& final(self).chunk_count() == old(self).chunk_count() + 1
                &&& match C::open(old(self).key_bytes(), nonce, sealed) {
                    Some(p) => {
                        &&& r == Ok::<bool, CtbError>(true)
                        &&& final(self).pending() == old(self).pending() + p
                        &&& final(self).opened_chunks() == old(self).opened_chunks().push(p)
                        &&& final(self).sealed_chunks() == old(self).sealed_chunks().push(sealed)
                    },
                    None => {
                        &&& r == Err::<bool, CtbError>(CtbError::Decryption)
                        &&& final(self).pending() == old(self).pending()
                        &&& final(self).opened_chunks() == old(self).opened_chunks()
                        &&& final(self).sealed_chunks() == old(self).sealed_chunks()
                    },
                }
            },
    {
        match read_chunk_header(chunk_header) {
            Ok(_) => {},
            Err(e) => return Err(e),
        }
        let empty: Vec<u8> = Vec::new();
        let sealed: &[u8] = match chunk {
            Some(b) => {
                if b.len() == 0 {
                    return Ok(false);
                }
                b
            },
            None => empty.as_slice(),
        };
        self.chunk_counter = self.chunk_counter + 1;
        let sealed_vec = vstd::slice::slice_to_vec(sealed);
        let mut plain = match decrypt_chunk::<C>(&sealed_vec, &self.key, &self.nonce) {
            Ok(p) => p,
            Err(e) => return Err(e),
        };
        let ghost p = plain@;
        let ghost k = self.frames@.len();
        self.buffer.append(&mut plain);
        let ghost old_nonce = self.nonce@;
        increase_bytes_le(&mut self.nonce);
        proof {
            lemma_counter_nonce_step(old_nonce, self.nonce@, k);
            let old_opened = self.opened@;
            self.opened@ = self.opened@.push(p);
            self.frames@ = self.frames@.push(sealed@);
            assert(self.opened@.drop_last() =~= old_opened);
            assert(self.handed_out@ + self.buffer@ =~= self.opened@.flatten_alt());
            assert forall|i: int| 0 <= i < self.frames@.len() implies C::open(
                self.key@,
                counter_nonce(i as nat, C::nonce_len()),
                #[trigger] self.frames@[i],
            ) == Some(self.opened@[i]) by {
                if i < k {
                    assert(self.frames@[i] == old(self).frames@[i]);
                    assert(self.opened@[i] == old(self).opened@[i]);
                }
            }
        }
        Ok(true)
    }

    /// Hands out the pending plaintext, as much as asked for and as there is.
    pub fn take(&mut self, requested: usize) -> (r: Vec<u8>)
        requires
            old(self).wf(),
        ensures
            final(self).wf(),
            ({
                let n = if requested < old(self).pending().len() { requested as int } else { old(self).pending().len() as int };
                &&& r@ == old(self).pending().take(n)
                &&& final(self).pending() == old(self).pending().skip(n)
            }),
            final(self).handed() == old(self).handed() + r@,
            final(self).key_bytes() == old(self).key_bytes(),
            final(self).frame_len() == old(self).frame_len(),
            final(self).chunk_count() == old(self).chunk_count(),
            final(self).opened_chunks() == old(self).opened_chunks(),
            final(self).sealed_chunks() == old(self).sealed_chunks(),
    {
        let n = if requested < self.buffer.len() { requested } else { self.buffer.len() };
        let mut out = self.buffer.split_off(n);
        core::mem::swap(&mut out, &mut self.buffer);
        proof {
            self.handed_out@ = self.handed_out@ + out@;
            assert(self.handed_out@ + self.buffer@ =~= old(self).handed_out@ + old(self).buffer@);
            assert(out@ =~= old(self).pending().take(n as int));
            assert(self.buffer@ =~= old(self).pending().skip(n as int));
        }
        out
    }
}

} // verus!

use vstd::prelude::*;
use core::marker::PhantomData;
use crate::bignum::le_bytes_to_u64;
use crate::bytes::{byte_radix_pow, le_value, lemma_le_value_bound, lemma_radix_pow_monotone};
use crate::crypto::Crypto;
use crate::error::CtbError;
use crate::nonce::increase_bytes_le;

verus! {

/// Opens a stream of sealed chunks that opens with a four-byte little-endian
/// chunk size: each chunk follows a four-byte separator, whose content is not
/// looked at, and is opened under the current nonce, which then advances by
/// one as a little-endian counter. The caller reads; this decides.
pub struct ChunkStreamDecryptor<C: Crypto> {
    key: Vec<u8>,
    nonce: Vec<u8>,
    buffer: Vec<u8>,
    chunk_size: usize,
    handed_out: Ghost<Seq<u8>>,
    cipher: PhantomData<C>,
}

impl<C: Crypto> ChunkStreamDecryptor<C> {
    pub closed spec fn key_bytes(&self) -> Seq<u8> {
        self.key@
    }

    /// The nonce the next chunk is opened under.
    pub closed spec fn nonce_bytes(&self) -> Seq<u8> {
        self.nonce@
    }

    /// Plaintext opened but not yet handed out.
    pub closed spec fn pending(&self) -> Seq<u8> {
        self.buffer@
    }

    /// Plaintext handed out so far.
    pub closed spec fn handed(&self) -> Seq<u8> {
        self.handed_out@
    }

    /// How many bytes a chunk read takes; zero until the size field is read.
    pub closed spec fn frame_len(&self) -> nat {
        self.chunk_size as nat
    }

    pub closed spec fn wf(&self) -> bool {
        &&& self.key@.len() == C::key_len()
        &&& self.nonce@.len() == C::nonce_len()
    }

    pub fn new(key: Vec<u8>, nonce: Vec<u8>) -> (r: Self)
        requires
            key@.len() == C::key_len(),
            nonce@.len() == C::nonce_len(),
        ensures
            r.wf(),
            r.key_bytes() == key@,
            r.nonce_bytes() == nonce@,
            r.pending() == Seq::<u8>::empty(),
            r.handed() == Seq::<u8>::empty(),
            r.frame_len() == 0,
    {
        ChunkStreamDecryptor {
            key,
            nonce,
            buffer: Vec::new(),
            chunk_size: 0,
            handed_out: Ghost(Seq::empty()),
            cipher: PhantomData,
        }
    }

    /// Whether the chunk size is still to be read: it is read while it is zero.
    pub fn needs_size(&self) -> (r: bool)
        ensures
            r == (self.frame_len() == 0),
    {
        self.chunk_size == 0
    }

    /// Takes the bytes read for the size field as the chunk size, their
    /// little-endian value. Four bytes or fewer always give a size; longer
    /// fields give one only where the value fits in a `u64` and a `usize`,
    /// and otherwise `SizeMismatch`, leaving all as it was.
    pub fn accept_size_field(&mut self, read: &[u8]) -> (r: Result<(), CtbError>)
        requires
            old(self).wf(),
        ensures
            final(self).wf(),
            final(self).key_bytes() == old(self).key_bytes(),
            final(self).nonce_bytes() == old(self).nonce_bytes(),
            final(self).pending() == old(self).pending(),
            final(self).handed() == old(self).handed(),
            r is Ok <==> (le_value(read@) <= u64::MAX && le_value(read@) <= usize::MAX),
            read@.len() <= 4 ==> r is Ok,
            r is Ok ==> final(self).frame_len() == le_value(read@),
            r is Err ==> final(self).frame_len() == old(self).frame_len() && r == Err::<(), CtbError>(CtbError::SizeMismatch),
    {
        proof {
            if read@.len() <= 4 {
                lemma_le_value_bound(read@);
                lemma_radix_pow_monotone(read@.len(), 4);
                assert(byte_radix_pow(0) == 1);
                assert(byte_radix_pow(1) == 256);
                assert(byte_radix_pow(2) == 65536);
                assert(byte_radix_pow(3) == 16777216);
                assert(byte_radix_pow(4) == 4294967296);
            }
        }
        match le_bytes_to_u64(read) {
            Some(v) => {
                if v <= usize::MAX as u64 {
                    self.chunk_size = v as usize;
                    Ok(())
                } else {
                    Err(CtbError::SizeMismatch)
                }
            },
            None => Err(CtbError::SizeMismatch),
        }
    }

    /// Whether fewer bytes are pending than a read asks for.
    pub fn wants_chunk(&self, requested: usize) -> (r: bool)
        ensures
            r == (self.pending().len() < requested),
    {
        self.buffer.len() < requested
    }

    /// How many bytes to read for the next chunk.
    pub fn chunk_read_len(&self) -> (r: usize)
        ensures
            r == self.frame_len(),
    {
        self.chunk_size
    }

    /// Takes what the read of one chunk gave, after its separator: `None`
    /// for a failed read. An empty read is the end of the stream
    /// (`Ok(false)`). Otherwise the bytes are opened under the current nonce:
    /// the plaintext joins the pending bytes and the nonce advances by one
    /// (`Ok(true)`); bytes that do not authenticate, and a failed read, give
    /// `Decryption` and leave all as it was.
    pub fn accept_chunk(&mut self, chunk: Option<&[u8]>) -> (r: Result<bool, CtbError>)
        requires
            old(self).wf(),
        ensures
            final(self).wf(),
            final(self).key_bytes() == old(self).key_bytes(),
            final(self).frame_len() == old(self).frame_len(),
            final(self).handed() == old(self).handed(),
            match chunk {
                Some(b) if b@.len() == 0 => {
                    &&& r == Ok::<bool, CtbError>(false)
                    &&& final(self).pending() == old(self).pending()
                    &&& final(self).nonce_bytes() == old(self).nonce_bytes()
                },
                Some(b) => match C::open(old(self).key_bytes(), old(self).nonce_bytes(), b@) {
                    Some(p) => {
                        &&& r == Ok::<bool, CtbError>(true)
                        &&& final(self).pending() == old(self).pending() + p
                        &&& final(self).nonce_bytes().len() == old(self).nonce_bytes().len()
                        &&& le_value(final(self).nonce_bytes())
                            == (le_value(old(self).nonce_bytes()) + 1) % byte_radix_pow(old(self).nonce_bytes().len())
                    },
                    None => {
                        &&& r == Err::<bool, CtbError>(CtbError::Decryption)
                        &&& final(self).pending() == old(self).pending()
                        &&& final(self).nonce_bytes() == old(self).nonce_bytes()
                    },
                },
                None => {
                    &&& r == Err::<bool, CtbError>(CtbError::Decryption)
                    &&& final(self).pending() == old(self).pending()
                    &&& final(self).nonce_bytes() == old(self).nonce_bytes()
                },
            },
    {
        let sealed: &[u8] = match chunk {
            Some(b) => {
                if b.len() == 0 {
                    return Ok(false);
                }
                b
            },
            None => return Err(CtbError::Decryption),
        };
        let mut plain = match C::decrypt(self.key.as_slice(), self.nonce.as_slice(), sealed) {
            Ok(p) => p,
            Err(e) => return Err(e),
        };
        self.buffer.append(&mut plain);
        increase_bytes_le(&mut self.nonce);
        Ok(true)
    }

    /// Hands out the pending plaintext, as much as asked for and as there is.
    pub fn take(&mut self, requested: usize) -> (r: Vec<u8>)
        requires
            old(self).wf(),
        ensures
            final(self).wf(),
            ({
                let n = if requested < old(self).pending().len() { requested as int } else { old(self).pending().len() as int };
                &&& r@ == old(self).pending().take(n)
                &&& final(self).pending() == old(self).pending().skip(n)
            }),
            final(self).handed() == old(self).handed() + r@,
            final(self).key_bytes() == old(self).key_bytes(),
            final(self).nonce_bytes() == old(self).nonce_bytes(),
            final(self).frame_len() == old(self).frame_len(),
    {
        let n = if requested < self.buffer.len() { requested } else { self.buffer.len() };
        let mut out = self.buffer.split_off(n);
        core::mem::swap(&mut out, &mut self.buffer);
        proof {
            self.handed_out@ = self.handed_out@ + out@;
            assert(out@ =~= old(self).pending().take(n as int));
            assert(self.buffer@ =~= old(self).pending().skip(n as int));
        }
        out
    }
}

} // verus!

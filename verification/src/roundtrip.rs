use vstd::prelude::*;
use crate::crypto::{Crypto, TAG_SIZE};
use crate::decrypt_file::{ReaderDecryptor, decrypt_body};
use crate::encrypt_file::{EncryptedFileGenerator, chunk_sealed};
use crate::error::CtbError;
use crate::bytes::byte_radix_pow;
use crate::nonce::{counter_nonce, lemma_counter_nonces_distinct};
use crate::file_format::{
    file_prefix, frame, frames_bytes, lemma_file_header_roundtrip, parse_chunk_header, parse_file_header,
    repeat_bytes, separator,
};

verus! {

/// Sealed chunks written one after another, each behind its separator, open
/// back, read frame by frame, to their plaintext chunks in order, as long as
/// every chunk but the last fills a whole frame.
pub proof fn lemma_frames_decrypt<C: Crypto>(
    key: Seq<u8>,
    plains: Seq<Seq<u8>>,
    sealed: Seq<Seq<u8>>,
    start: nat,
    frame_len: nat,
)
    requires
        plains.len() == sealed.len(),
        forall|i: int| 0 <= i < sealed.len() ==> chunk_sealed::<C>(key, (start + i) as nat, #[trigger] plains[i], sealed[i]),
        forall|i: int| 0 <= i < sealed.len() ==> 0 < #[trigger] sealed[i].len() <= frame_len,
        forall|i: int| 0 <= i < sealed.len() - 1 ==> #[trigger] sealed[i].len() == frame_len,
    ensures
        decrypt_body::<C>(key, frames_bytes(sealed), frame_len, start) == Some(plains.flatten()),
    decreases sealed.len(),
{
    let body = frames_bytes(sealed);
    if sealed.len() == 0 {
        assert(body.len() == 0);
        assert(parse_chunk_header(body) == Ok::<nat, CtbError>(0));
        assert(body.skip(0) =~= body);
    } else {
        let tail_s = sealed.drop_first();
        let tail_p = plains.drop_first();
        let s0 = sealed[0];
        let tail_bytes = frames_bytes(tail_s);
        assert(body == frame(s0) + tail_bytes);
        assert(body =~= separator() + (s0 + tail_bytes));
        assert(body.take(4) =~= separator());
        assert(parse_chunk_header(body) == Ok::<nat, CtbError>(4));
        let rest = body.skip(4);
        assert(rest =~= s0 + tail_bytes);
        let n = if frame_len < rest.len() { frame_len } else { rest.len() };
        if tail_s.len() == 0 {
            assert(tail_bytes.len() == 0);
            assert(n == s0.len());
        } else {
            assert(s0.len() == frame_len);
            assert(n == frame_len);
        }
        assert(rest.take(n as int) =~= s0);
        assert(rest.skip(n as int) =~= tail_bytes);
        assert(chunk_sealed::<C>(key, (start + 0) as nat, plains[0], sealed[0]));
        assert forall|i: int| 0 <= i < tail_s.len() implies chunk_sealed::<C>(
            key,
            ((start + 1) + i) as nat,
            #[trigger] tail_p[i],
            tail_s[i],
        ) by {
            assert(chunk_sealed::<C>(key, (start + (i + 1)) as nat, plains[i + 1], sealed[i + 1]));
        }
        assert forall|i: int| 0 <= i < tail_s.len() implies 0 < #[trigger] tail_s[i].len() <= frame_len by {
            assert(0 < sealed[i + 1].len() <= frame_len);
        }
        assert forall|i: int| 0 <= i < tail_s.len() - 1 implies #[trigger] tail_s[i].len() == frame_len by {
            assert(sealed[i + 1].len() == frame_len);
        }
        lemma_frames_decrypt::<C>(key, tail_p, tail_s, start + 1, frame_len);
        assert(plains.flatten() == plains.first() + tail_p.flatten());
    }
}

/// An encrypted file reads back: what the generator produced after writing
/// the header once starts with that header, which reads back exactly, and
/// the chunks behind it open, frame by frame under the nonces counted from
/// zero, to the plaintext chunks in the order they were read. This holds
/// where the header text is shorter than `65536` bytes and every chunk but
/// the last filled the chunk size.
pub proof fn lemma_encrypted_file_roundtrip<C: Crypto>(g: EncryptedFileGenerator<C>)
    requires
        g.wf(),
        g.header_copies() == 1,
        g.header_text().len() < 65536,
        forall|i: int| 0 <= i < g.plain_chunks().len() - 1 ==> #[trigger] g.plain_chunks()[i].len() == g.chunk_limit(),
    ensures
        parse_file_header(g.output()) == Ok::<(Seq<u8>, nat), CtbError>(
            (g.header_text(), 3 + g.header_text().len()),
        ),
        decrypt_body::<C>(
            g.key_bytes(),
            g.output().skip(3 + g.header_text().len() as int),
            (g.chunk_limit() + TAG_SIZE) as nat,
            0,
        ) == Some(g.plain_chunks().flatten()),
{
    g.lemma_wf();
    let p = file_prefix(g.header_text());
    let frames = frames_bytes(g.sealed_chunks());
    assert(repeat_bytes(p, 1) =~= p) by {
        assert(repeat_bytes(p, 0) =~= Seq::<u8>::empty());
    }
    assert(g.output() == p + frames);
    lemma_file_header_roundtrip(g.header_text(), frames);
    assert(p.len() == 3 + g.header_text().len());
    assert(g.output().skip(3 + g.header_text().len() as int) =~= frames);
    let frame_len = (g.chunk_limit() + TAG_SIZE) as nat;
    let sealed = g.sealed_chunks();
    let plains = g.plain_chunks();
    assert forall|i: int| 0 <= i < sealed.len() implies chunk_sealed::<C>(
        g.key_bytes(),
        (0 + i) as nat,
        #[trigger] plains[i],
        sealed[i],
    ) by {
        assert(chunk_sealed::<C>(g.key_bytes(), i as nat, plains[i], sealed[i]));
    }
    assert forall|i: int| 0 <= i < sealed.len() implies 0 < #[trigger] sealed[i].len() <= frame_len by {
        assert(chunk_sealed::<C>(g.key_bytes(), i as nat, plains[i], sealed[i]));
    }
    assert forall|i: int| 0 <= i < sealed.len() - 1 implies #[trigger] sealed[i].len() == frame_len by {
        assert(chunk_sealed::<C>(g.key_bytes(), i as nat, plains[i], sealed[i]));
        assert(plains[i].len() == g.chunk_limit());
    }
    lemma_frames_decrypt::<C>(g.key_bytes(), plains, sealed, 0, frame_len);
}

/// What a decryptor recovers from the chunks a generator sealed, under the
/// same key and in the same order, is exactly the plaintext the generator
/// was given: everything it handed out and still holds, in order.
pub proof fn lemma_decryptor_recovers_plaintext<C: Crypto>(g: EncryptedFileGenerator<C>, d: ReaderDecryptor<C>)
    requires
        g.wf(),
        d.wf(),
        d.key_bytes() == g.key_bytes(),
        d.sealed_chunks() == g.sealed_chunks(),
    ensures
        d.opened_chunks() == g.plain_chunks(),
        d.handed() + d.pending() == g.plain_chunks().flatten(),
{
    g.lemma_wf();
    d.lemma_wf();
    assert forall|i: int| 0 <= i < d.opened_chunks().len() implies d.opened_chunks()[i] == g.plain_chunks()[i] by {
        assert(chunk_sealed::<C>(g.key_bytes(), i as nat, g.plain_chunks()[i], g.sealed_chunks()[i]));
    }
    assert(d.opened_chunks() =~= g.plain_chunks());
    g.plain_chunks().lemma_flatten_and_flatten_alt_are_equivalent();
}

/// Within one encrypted file, chunk `i` is sealed under the nonce whose
/// little-endian value is `i`, so no two chunks share a nonce as long as
/// there are at most `256^nonce_len` of them.
pub proof fn lemma_chunk_nonces_distinct<C: Crypto>(g: EncryptedFileGenerator<C>, a: int, b: int)
    requires
        g.wf(),
        0 <= a < b < g.sealed_chunks().len(),
        g.sealed_chunks().len() <= byte_radix_pow(C::nonce_len()),
    ensures
        g.sealed_chunks()[a] == C::seal(g.key_bytes(), counter_nonce(a as nat, C::nonce_len()), g.plain_chunks()[a]),
        g.sealed_chunks()[b] == C::seal(g.key_bytes(), counter_nonce(b as nat, C::nonce_len()), g.plain_chunks()[b]),
        counter_nonce(a as nat, C::nonce_len()) != counter_nonce(b as nat, C::nonce_len()),
{
    g.lemma_wf();
    assert(chunk_sealed::<C>(g.key_bytes(), a as nat, g.plain_chunks()[a], g.sealed_chunks()[a]));
    assert(chunk_sealed::<C>(g.key_bytes(), b as nat, g.plain_chunks()[b], g.sealed_chunks()[b]));
    lemma_counter_nonces_distinct(a as nat, b as nat, C::nonce_len());
}

} // verus!

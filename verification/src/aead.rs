//! The AEAD construction: ChaCha20 for secrecy, Poly1305 over the associated
//! data and the ciphertext for authenticity, under a one-time key that the
//! cipher's block zero yields.

use crate::block::{Block, BLOCK_LEN};
use crate::chacha::{
    chacha20_xor_in_place, chacha20_xor_overlapping, Counter, CounterOrIv, Iv, NonceRef,
};
use crate::endian::le_bytes;
use crate::error::Unspecified;
use crate::{chacha, poly1305};
use vstd::prelude::*;

verus! {

/// An AEAD key: the key of the cipher.
pub type Key = chacha::Key;

/// A tag: sixteen bytes.
pub type Tag = poly1305::Tag;

/// What one call does to the buffer.
pub enum Direction {
    /// The buffer holds `in_prefix_len` bytes to drop, then the ciphertext.
    Opening { in_prefix_len: usize },
    /// The buffer holds the plaintext.
    Sealing,
}

/// The descriptor of an AEAD algorithm: its limits, and its three operations
/// under one interface.
#[derive(Clone, Copy, Debug, PartialEq, Eq)]
pub enum Algorithm {
    /// ChaCha20 with Poly1305.
    ChaCha20Poly1305,
}

/// ChaCha20-Poly1305 as RFC 7539 describes it. Keys have 256 bits, nonces 96.
pub const CHACHA20_POLY1305: Algorithm = Algorithm::ChaCha20Poly1305;

/// The most bytes that one nonce may serve: the block counter has 32 bits and
/// block zero makes the one-time key, which leaves `2^32 - 1` blocks of 64
/// bytes.
pub const MAX_INPUT_LEN: u64 = 274_877_906_880;

impl Algorithm {
    /// The length of a key, in bytes.
    pub fn key_len(&self) -> (len: usize)
        ensures
            len == 32,
    {
        match self {
            Algorithm::ChaCha20Poly1305 => chacha::KEY_LEN,
        }
    }

    /// The most bytes of associated data and plaintext together that one
    /// nonce may serve. The operations do not check it: the caller does.
    pub fn max_input_len(&self) -> (len: u64)
        ensures
            len == 274_877_906_880,
            len == (0x1_0000_0000 - 1) * 64,
    {
        match self {
            Algorithm::ChaCha20Poly1305 => MAX_INPUT_LEN,
        }
    }

    /// Makes a key of `key`, which must have the algorithm's key length.
    pub fn init(&self, key: &[u8]) -> (result: Result<Key, Unspecified>)
        ensures
            match result {
                Ok(made) => key@.len() == 32 && made@ == key@,
                Err(_) => key@.len() != 32,
            },
    {
        match self {
            Algorithm::ChaCha20Poly1305 => chacha20_poly1305_init(key),
        }
    }

    /// Encrypts `in_out` in place and gives the tag of the ciphertext and `ad`.
    pub fn seal(&self, key: &Key, nonce: NonceRef, ad: &[u8], in_out: &mut [u8]) -> (result: Result<
        Tag,
        Unspecified,
    >)
        ensures
            final(in_out)@.len() == old(in_out)@.len(),
            final(in_out)@ == sealed(key@, nonce@, old(in_out)@),
            result matches Ok(tag) && tag@.len() == 16 && tag@ == tag_of(
                key@,
                nonce@,
                ad@,
                final(in_out)@,
            ),
    {
        match self {
            Algorithm::ChaCha20Poly1305 => chacha20_poly1305_seal(key, nonce, ad, in_out),
        }
    }

    /// Gives the tag of the ciphertext behind the first `in_prefix_len` bytes
    /// of `in_out` and of `ad`, and decrypts it to the start of `in_out`.
    pub fn open(
        &self,
        key: &Key,
        nonce: NonceRef,
        ad: &[u8],
        in_prefix_len: usize,
        in_out: &mut [u8],
    ) -> (result: Result<Tag, Unspecified>)
        requires
            in_prefix_len <= old(in_out)@.len(),
        ensures
            final(in_out)@.len() == old(in_out)@.len(),
            final(in_out)@ == opened(key@, nonce@, old(in_out)@, in_prefix_len as int),
            result matches Ok(tag) && tag@.len() == 16 && tag@ == tag_of(
                key@,
                nonce@,
                ad@,
                ciphertext_of(old(in_out)@, in_prefix_len as int),
            ),
    {
        match self {
            Algorithm::ChaCha20Poly1305 => chacha20_poly1305_open(
                key,
                nonce,
                ad,
                in_prefix_len,
                in_out,
            ),
        }
    }
}

/// `n` zero bytes.
pub open spec fn zeros(n: nat) -> Seq<u8> {
    Seq::new(n, |i: int| 0u8)
}

/// The number of bytes that bring a length up to a multiple of sixteen.
pub open spec fn padding_len(len: nat) -> nat {
    ((16 - len % 16) % 16) as nat
}

/// `data`, with zero bytes behind it up to the next multiple of sixteen.
pub open spec fn pad16(data: Seq<u8>) -> Seq<u8> {
    data + zeros(padding_len(data.len()))
}

/// What the authenticator reads: the padded associated data, the padded
/// ciphertext, and the two lengths, eight bytes each.
pub open spec fn mac_data(aad: Seq<u8>, ciphertext: Seq<u8>) -> Seq<u8> {
    pad16(aad) + pad16(ciphertext) + le_bytes(aad.len(), 8) + le_bytes(ciphertext.len(), 8)
}

/// The authenticator's one-time key: the first half of the cipher's block zero.
pub open spec fn one_time_key(key: Seq<u8>, nonce: Seq<u8>) -> Seq<u8> {
    chacha::block(key, 0, nonce).subrange(0, 32)
}

/// The tag of a ciphertext and its associated data.
pub open spec fn tag_of(key: Seq<u8>, nonce: Seq<u8>, aad: Seq<u8>, ciphertext: Seq<u8>) -> Seq<
    u8,
> {
    poly1305::mac(one_time_key(key, nonce), mac_data(aad, ciphertext))
}

/// The ciphertext of `plaintext`: the keystream from block one on, XORed in.
pub open spec fn sealed(key: Seq<u8>, nonce: Seq<u8>, plaintext: Seq<u8>) -> Seq<u8> {
    chacha::xor_keystream(key, nonce, 1, plaintext)
}

/// The ciphertext in a buffer to open: what follows the prefix.
pub open spec fn ciphertext_of(in_out: Seq<u8>, in_prefix_len: int) -> Seq<u8> {
    in_out.skip(in_prefix_len)
}

/// What a buffer holds after opening: the plaintext from the start on, and
/// behind it the last `in_prefix_len` bytes as they were.
pub open spec fn opened(key: Seq<u8>, nonce: Seq<u8>, in_out: Seq<u8>, in_prefix_len: int) -> Seq<
    u8,
> {
    chacha::xor_keystream_overlapping(key, nonce, 1, in_out, in_prefix_len)
}

/// Padding is no operation on data whose length is a multiple of sixteen:
/// [`poly1305_update_padded_16`] then leaves the authenticator as
/// [`poly1305::Context::update_blocks`] alone leaves it, with the same key
/// and the same bytes read.
pub proof fn lemma_padding_is_no_op_on_whole_blocks(data: Seq<u8>)
    requires
        data.len() % 16 == 0,
    ensures
        pad16(data) == data,
{
}

/// The keystream XORed in twice leaves the data as it was.
pub proof fn lemma_xor_keystream_twice(key: Seq<u8>, nonce: Seq<u8>, counter: u32, data: Seq<u8>)
    ensures
        chacha::xor_keystream(key, nonce, counter, chacha::xor_keystream(key, nonce, counter, data))
            == data,
{
    let once = chacha::xor_keystream(key, nonce, counter, data);
    let twice = chacha::xor_keystream(key, nonce, counter, once);
    assert forall|i: int| 0 <= i < data.len() implies twice[i] == data[i] by {
        let x = data[i];
        let k = chacha::keystream_byte(key, nonce, counter, i);
        assert((x ^ k) ^ k == x) by (bit_vector);
    }
}

/// Opening what was sealed, with no prefix before it, gives the plaintext
/// back, and computes the tag that sealing gave.
pub proof fn lemma_open_inverts_seal(
    key: Seq<u8>,
    nonce: Seq<u8>,
    aad: Seq<u8>,
    plaintext: Seq<u8>,
)
    ensures
        opened(key, nonce, sealed(key, nonce, plaintext), 0) == plaintext,
        tag_of(key, nonce, aad, ciphertext_of(sealed(key, nonce, plaintext), 0)) == tag_of(
            key,
            nonce,
            aad,
            sealed(key, nonce, plaintext),
        ),
{
    let ciphertext = sealed(key, nonce, plaintext);
    lemma_xor_keystream_twice(key, nonce, 1, plaintext);
    assert(ciphertext.skip(0) =~= ciphertext);
}

/// Opening a buffer that holds a prefix and then what was sealed puts the
/// plaintext at the start of the buffer, whatever the prefix, keeps the
/// bytes behind the plaintext, and computes the tag that sealing gave.
pub proof fn lemma_open_with_prefix_inverts_seal(
    key: Seq<u8>,
    nonce: Seq<u8>,
    aad: Seq<u8>,
    prefix: Seq<u8>,
    plaintext: Seq<u8>,
)
    ensures
        opened(key, nonce, prefix + sealed(key, nonce, plaintext), prefix.len() as int)
            == plaintext + (prefix + sealed(key, nonce, plaintext)).skip(plaintext.len() as int),
        tag_of(
            key,
            nonce,
            aad,
            ciphertext_of(prefix + sealed(key, nonce, plaintext), prefix.len() as int),
        ) == tag_of(key, nonce, aad, sealed(key, nonce, plaintext)),
{
    let ciphertext = sealed(key, nonce, plaintext);
    let in_out = prefix + ciphertext;
    lemma_xor_keystream_twice(key, nonce, 1, plaintext);
    assert(in_out.skip(prefix.len() as int) =~= ciphertext);
}

/// What the authenticator has read, part by part and the two lengths as one
/// block, is the four parts in a row.
proof fn lemma_read_in_three_parts(a: Seq<u8>, b: Seq<u8>, c: Seq<u8>, d: Seq<u8>)
    ensures
        Seq::<u8>::empty() + a + b + (c + d) == a + b + c + d,
{
}

/// Makes a key of `key`, which must have thirty-two bytes.
pub fn chacha20_poly1305_init(key: &[u8]) -> (result: Result<Key, Unspecified>)
    ensures
        match result {
            Ok(made) => key@.len() == 32 && made@ == key@,
            Err(_) => key@.len() != 32,
        },
{
    if key.len() != chacha::KEY_LEN {
        return Err(Unspecified);
    }
    let mut bytes: [u8; 32] = [0u8; 32];
    let mut i: usize = 0;
    while i < 32
        invariant
            i <= 32,
            key@.len() == 32,
            forall|k: int| 0 <= k < i ==> bytes@[k] == key@[k],
        decreases 32 - i,
    {
        bytes[i] = key[i];
        i += 1;
    }
    Ok(Key::new(&bytes))
}

/// Encrypts `in_out` in place and gives the tag of the ciphertext and `ad`.
pub fn chacha20_poly1305_seal(key: &Key, nonce: NonceRef, ad: &[u8], in_out: &mut [u8]) -> (result:
    Result<Tag, Unspecified>)
    ensures
        final(in_out)@.len() == old(in_out)@.len(),
        final(in_out)@ == sealed(key@, nonce@, old(in_out)@),
        result matches Ok(tag) && tag@.len() == 16 && tag@ == tag_of(
            key@,
            nonce@,
            ad@,
            final(in_out)@,
        ),
{
    Ok(aead(key, nonce, ad, in_out, Direction::Sealing))
}

/// Gives the tag of the ciphertext that follows the first `in_prefix_len`
/// bytes of `in_out` and of `ad`, and decrypts that ciphertext to the start
/// of `in_out`. The caller compares the tag with the one received.
pub fn chacha20_poly1305_open(
    key: &Key,
    nonce: NonceRef,
    ad: &[u8],
    in_prefix_len: usize,
    in_out: &mut [u8],
) -> (result: Result<Tag, Unspecified>)
    requires
        in_prefix_len <= old(in_out)@.len(),
    ensures
        final(in_out)@.len() == old(in_out)@.len(),
        final(in_out)@ == opened(key@, nonce@, old(in_out)@, in_prefix_len as int),
        result matches Ok(tag) && tag@.len() == 16 && tag@ == tag_of(
            key@,
            nonce@,
            ad@,
            ciphertext_of(old(in_out)@, in_prefix_len as int),
        ),
{
    Ok(aead(key, nonce, ad, in_out, Direction::Opening { in_prefix_len }))
}

/// Seals or opens `in_out` in place, as `direction` says, and gives the tag.
///
/// Either way the tag is that of the ciphertext: sealing authenticates what
/// it has encrypted, opening what it is about to decrypt.
pub fn aead(key: &Key, nonce: NonceRef, ad: &[u8], in_out: &mut [u8], direction: Direction) -> (tag:
    Tag)
    requires
        direction matches Direction::Opening { in_prefix_len } ==> in_prefix_len <= old(
            in_out,
        )@.len(),
    ensures
        tag@.len() == 16,
        final(in_out)@.len() == old(in_out)@.len(),
        match direction {
            Direction::Opening { in_prefix_len } => {
                &&& final(in_out)@ == opened(key@, nonce@, old(in_out)@, in_prefix_len as int)
                &&& tag@ == tag_of(
                    key@,
                    nonce@,
                    ad@,
                    ciphertext_of(old(in_out)@, in_prefix_len as int),
                )
            },
            Direction::Sealing => {
                &&& final(in_out)@ == sealed(key@, nonce@, old(in_out)@)
                &&& tag@ == tag_of(key@, nonce@, ad@, final(in_out)@)
            },
        },
{
    let mut counter = Counter::zero(nonce);
    let mut ctx = {
        let key = derive_poly1305_key(key, counter.increment());
        poly1305::Context::from_key(key)
    };
    poly1305_update_padded_16(&mut ctx, ad);
    let ghost ciphertext: Seq<u8>;
    let in_out_len: usize = match direction {
        Direction::Opening { in_prefix_len } => {
            proof {
                ciphertext = ciphertext_of(in_out@, in_prefix_len as int);
                assert(in_out@.subrange(in_prefix_len as int, in_out@.len() as int)
                    =~= ciphertext);
            }
            poly1305_update_padded_16(&mut ctx, &in_out[in_prefix_len..in_out.len()]);
            chacha20_xor_overlapping(key, counter, in_out, in_prefix_len);
            in_out.len() - in_prefix_len
        },
        Direction::Sealing => {
            chacha20_xor_in_place(key, CounterOrIv::Counter(counter), in_out);
            proof {
                ciphertext = in_out@;
            }
            poly1305_update_padded_16(&mut ctx, in_out);
            in_out.len()
        },
    };
    ctx.update_block(Block::from_u64_le(ad.len() as u64, in_out_len as u64));
    proof {
        assert(in_out_len == ciphertext.len());
        lemma_read_in_three_parts(
            pad16(ad@),
            pad16(ciphertext),
            le_bytes(ad@.len(), 8),
            le_bytes(ciphertext.len(), 8),
        );
    }
    ctx.finish()
}

/// Feeds `input` to the authenticator, with zero bytes behind it up to the
/// next multiple of sixteen. The padding is made in a block of its own;
/// `input` is not written to.
pub fn poly1305_update_padded_16(ctx: &mut poly1305::Context, input: &[u8])
    ensures
        final(ctx).key() == old(ctx).key(),
        final(ctx).absorbed() == old(ctx).absorbed() + pad16(input@),
        input@.len() % 16 == 0 ==> final(ctx).absorbed() == old(ctx).absorbed() + input@,
{
    let remainder_len: usize = input.len() % BLOCK_LEN;
    let whole_len: usize = input.len() - remainder_len;
    if whole_len > 0 {
        ctx.update_blocks(&input[0..whole_len]);
    }
    if remainder_len > 0 {
        let mut block = Block::zero();
        block.partial_copy_from(&input[whole_len..input.len()]);
        ctx.update_block(block)
    }
    proof {
        if input@.len() % 16 == 0 {
            lemma_padding_is_no_op_on_whole_blocks(input@);
        }
    }
}

/// Derives the authenticator's one-time key: the first thirty-two bytes of
/// the keystream block that `iv` stands for.
pub fn derive_poly1305_key(chacha_key: &Key, iv: Iv) -> (key: poly1305::Key)
    ensures
        key@ == chacha::block(chacha_key@, iv.block(), iv.nonce()).subrange(0, 32),
{
    let mut bytes: [u8; 32] = [0u8; 32];
    chacha20_xor_in_place(chacha_key, CounterOrIv::Iv(iv), &mut bytes);
    proof {
        assert forall|x: u8| 0u8 ^ x == x by {
            assert(0u8 ^ x == x) by (bit_vector);
        }
    }
    poly1305::Key::new(bytes)
}

} // verus!

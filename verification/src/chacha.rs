//! The ChaCha20 stream cipher: its block function, its keystream, and the
//! in-place XOR of the keystream into a buffer.

use crate::endian::{
    le_bytes, le_nat, lemma_le_bytes_len, lemma_le_nat_bound, lemma_pow256_values, read_le,
    write_le,
};
use vstd::prelude::*;

verus! {

/// Length in bytes of a ChaCha20 key.
pub const KEY_LEN: usize = 32;

/// Length in bytes of a nonce.
pub const NONCE_LEN: usize = 12;

/// Length in bytes of one block of keystream.
pub const KEYSTREAM_BLOCK_LEN: usize = 64;

/// A nonce, borrowed from the caller.
pub type NonceRef<'a> = &'a [u8; 12];

/// `x` rotated left by `n` bits, for `0 < n < 32`.
pub open spec fn rotate_left(x: u32, n: u32) -> u32 {
    (x << n) | (x >> ((32 - n) as u32))
}

/// The quarter round on four words.
pub open spec fn quarter_round(a: u32, b: u32, c: u32, d: u32) -> (u32, u32, u32, u32) {
    let a = a.wrapping_add(b);
    let d = rotate_left(d ^ a, 16);
    let c = c.wrapping_add(d);
    let b = rotate_left(b ^ c, 12);
    let a = a.wrapping_add(b);
    let d = rotate_left(d ^ a, 8);
    let c = c.wrapping_add(d);
    let b = rotate_left(b ^ c, 7);
    (a, b, c, d)
}

/// The quarter round applied to the words of `state` at the four given places.
pub open spec fn quarter_round_at(state: Seq<u32>, i: int, j: int, k: int, l: int) -> Seq<u32> {
    let (a, b, c, d) = quarter_round(state[i], state[j], state[k], state[l]);
    state.update(i, a).update(j, b).update(k, c).update(l, d)
}

/// A column round followed by a diagonal round.
pub open spec fn double_round(state: Seq<u32>) -> Seq<u32> {
    let state = quarter_round_at(state, 0, 4, 8, 12);
    let state = quarter_round_at(state, 1, 5, 9, 13);
    let state = quarter_round_at(state, 2, 6, 10, 14);
    let state = quarter_round_at(state, 3, 7, 11, 15);
    let state = quarter_round_at(state, 0, 5, 10, 15);
    let state = quarter_round_at(state, 1, 6, 11, 12);
    let state = quarter_round_at(state, 2, 7, 8, 13);
    quarter_round_at(state, 3, 4, 9, 14)
}

/// `n` double rounds.
pub open spec fn double_rounds(state: Seq<u32>, n: nat) -> Seq<u32>
    decreases n,
{
    if n == 0 {
        state
    } else {
        double_round(double_rounds(state, (n - 1) as nat))
    }
}

/// The word that the four bytes of `bytes` starting at `at` encode.
pub open spec fn word_at(bytes: Seq<u8>, at: int) -> u32 {
    le_nat(bytes.subrange(at, at + 4)) as u32
}

/// The sixteen words the block function starts from: four constants, the
/// eight words of the key, the block counter, the three words of the nonce.
pub open spec fn initial_state(key: Seq<u8>, counter: u32, nonce: Seq<u8>) -> Seq<u32> {
    seq![
        0x61707865u32,
        0x3320646eu32,
        0x79622d32u32,
        0x6b206574u32,
        word_at(key, 0),
        word_at(key, 4),
        word_at(key, 8),
        word_at(key, 12),
        word_at(key, 16),
        word_at(key, 20),
        word_at(key, 24),
        word_at(key, 28),
        counter,
        word_at(nonce, 0),
        word_at(nonce, 4),
        word_at(nonce, 8),
    ]
}

/// The sixteen words of one keystream block: twenty rounds on the initial
/// state, then the initial state added word by word.
pub open spec fn block_words(key: Seq<u8>, counter: u32, nonce: Seq<u8>) -> Seq<u32> {
    let initial = initial_state(key, counter, nonce);
    let mixed = double_rounds(initial, 10);
    Seq::new(16, |i: int| mixed[i].wrapping_add(initial[i]))
}

/// The sixty-four bytes of one keystream block: its words, each least
/// significant byte first.
pub open spec fn block(key: Seq<u8>, counter: u32, nonce: Seq<u8>) -> Seq<u8> {
    let words = block_words(key, counter, nonce);
    Seq::new(64, |i: int| le_bytes(words[i / 4] as nat, 4)[i % 4])
}

/// The counter of the block that is `index` blocks after block `counter`. The
/// counter has 32 bits and wraps.
pub open spec fn block_counter(counter: u32, index: int) -> u32 {
    ((counter + index) % 0x1_0000_0000) as u32
}

/// Byte `i` of the keystream that starts at block `counter`.
pub open spec fn keystream_byte(key: Seq<u8>, nonce: Seq<u8>, counter: u32, i: int) -> u8 {
    block(key, block_counter(counter, i / 64), nonce)[i % 64]
}

/// `data` XORed with the keystream that starts at block `counter`.
pub open spec fn xor_keystream(key: Seq<u8>, nonce: Seq<u8>, counter: u32, data: Seq<u8>) -> Seq<
    u8,
> {
    Seq::new(data.len(), |i: int| data[i] ^ keystream_byte(key, nonce, counter, i))
}

/// What a buffer holds after the overlapping XOR: the bytes that followed the
/// first `prefix_len`, XORed with the keystream, now at the start; behind
/// them, the last `prefix_len` bytes as they were.
pub open spec fn xor_keystream_overlapping(
    key: Seq<u8>,
    nonce: Seq<u8>,
    counter: u32,
    buffer: Seq<u8>,
    prefix_len: int,
) -> Seq<u8> {
    xor_keystream(key, nonce, counter, buffer.skip(prefix_len)) + buffer.skip(
        buffer.len() - prefix_len,
    )
}

/// A 256-bit ChaCha20 key.
pub struct Key {
    bytes: [u8; 32],
}

impl View for Key {
    type V = Seq<u8>;

    closed spec fn view(&self) -> Seq<u8> {
        self.bytes@
    }
}

impl Key {
    /// The key made of the given thirty-two bytes.
    pub fn new(bytes: &[u8; 32]) -> (key: Key)
        ensures
            key@ == bytes@,
    {
        Key { bytes: *bytes }
    }
}

/// The input of the block function besides the key: a block counter and a
/// nonce. It stands for one block.
#[derive(Clone, Copy)]
pub struct Iv {
    counter: u32,
    nonce: [u8; 12],
}

impl Iv {
    /// The block counter.
    pub closed spec fn block(&self) -> u32 {
        self.counter
    }

    /// The nonce.
    pub closed spec fn nonce(&self) -> Seq<u8> {
        self.nonce@
    }
}

/// A block counter under a nonce. It stands for the keystream from its block on.
pub struct Counter {
    counter: u32,
    nonce: [u8; 12],
}

impl Counter {
    /// The block counter.
    pub closed spec fn block(&self) -> u32 {
        self.counter
    }

    /// The nonce.
    pub closed spec fn nonce(&self) -> Seq<u8> {
        self.nonce@
    }

    /// The counter at block zero under `nonce`.
    pub fn zero(nonce: NonceRef) -> (counter: Counter)
        ensures
            counter.block() == 0,
            counter.nonce() == nonce@,
    {
        Counter { counter: 0, nonce: *nonce }
    }

    /// Hands out the current block and moves on to the next. The counter wraps
    /// after its last block.
    pub fn increment(&mut self) -> (iv: Iv)
        ensures
            iv.block() == old(self).block(),
            iv.nonce() == old(self).nonce(),
            final(self).block() == block_counter(old(self).block(), 1),
            final(self).nonce() == old(self).nonce(),
    {
        let iv = Iv { counter: self.counter, nonce: self.nonce };
        self.counter = self.counter.wrapping_add(1);
        iv
    }
}

/// Where a keystream starts: at a counter, for any length, or at a single
/// block, for at most that block's first half.
pub enum CounterOrIv {
    Counter(Counter),
    Iv(Iv),
}

impl CounterOrIv {
    /// The block counter.
    pub open spec fn block(&self) -> u32 {
        match self {
            CounterOrIv::Counter(counter) => counter.block(),
            CounterOrIv::Iv(iv) => iv.block(),
        }
    }

    /// The nonce.
    pub open spec fn nonce(&self) -> Seq<u8> {
        match self {
            CounterOrIv::Counter(counter) => counter.nonce(),
            CounterOrIv::Iv(iv) => iv.nonce(),
        }
    }
}

fn rotl(x: u32, n: u32) -> (r: u32)
    requires
        0 < n < 32,
    ensures
        r == rotate_left(x, n),
{
    (x << n) | (x >> (32 - n))
}

fn quarter_round_in_place(state: &mut [u32; 16], i: usize, j: usize, k: usize, l: usize)
    requires
        i < 16,
        j < 16,
        k < 16,
        l < 16,
    ensures
        final(state)@ == quarter_round_at(old(state)@, i as int, j as int, k as int, l as int),
{
    let mut a: u32 = state[i];
    let mut b: u32 = state[j];
    let mut c: u32 = state[k];
    let mut d: u32 = state[l];
    a = a.wrapping_add(b);
    d = rotl(d ^ a, 16);
    c = c.wrapping_add(d);
    b = rotl(b ^ c, 12);
    a = a.wrapping_add(b);
    d = rotl(d ^ a, 8);
    c = c.wrapping_add(d);
    b = rotl(b ^ c, 7);
    state[i] = a;
    state[j] = b;
    state[k] = c;
    state[l] = d;
}

fn double_round_in_place(state: &mut [u32; 16])
    ensures
        final(state)@ == double_round(old(state)@),
{
    quarter_round_in_place(state, 0, 4, 8, 12);
    quarter_round_in_place(state, 1, 5, 9, 13);
    quarter_round_in_place(state, 2, 6, 10, 14);
    quarter_round_in_place(state, 3, 7, 11, 15);
    quarter_round_in_place(state, 0, 5, 10, 15);
    quarter_round_in_place(state, 1, 6, 11, 12);
    quarter_round_in_place(state, 2, 7, 8, 13);
    quarter_round_in_place(state, 3, 4, 9, 14);
}

/// Computes one block of keystream.
fn keystream_block(key: &Key, counter: u32, nonce: &[u8; 12]) -> (out: [u8; 64])
    ensures
        out@ == block(key@, counter, nonce@),
{
    let mut initial: [u32; 16] = [0u32; 16];
    initial[0] = 0x61707865;
    initial[1] = 0x3320646e;
    initial[2] = 0x79622d32;
    initial[3] = 0x6b206574;
    let mut i: usize = 0;
    while i < 8
        invariant
            i <= 8,
            initial@[0] == 0x61707865u32,
            initial@[1] == 0x3320646eu32,
            initial@[2] == 0x79622d32u32,
            initial@[3] == 0x6b206574u32,
            forall|k: int| 4 <= k < 4 + i ==> initial@[k] == word_at(key@, 4 * (k - 4)),
        decreases 8 - i,
    {
        proof {
            lemma_le_nat_bound(key@.subrange(4 * i, 4 * i + 4));
            lemma_pow256_values();
        }
        initial[4 + i] = read_le(&key.bytes, 4 * i, 4) as u32;
        i += 1;
    }
    initial[12] = counter;
    let mut i: usize = 0;
    while i < 3
        invariant
            i <= 3,
            initial@[0] == 0x61707865u32,
            initial@[1] == 0x3320646eu32,
            initial@[2] == 0x79622d32u32,
            initial@[3] == 0x6b206574u32,
            forall|k: int| 4 <= k < 12 ==> initial@[k] == word_at(key@, 4 * (k - 4)),
            initial@[12] == counter,
            forall|k: int| 13 <= k < 13 + i ==> initial@[k] == word_at(nonce@, 4 * (k - 13)),
        decreases 3 - i,
    {
        proof {
            lemma_le_nat_bound(nonce@.subrange(4 * i, 4 * i + 4));
            lemma_pow256_values();
        }
        initial[13 + i] = read_le(nonce, 4 * i, 4) as u32;
        i += 1;
    }
    proof {
        assert(initial@ =~= initial_state(key@, counter, nonce@));
    }
    let mut mixed: [u32; 16] = initial;
    let mut round: usize = 0;
    while round < 10
        invariant
            round <= 10,
            mixed@ == double_rounds(initial@, round as nat),
        decreases 10 - round,
    {
        double_round_in_place(&mut mixed);
        round += 1;
    }
    let mut out: [u8; 64] = [0u8; 64];
    let mut i: usize = 0;
    while i < 16
        invariant
            i <= 16,
            forall|k: int|
                0 <= k < 4 * i ==> out@[k] == le_bytes(
                    mixed@[k / 4].wrapping_add(initial@[k / 4]) as nat,
                    4,
                )[k % 4],
        decreases 16 - i,
    {
        let word: u32 = mixed[i].wrapping_add(initial[i]);
        proof {
            lemma_le_bytes_len(word as nat, 4);
        }
        write_le(&mut out, 4 * i, 4, word as u128);
        i += 1;
    }
    out
}

/// XORs the keystream that starts at block `counter` into the bytes of
/// `in_out` from `in_prefix_len` on, and writes the result from the start of
/// `in_out` on. Reading runs ahead of writing, so no byte is read after it
/// was overwritten.
fn xor_forward(
    key: &Key,
    counter: u32,
    nonce: &[u8; 12],
    in_out: &mut [u8],
    in_prefix_len: usize,
)
    requires
        in_prefix_len <= old(in_out)@.len(),
    ensures
        final(in_out)@ == xor_keystream_overlapping(
            key@,
            nonce@,
            counter,
            old(in_out)@,
            in_prefix_len as int,
        ),
{
    let len: usize = in_out.len() - in_prefix_len;
    let mut done: usize = 0;
    let mut block_index: u32 = counter;
    while done < len
        invariant
            done <= len,
            len + in_prefix_len == in_out@.len(),
            in_out@.len() == old(in_out)@.len(),
            in_out@.len() <= usize::MAX,
            done < len ==> done % 64 == 0,
            done < len ==> block_index == block_counter(counter, done as int / 64),
            forall|k: int|
                0 <= k < done ==> in_out@[k] == old(in_out)@[in_prefix_len + k] ^ keystream_byte(
                    key@,
                    nonce@,
                    counter,
                    k,
                ),
            forall|k: int| done <= k < in_out@.len() ==> in_out@[k] == old(in_out)@[k],
        decreases len - done,
    {
        let keystream: [u8; 64] = keystream_block(key, block_index, nonce);
        let n: usize = if len - done < 64 {
            len - done
        } else {
            64
        };
        let mut j: usize = 0;
        while j < n
            invariant
                j <= n <= 64,
                done + n <= len,
                done % 64 == 0,
                len + in_prefix_len == in_out@.len(),
                in_out@.len() == old(in_out)@.len(),
                in_out@.len() <= usize::MAX,
                keystream@ == block(key@, block_counter(counter, done as int / 64), nonce@),
                forall|k: int|
                    0 <= k < done + j ==> in_out@[k] == old(in_out)@[in_prefix_len + k]
                        ^ keystream_byte(key@, nonce@, counter, k),
                forall|k: int| done + j <= k < in_out@.len() ==> in_out@[k] == old(in_out)@[k],
            decreases n - j,
        {
            in_out[done + j] = in_out[in_prefix_len + done + j] ^ keystream[j];
            j += 1;
        }
        done += n;
        block_index = block_index.wrapping_add(1);
    }
}

/// XORs the keystream that `counter` stands for into `in_out`, in place.
///
/// A single block (`CounterOrIv::Iv`) serves at most thirty-two bytes.
pub fn chacha20_xor_in_place(key: &Key, counter: CounterOrIv, in_out: &mut [u8])
    requires
        counter is Iv ==> old(in_out)@.len() <= 32,
    ensures
        final(in_out)@ == xor_keystream(key@, counter.nonce(), counter.block(), old(in_out)@),
{
    match counter {
        CounterOrIv::Counter(counter) => {
            xor_forward(key, counter.counter, &counter.nonce, in_out, 0);
        },
        CounterOrIv::Iv(iv) => {
            xor_forward(key, iv.counter, &iv.nonce, in_out, 0);
        },
    }
}

/// XORs the keystream that starts at `counter` into the bytes of `in_out`
/// that follow its first `in_prefix_len`, and moves the result to the start
/// of `in_out`. The last `in_prefix_len` bytes of `in_out` stay as they were.
///
/// The input and output regions overlap in the one supported way: the output
/// begins at or before the input, and both grow together.
pub fn chacha20_xor_overlapping(
    key: &Key,
    counter: Counter,
    in_out: &mut [u8],
    in_prefix_len: usize,
)
    requires
        in_prefix_len <= old(in_out)@.len(),
    ensures
        final(in_out)@ == xor_keystream_overlapping(
            key@,
            counter.nonce(),
            counter.block(),
            old(in_out)@,
            in_prefix_len as int,
        ),
{
    xor_forward(key, counter.counter, &counter.nonce, in_out, in_prefix_len);
}

} // verus!

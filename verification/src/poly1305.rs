//! The Poly1305 one-time authenticator.
//!
//! The authenticator reads a message in blocks of sixteen bytes. Each block,
//! with a byte 1 appended, is a number; the accumulator takes the number in
//! and is multiplied by `r`, modulo the prime `2^130 - 5`. The tag is the
//! accumulator plus `s`, as sixteen bytes.
//!
//! The executable code keeps the accumulator and `r` in three limbs of 44 bits.

use crate::block::Block;
use crate::endian::{
    le_bytes, le_nat, lemma_le_bytes_mod, lemma_pow256_values, pow256, read_le, write_le,
};
use vstd::arithmetic::div_mod::{
    lemma_add_mod_noop_right, lemma_fundamental_div_mod_converse, lemma_mod_multiples_vanish,
    lemma_mul_mod_noop_left,
};
use vstd::prelude::*;

verus! {

/// Length in bytes of a Poly1305 key.
pub const KEY_LEN: usize = 32;

/// Length in bytes of a tag.
pub const TAG_LEN: usize = 16;

/// The prime `2^130 - 5`.
pub open spec fn prime() -> nat {
    0x3_ffff_ffff_ffff_ffff_ffff_ffff_ffff_fffbnat
}

/// `r` with the bits cleared that the authenticator requires to be clear.
pub open spec fn clamp(r: nat) -> nat {
    ((r as u128) & 0x0fff_fffc_0fff_fffc_0fff_fffc_0fff_ffffu128) as nat
}

/// The multiplier `r`: the first half of the key, clamped.
pub open spec fn key_r(key: Seq<u8>) -> nat {
    clamp(le_nat(key.subrange(0, 16)))
}

/// The final addend `s`: the second half of the key.
pub open spec fn key_s(key: Seq<u8>) -> nat {
    le_nat(key.subrange(16, 32))
}

/// The number that a block of at most sixteen bytes stands for: its bytes
/// with a byte 1 appended, least significant byte first.
pub open spec fn block_value(block: Seq<u8>) -> nat {
    le_nat(block) + pow256(block.len())
}

/// The accumulator after one more block.
pub open spec fn absorb_block(acc: nat, r: nat, block: Seq<u8>) -> nat {
    ((acc + block_value(block)) * r) % prime()
}

/// The accumulator after `message`, read in blocks of sixteen bytes; the
/// last block may be shorter.
pub open spec fn absorb(acc: nat, r: nat, message: Seq<u8>) -> nat
    decreases message.len(),
{
    if message.len() == 0 {
        acc
    } else {
        let n = if message.len() < 16 {
            message.len() as int
        } else {
            16
        };
        absorb(absorb_block(acc, r, message.take(n)), r, message.skip(n))
    }
}

/// The tag of `message` under the one-time key `key`.
pub open spec fn mac(key: Seq<u8>, message: Seq<u8>) -> Seq<u8> {
    le_bytes(absorb(0, key_r(key), message) + key_s(key), 16)
}

/// Reading a message whose first part is made of whole blocks is reading the
/// first part, then the rest.
pub proof fn lemma_absorb_concat(acc: nat, r: nat, first: Seq<u8>, rest: Seq<u8>)
    requires
        first.len() % 16 == 0,
    ensures
        absorb(acc, r, first + rest) == absorb(absorb(acc, r, first), r, rest),
    decreases first.len(),
{
    if first.len() > 0 {
        let all = first + rest;
        assert(all.take(16) =~= first.take(16));
        assert(all.skip(16) =~= first.skip(16) + rest);
        lemma_absorb_concat(absorb_block(acc, r, first.take(16)), r, first.skip(16), rest);
    }
}

/// Reading one whole block is one step of the accumulator.
pub proof fn lemma_absorb_one_block(acc: nat, r: nat, block: Seq<u8>)
    requires
        block.len() == 16,
    ensures
        absorb(acc, r, block) == absorb_block(acc, r, block),
{
    assert(block.take(16) =~= block);
    assert(absorb(absorb_block(acc, r, block), r, block.skip(16)) == absorb_block(acc, r, block));
}

/// A one-time Poly1305 key: `r` and `s`, sixteen bytes each.
pub struct Key {
    bytes: [u8; 32],
}

impl View for Key {
    type V = Seq<u8>;

    closed spec fn view(&self) -> Seq<u8> {
        self.bytes@
    }
}

impl Key {
    /// The key made of the given thirty-two bytes.
    pub fn new(bytes: [u8; 32]) -> (key: Key)
        ensures
            key@ == bytes@,
    {
        Key { bytes }
    }
}

/// A tag: sixteen bytes. It has no `==`: whoever compares a tag with the one
/// received does so in constant time.
#[derive(Clone, Copy)]
pub struct Tag(pub [u8; 16]);

impl View for Tag {
    type V = Seq<u8>;

    open spec fn view(&self) -> Seq<u8> {
        self.0@
    }
}

/// The number that three limbs stand for: `l0 + l1 * 2^44 + l2 * 2^88`.
spec fn limbs_value(l0: u64, l1: u64, l2: u64) -> nat {
    l0 as nat + l1 as nat * 0x1000_0000_0000 + l2 as nat * 0x100_0000_0000_0000_0000_0000
}

/// `2^44`: what a limb counts up to.
const RADIX: u128 = 0x1000_0000_0000;

/// `2^42`: what the top limb counts up to, so that three limbs reach `2^130`.
const TOP_RADIX: u128 = 0x400_0000_0000;

fn widening_mul(x: u64, y: u64) -> (z: u128)
    ensures
        z == x as int * y as int,
{
    proof {
        assert(x as int * y as int <= 0xffff_ffff_ffff_ffff * 0xffff_ffff_ffff_ffff)
            by (nonlinear_arith)
            requires
                0 <= x <= 0xffff_ffff_ffff_ffff,
                0 <= y <= 0xffff_ffff_ffff_ffff,
        ;
    }
    (x as u128) * (y as u128)
}

proof fn lemma_mul_lt(x: int, x_bound: int, y: int, y_bound: int)
    by (nonlinear_arith)
    requires
        0 <= x < x_bound,
        0 <= y < y_bound,
    ensures
        0 <= x * y < x_bound * y_bound,
{
}

proof fn lemma_distribute(x: int, y0: int, y1: int, y2: int)
    by (nonlinear_arith)
    ensures
        x * (y0 + y1 + y2) == x * y0 + x * y1 + x * y2,
        (y0 + y1 + y2) * x == y0 * x + y1 * x + y2 * x,
{
}

proof fn lemma_scaled_product(x: int, c: int, y: int, d: int)
    by (nonlinear_arith)
    ensures
        (x * c) * (y * d) == (x * y) * (c * d),
        x * (y * d) == (x * y) * d,
        (x * c) * y == (x * y) * c,
{
}

/// The product of two numbers in limbs is, modulo the prime, a number whose
/// limbs are sums of products of limbs: `2^132` folds back as `20`.
proof fn lemma_limb_product(a0: int, a1: int, a2: int, r0: int, r1: int, r2: int)
    ensures
        (a0 + a1 * 0x1000_0000_0000 + a2 * 0x100_0000_0000_0000_0000_0000) * (r0 + r1
            * 0x1000_0000_0000 + r2 * 0x100_0000_0000_0000_0000_0000) == (a0 * r0 + 20 * (a1 * r2)
            + 20 * (a2 * r1)) + (a0 * r1 + a1 * r0 + 20 * (a2 * r2)) * 0x1000_0000_0000 + (a0 * r2
            + a1 * r1 + a2 * r0) * 0x100_0000_0000_0000_0000_0000 + prime() * (4 * (a1 * r2) + 4
            * (a2 * r1) + 0x4000_0000_0000 * (a2 * r2)),
{
    let x1 = a1 * 0x1000_0000_0000;
    let x2 = a2 * 0x100_0000_0000_0000_0000_0000;
    let y1 = r1 * 0x1000_0000_0000;
    let y2 = r2 * 0x100_0000_0000_0000_0000_0000;
    let p00 = a0 * r0;
    let p01 = a0 * r1;
    let p02 = a0 * r2;
    let p10 = a1 * r0;
    let p11 = a1 * r1;
    let p12 = a1 * r2;
    let p20 = a2 * r0;
    let p21 = a2 * r1;
    let p22 = a2 * r2;
    lemma_distribute(r0 + y1 + y2, a0, x1, x2);
    lemma_distribute(a0, r0, y1, y2);
    lemma_distribute(x1, r0, y1, y2);
    lemma_distribute(x2, r0, y1, y2);
    assert(a0 * y1 == p01 * 0x1000_0000_0000) by {
        lemma_scaled_product(a0, 1, r1, 0x1000_0000_0000);
    }
    assert(a0 * y2 == p02 * 0x100_0000_0000_0000_0000_0000) by {
        lemma_scaled_product(a0, 1, r2, 0x100_0000_0000_0000_0000_0000);
    }
    assert(x1 * r0 == p10 * 0x1000_0000_0000) by {
        lemma_scaled_product(a1, 0x1000_0000_0000, r0, 1);
    }
    assert(x1 * y1 == p11 * 0x100_0000_0000_0000_0000_0000) by {
        lemma_scaled_product(a1, 0x1000_0000_0000, r1, 0x1000_0000_0000);
    }
    assert(x1 * y2 == p12 * 0x10_0000_0000_0000_0000_0000_0000_0000_0000) by {
        lemma_scaled_product(a1, 0x1000_0000_0000, r2, 0x100_0000_0000_0000_0000_0000);
    }
    assert(x2 * r0 == p20 * 0x100_0000_0000_0000_0000_0000) by {
        lemma_scaled_product(a2, 0x100_0000_0000_0000_0000_0000, r0, 1);
    }
    assert(x2 * y1 == p21 * 0x10_0000_0000_0000_0000_0000_0000_0000_0000) by {
        lemma_scaled_product(a2, 0x100_0000_0000_0000_0000_0000, r1, 0x1000_0000_0000);
    }
    assert(x2 * y2 == p22 * 0x1_0000_0000_0000_0000_0000_0000_0000_0000_0000_0000_0000) by {
        lemma_scaled_product(
            a2,
            0x100_0000_0000_0000_0000_0000,
            r2,
            0x100_0000_0000_0000_0000_0000,
        );
    }
    assert(prime() * (4 * p12 + 4 * p21 + 0x4000_0000_0000 * p22) == (4 * prime()) * p12 + (4
        * prime()) * p21 + (0x4000_0000_0000 * prime()) * p22) by (nonlinear_arith);
}

/// One step of the accumulator on limbs: takes in the block of value
/// `n + 2^128` and multiplies by `r`. The result is reduced far enough for the
/// next step, not to below the prime.
fn multiply_reduce(h0: u64, h1: u64, h2: u64, n: u128, r0: u64, r1: u64, r2: u64) -> (out: (
    u64,
    u64,
    u64,
))
    requires
        h0 < 0x1000_0000_0000,
        h1 < 0x2000_0000_0000,
        h2 < 0x400_0000_0000,
        r0 < 0x1000_0000_0000,
        r1 < 0x1000_0000_0000,
        r2 < 0x100_0000_0000,
    ensures
        out.0 < 0x1000_0000_0000,
        out.1 < 0x2000_0000_0000,
        out.2 < 0x400_0000_0000,
        limbs_value(out.0, out.1, out.2) % prime() == ((limbs_value(h0, h1, h2) + n
            + 0x1_0000_0000_0000_0000_0000_0000_0000_0000) * limbs_value(r0, r1, r2)) % (
        prime() as int),
{
    let a0: u64 = h0 + (n % RADIX) as u64;
    let a1: u64 = h1 + ((n / RADIX) % RADIX) as u64;
    let a2: u64 = h2 + ((n / RADIX) / RADIX) as u64 + 0x100_0000_0000;
    let s1: u64 = r1 * 20;
    let s2: u64 = r2 * 20;
    proof {
        lemma_mul_lt(a0 as int, 0x2000_0000_0000, r0 as int, 0x1000_0000_0000);
        lemma_mul_lt(a0 as int, 0x2000_0000_0000, r1 as int, 0x1000_0000_0000);
        lemma_mul_lt(a0 as int, 0x2000_0000_0000, r2 as int, 0x100_0000_0000);
        lemma_mul_lt(a1 as int, 0x4000_0000_0000, r0 as int, 0x1000_0000_0000);
        lemma_mul_lt(a1 as int, 0x4000_0000_0000, r1 as int, 0x1000_0000_0000);
        lemma_mul_lt(a1 as int, 0x4000_0000_0000, s2 as int, 0x1400_0000_0000);
        lemma_mul_lt(a2 as int, 0x800_0000_0000, r0 as int, 0x1000_0000_0000);
        lemma_mul_lt(a2 as int, 0x800_0000_0000, s1 as int, 0x1_4000_0000_0000);
        lemma_mul_lt(a2 as int, 0x800_0000_0000, s2 as int, 0x1400_0000_0000);
    }
    let d0: u128 = widening_mul(a0, r0) + widening_mul(a1, s2) + widening_mul(a2, s1);
    let d1: u128 = widening_mul(a0, r1) + widening_mul(a1, r0) + widening_mul(a2, s2);
    let d2: u128 = widening_mul(a0, r2) + widening_mul(a1, r1) + widening_mul(a2, r0);
    let e1: u128 = d1 + d0 / RADIX;
    let e2: u128 = d2 + e1 / RADIX;
    let f0: u128 = d0 % RADIX + (e2 / TOP_RADIX) * 5;
    let g0: u64 = (f0 % RADIX) as u64;
    let g1: u64 = (e1 % RADIX + f0 / RADIX) as u64;
    let g2: u64 = (e2 % TOP_RADIX) as u64;
    proof {
        let (a0, a1, a2) = (a0 as int, a1 as int, a2 as int);
        let (r0, r1, r2) = (r0 as int, r1 as int, r2 as int);
        assert(a1 * (s2 as int) == 20 * (a1 * r2)) by {
            lemma_scaled_product(a1, 1, r2, 20);
        }
        assert(a2 * (s1 as int) == 20 * (a2 * r1)) by {
            lemma_scaled_product(a2, 1, r1, 20);
        }
        assert(a2 * (s2 as int) == 20 * (a2 * r2)) by {
            lemma_scaled_product(a2, 1, r2, 20);
        }
        lemma_limb_product(a0, a1, a2, r0, r1, r2);
        let a = a0 + a1 * 0x1000_0000_0000 + a2 * 0x100_0000_0000_0000_0000_0000;
        let r = r0 + r1 * 0x1000_0000_0000 + r2 * 0x100_0000_0000_0000_0000_0000;
        let g = limbs_value(g0, g1, g2) as int;
        let k = 4 * (a1 * r2) + 4 * (a2 * r1) + 0x4000_0000_0000 * (a2 * r2) + (e2
            / TOP_RADIX) as int;
        assert(a == limbs_value(h0, h1, h2) + n + 0x1_0000_0000_0000_0000_0000_0000_0000_0000);
        assert(r == limbs_value(r0 as u64, r1 as u64, r2 as u64));
        assert(d0 + d1 * 0x1000_0000_0000 + d2 * 0x100_0000_0000_0000_0000_0000 == g + prime() * (
        e2 / TOP_RADIX));
        assert(a * r == prime() * k + g) by {
            assert(prime() * k == prime() * (4 * (a1 * r2) + 4 * (a2 * r1) + 0x4000_0000_0000 * (a2
                * r2)) + prime() * (e2 / TOP_RADIX)) by (nonlinear_arith)
                requires
                    k == 4 * (a1 * r2) + 4 * (a2 * r1) + 0x4000_0000_0000 * (a2 * r2) + (e2
                        / TOP_RADIX) as int,
            ;
        }
        lemma_mod_multiples_vanish(k, g, prime() as int);
    }
    (g0, g1, g2)
}

/// The low 128 bits of the accumulator, reduced below the prime, plus `s`.
fn reduce_and_add(h0: u64, h1: u64, h2: u64, s: u128) -> (t: u128)
    requires
        h0 < 0x1000_0000_0000,
        h1 < 0x2000_0000_0000,
        h2 < 0x400_0000_0000,
    ensures
        t == ((limbs_value(h0, h1, h2) % prime()) + s)
            % 0x1_0000_0000_0000_0000_0000_0000_0000_0000int,
{
    // The accumulator as `lo + hi * 2^128`.
    let low: u128 = h0 as u128 + (h1 as u128) * 0x1000_0000_0000;
    let high: u128 = ((h2 as u128) % 0x100_0000_0000) * 0x100_0000_0000_0000_0000_0000;
    let (lo, carry) = add_with_carry(low, high);
    let hi: u128 = (h2 as u128) / 0x100_0000_0000 + carry;
    // The accumulator is under twice the prime, so it is at or over the prime
    // where adding 5 carries into bit 130.
    let (_, carry) = add_with_carry(lo, 5);
    let q: u128 = (hi + carry) / 4;
    let (sum, _) = add_with_carry(lo, 5 * q);
    let (t, _) = add_with_carry(sum, s);
    proof {
        lemma_final_sum(
            limbs_value(h0, h1, h2) as int,
            lo as int,
            hi as int,
            q as int,
            s as int,
            t as int,
        );
    }
    t
}

/// The sum of two numbers of 128 bits: its low 128 bits, and the carry.
fn add_with_carry(x: u128, y: u128) -> (out: (u128, u128))
    ensures
        out.1 == 0 || out.1 == 1,
        x + y == out.0 + out.1 * 0x1_0000_0000_0000_0000_0000_0000_0000_0000int,
{
    let sum: u128 = x.wrapping_add(y);
    let carry: u128 = if sum < x {
        1
    } else {
        0
    };
    (sum, carry)
}

/// The last step on numbers: from an accumulator `h` under twice the prime,
/// given as `lo + hi * 2^128`, to the low 128 bits of `h % prime() + s`.
proof fn lemma_final_sum(h: int, lo: int, hi: int, q: int, s: int, t: int)
    requires
        0 <= h < 2 * prime(),
        h == lo + hi * 0x1_0000_0000_0000_0000_0000_0000_0000_0000int,
        0 <= lo < 0x1_0000_0000_0000_0000_0000_0000_0000_0000int,
        q == if h + 5 >= 0x4_0000_0000_0000_0000_0000_0000_0000_0000int {
            1int
        } else {
            0int
        },
        0 <= s < 0x1_0000_0000_0000_0000_0000_0000_0000_0000int,
        t == (((lo + 5 * q) % 0x1_0000_0000_0000_0000_0000_0000_0000_0000int) + s)
            % 0x1_0000_0000_0000_0000_0000_0000_0000_0000int,
    ensures
        t == ((h % (prime() as int)) + s) % 0x1_0000_0000_0000_0000_0000_0000_0000_0000int,
{
    let m = 0x1_0000_0000_0000_0000_0000_0000_0000_0000int;
    let acc = h - q * prime();
    assert(h % (prime() as int) == acc) by {
        lemma_fundamental_div_mod_converse(h, prime() as int, q, acc);
    }
    // acc == lo + 5 * q + (hi - 4 * q) * 2^128
    assert((acc + s) % m == (lo + 5 * q + s) % m) by {
        lemma_mod_multiples_vanish(hi - 4 * q, lo + 5 * q + s, m);
    }
    assert(t == (lo + 5 * q + s) % m) by {
        lemma_add_mod_noop_right(s, lo + 5 * q, m);
    }
}

/// The state of one Poly1305 computation: the key it was made with and the
/// blocks it has read.
pub struct Context {
    r0: u64,
    r1: u64,
    r2: u64,
    s: u128,
    h0: u64,
    h1: u64,
    h2: u64,
    key: Ghost<Seq<u8>>,
    absorbed: Ghost<Seq<u8>>,
}

impl Context {
    /// The limbs of `r` and `s` are those of the key; the limbs of the
    /// accumulator are within reach of the next step, and stand, modulo the
    /// prime, for what the blocks read so far give.
    #[verifier::type_invariant]
    spec fn well_formed(&self) -> bool {
        &&& self.key@.len() == 32
        // `r` has 128 bits: 44, 44 and 40.
        &&& self.r0 < 0x1000_0000_0000
        &&& self.r1 < 0x1000_0000_0000
        &&& self.r2 < 0x100_0000_0000
        &&& limbs_value(self.r0, self.r1, self.r2) == key_r(self.key@)
        &&& self.s == key_s(self.key@)
        // The accumulator has 44, 45 and 42 bits: the middle limb holds a
        // carry that the next step takes along.
        &&& self.h0 < 0x1000_0000_0000
        &&& self.h1 < 0x2000_0000_0000
        &&& self.h2 < 0x400_0000_0000
        &&& self.absorbed@.len() % 16 == 0
        &&& limbs_value(self.h0, self.h1, self.h2) % prime() == absorb(
            0,
            key_r(self.key@),
            self.absorbed@,
        )
    }

    /// The one-time key that the computation was started with.
    pub closed spec fn key(&self) -> Seq<u8> {
        self.key@
    }

    /// The bytes read so far, in order.
    pub closed spec fn absorbed(&self) -> Seq<u8> {
        self.absorbed@
    }

    /// Starts a computation under `key`, with nothing read.
    pub fn from_key(key: Key) -> (ctx: Context)
        ensures
            ctx.key() == key@,
            ctx.absorbed() == Seq::<u8>::empty(),
    {
        let r: u128 = read_le(&key.bytes, 0, 16) & 0x0fff_fffc_0fff_fffc_0fff_fffc_0fff_ffff;
        let s: u128 = read_le(&key.bytes, 16, 16);
        Context {
            r0: (r % RADIX) as u64,
            r1: ((r / RADIX) % RADIX) as u64,
            r2: ((r / RADIX) / RADIX) as u64,
            s,
            h0: 0,
            h1: 0,
            h2: 0,
            key: Ghost(key@),
            absorbed: Ghost(Seq::empty()),
        }
    }

    /// Reads the block made of the sixteen bytes of `input` starting at `at`.
    fn absorb_at(&mut self, input: &[u8], at: usize)
        requires
            at + 16 <= input@.len(),
        ensures
            final(self).key() == old(self).key(),
            final(self).absorbed() == old(self).absorbed() + input@.subrange(at as int, at + 16),
    {
        proof {
            use_type_invariant(&*self);
        }
        let n: u128 = read_le(input, at, 16);
        let (h0, h1, h2) = multiply_reduce(self.h0, self.h1, self.h2, n, self.r0, self.r1, self.r2);
        let ghost block = input@.subrange(at as int, at + 16);
        proof {
            let r = key_r(self.key@);
            let h = limbs_value(self.h0, self.h1, self.h2);
            let acc = absorb(0, r, self.absorbed@);
            let v = block_value(block);
            lemma_pow256_values();
            assert(v == n + 0x1_0000_0000_0000_0000_0000_0000_0000_0000int);
            lemma_absorb_concat(0, r, self.absorbed@, block);
            lemma_absorb_one_block(acc, r, block);
            assert((((acc + v) as int) * (r as int)) % (prime() as int) == (((h + v) as int) * (
            r as int)) % (prime() as int)) by {
                lemma_add_mod_noop_right(v as int, h as int, prime() as int);
                lemma_mul_mod_noop_left((acc + v) as int, r as int, prime() as int);
                lemma_mul_mod_noop_left((h + v) as int, r as int, prime() as int);
            }
        }
        *self = Context {
            r0: self.r0,
            r1: self.r1,
            r2: self.r2,
            s: self.s,
            h0,
            h1,
            h2,
            key: self.key,
            absorbed: Ghost(self.absorbed@ + block),
        };
    }

    /// Reads one block.
    pub fn update_block(&mut self, block: Block)
        ensures
            final(self).key() == old(self).key(),
            final(self).absorbed() == old(self).absorbed() + block@,
    {
        proof {
            block.lemma_len();
        }
        self.absorb_at(block.as_bytes(), 0);
    }

    /// Reads `input`, which is made of whole blocks.
    pub fn update_blocks(&mut self, input: &[u8])
        requires
            input@.len() % 16 == 0,
        ensures
            final(self).key() == old(self).key(),
            final(self).absorbed() == old(self).absorbed() + input@,
    {
        let len: usize = input.len();
        let mut at: usize = 0;
        while at < len
            invariant
                at <= len,
                len == input@.len(),
                at % 16 == 0,
                len % 16 == 0,
                self.key() == old(self).key(),
                self.absorbed() == old(self).absorbed() + input@.subrange(0, at as int),
            decreases len - at,
        {
            self.absorb_at(input, at);
            at += 16;
        }
    }

    /// Ends the computation and gives the tag of what was read.
    pub fn finish(self) -> (tag: Tag)
        ensures
            tag@.len() == 16,
            tag@ == mac(self.key(), self.absorbed()),
    {
        proof {
            use_type_invariant(&self);
        }
        let t: u128 = reduce_and_add(self.h0, self.h1, self.h2, self.s);
        let mut bytes: [u8; 16] = [0u8; 16];
        write_le(&mut bytes, 0, 16, t);
        proof {
            lemma_pow256_values();
            lemma_le_bytes_mod(absorb(0, key_r(self.key@), self.absorbed@) + self.s as nat, 16);
        }
        Tag(bytes)
    }
}

} // verus!

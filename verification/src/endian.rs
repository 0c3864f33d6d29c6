//! Little-endian encoding of natural numbers, as a mathematical model and as
//! executable conversions proved against it.

use vstd::prelude::*;

verus! {

/// `256` to the power `n`.
pub open spec fn pow256(n: nat) -> nat
    decreases n,
{
    if n == 0 {
        1
    } else {
        256 * pow256((n - 1) as nat)
    }
}

/// The number that `bytes` encodes, least significant byte first.
pub open spec fn le_nat(bytes: Seq<u8>) -> nat
    decreases bytes.len(),
{
    if bytes.len() == 0 {
        0
    } else {
        bytes[0] as nat + 256 * le_nat(bytes.skip(1))
    }
}

/// The `len` least significant bytes of `value`, least significant byte first.
pub open spec fn le_bytes(value: nat, len: nat) -> Seq<u8>
    decreases len,
{
    if len == 0 {
        Seq::empty()
    } else {
        seq![(value % 256) as u8] + le_bytes(value / 256, (len - 1) as nat)
    }
}

/// A power of 256 is positive.
pub proof fn lemma_pow256_positive(n: nat)
    ensures
        pow256(n) > 0,
    decreases n,
{
    if n > 0 {
        lemma_pow256_positive((n - 1) as nat);
    }
}

/// The powers of 256 do not fall.
pub proof fn lemma_pow256_monotonic(m: nat, n: nat)
    requires
        m <= n,
    ensures
        pow256(m) <= pow256(n),
    decreases n,
{
    if m < n {
        lemma_pow256_monotonic(m, (n - 1) as nat);
        lemma_pow256_positive((n - 1) as nat);
    }
}

/// The powers of 256 at the widths of the machine integers.
pub proof fn lemma_pow256_values()
    ensures
        pow256(0) == 1,
        pow256(1) == 0x100,
        pow256(2) == 0x1_0000,
        pow256(3) == 0x100_0000,
        pow256(4) == 0x1_0000_0000,
        pow256(7) == 0x100_0000_0000_0000,
        pow256(8) == 0x1_0000_0000_0000_0000,
        pow256(15) == 0x100_0000_0000_0000_0000_0000_0000_0000,
        pow256(16) == 0x1_0000_0000_0000_0000_0000_0000_0000_0000,
{
    reveal_with_fuel(pow256, 17);
}

/// What `n` bytes encode is under `256^n`.
pub proof fn lemma_le_nat_bound(bytes: Seq<u8>)
    ensures
        le_nat(bytes) < pow256(bytes.len()),
    decreases bytes.len(),
{
    if bytes.len() > 0 {
        lemma_le_nat_bound(bytes.skip(1));
    }
}

/// An encoding of `len` bytes has `len` bytes.
pub proof fn lemma_le_bytes_len(value: nat, len: nat)
    ensures
        le_bytes(value, len).len() == len,
    decreases len,
{
    if len > 0 {
        lemma_le_bytes_len(value / 256, (len - 1) as nat);
    }
}

/// `value % (256 * m)` from the last digit of `value` and the rest.
proof fn lemma_mod_split(value: nat, m: nat)
    requires
        m > 0,
    ensures
        value % (256 * m) == value % 256 + 256 * ((value / 256) % m),
{
    let q = value / 256;
    let d = value % 256;
    let qq = q / m;
    let qr = q % m;
    assert(q == m * qq + qr) by {
        vstd::arithmetic::div_mod::lemma_fundamental_div_mod(q as int, m as int);
    }
    assert(value == (256 * m) * qq + (d + 256 * qr)) by (nonlinear_arith)
        requires
            value == 256 * q + d,
            q == m * qq + qr,
    ;
    vstd::arithmetic::div_mod::lemma_fundamental_div_mod_converse(
        value as int,
        (256 * m) as int,
        qq as int,
        (d + 256 * qr) as int,
    );
}

/// An encoding depends on the value only up to the width of the encoding.
pub proof fn lemma_le_bytes_mod(value: nat, len: nat)
    ensures
        le_bytes(value % pow256(len), len) == le_bytes(value, len),
    decreases len,
{
    if len > 0 {
        let m = pow256((len - 1) as nat);
        lemma_pow256_positive((len - 1) as nat);
        lemma_mod_split(value, m);
        lemma_le_bytes_mod(value / 256, (len - 1) as nat);
    }
}

/// Reads the number that the `len` bytes of `bytes` starting at `at` encode.
pub fn read_le(bytes: &[u8], at: usize, len: usize) -> (value: u128)
    requires
        len <= 16,
        at + len <= bytes@.len(),
    ensures
        value == le_nat(bytes@.subrange(at as int, at + len)),
{
    let mut acc: u128 = 0;
    let mut i: usize = len;
    proof {
        vstd::slice::axiom_spec_len(bytes);
    }
    while i > 0
        invariant
            i <= len <= 16,
            at + len <= bytes@.len() <= usize::MAX,
            acc == le_nat(bytes@.subrange(at + i, at + len)),
        decreases i,
    {
        i -= 1;
        proof {
            let rest = bytes@.subrange(at + i + 1, at + len);
            let all = bytes@.subrange(at + i, at + len);
            lemma_le_nat_bound(rest);
            lemma_pow256_monotonic(rest.len(), 15);
            lemma_pow256_values();
            assert(all.skip(1) =~= rest);
        }
        acc = acc * 256 + bytes[at + i] as u128;
    }
    acc
}

/// Writes the `len` least significant bytes of `value` into `out` starting at
/// `at`, least significant byte first, and leaves the rest of `out` as it was.
pub fn write_le(out: &mut [u8], at: usize, len: usize, value: u128)
    requires
        at + len <= old(out)@.len(),
    ensures
        final(out)@ == old(out)@.subrange(0, at as int) + le_bytes(value as nat, len as nat)
            + old(out)@.subrange(at + len, old(out)@.len() as int),
{
    let mut rest: u128 = value;
    let mut i: usize = 0;
    proof {
        vstd::slice::axiom_spec_len(out);
        lemma_le_bytes_len(value as nat, len as nat);
    }
    while i < len
        invariant
            i <= len,
            at + len <= out@.len() <= usize::MAX,
            out@.len() == old(out)@.len(),
            forall|k: int| 0 <= k < at || at + i <= k < out@.len() ==> out@[k] == old(out)@[k],
            le_bytes(value as nat, len as nat).len() == len,
            le_bytes(value as nat, len as nat) == out@.subrange(at as int, at + i) + le_bytes(
                rest as nat,
                (len - i) as nat,
            ),
        decreases len - i,
    {
        out[at + i] = (rest % 256) as u8;
        proof {
            lemma_le_bytes_len((rest / 256) as nat, (len - i - 1) as nat);
        }
        rest = rest / 256;
        i += 1;
    }
}

} // verus!

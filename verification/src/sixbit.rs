//! The 6-bit ASCII armoring of AIS payloads and the bit-addressable
//! reads every message decoder is built on.
//!
//! Each armored character stands for one 6-bit group, most significant
//! bit first; the final character may carry up to five fill bits that
//! pad the message to a whole number of groups and are discarded.

use vstd::arithmetic::power2::{lemma_pow2_strictly_increases, lemma_pow2_unfold, pow2};
use vstd::prelude::*;

use crate::errors::Error;

verus! {

/// The 6-bit value of one armored byte: bytes 48..=87 map to 0..=39,
/// bytes 96..=119 map to 40..=63, everything else is outside the
/// alphabet.
pub open spec fn spec_sixbit(b: u8) -> Option<u8> {
    if 48 <= b <= 87 {
        Some((b - 48) as u8)
    } else if 96 <= b <= 119 {
        Some((b - 56) as u8)
    } else {
        None
    }
}

/// The 6-bit value of `b` where `b` is in the alphabet, and 0 otherwise;
/// used to give the bit expansion a total definition.
pub open spec fn spec_sixbit_or_zero(b: u8) -> u8 {
    match spec_sixbit(b) {
        Some(v) => v,
        None => 0u8,
    }
}

/// Maps one armored byte to its 6-bit value.
pub fn sixbit_value(b: u8) -> (r: Option<u8>)
    ensures
        r == spec_sixbit(b),
{
    if 48 <= b && b <= 87 {
        Some(b - 48)
    } else if 96 <= b && b <= 119 {
        Some(b - 56)
    } else {
        None
    }
}

/// Alphabet closure: every byte the expander accepts maps to a value in
/// 0..=63, and exactly the bytes of the two contiguous ASCII ranges are
/// accepted; nothing outside them produces a value.
pub proof fn lemma_alphabet_closure(b: u8)
    ensures
        spec_sixbit(b) is Some <==> (48 <= b <= 87 || 96 <= b <= 119),
        spec_sixbit(b) matches Some(v) ==> 0 <= v <= 63,
{
}

/// The six bits of a 6-bit value, most significant first.
pub open spec fn spec_char_bits(v: u8) -> Seq<bool> {
    seq![
        (v >> 5) & 1 == 1,
        (v >> 4) & 1 == 1,
        (v >> 3) & 1 == 1,
        (v >> 2) & 1 == 1,
        (v >> 1) & 1 == 1,
        v & 1 == 1,
    ]
}

/// The bit sequence of a whole armored payload, fill bits still
/// attached; bytes outside the alphabet contribute the bits of 0 (the
/// expander rejects such payloads before this is ever relied on).
pub open spec fn spec_payload_bits(p: Seq<u8>) -> Seq<bool>
    decreases p.len(),
{
    if p.len() == 0 {
        Seq::empty()
    } else {
        spec_payload_bits(p.drop_last()) + spec_char_bits(spec_sixbit_or_zero(p.last()))
    }
}

/// The first index of a byte outside the alphabet, or -1 if every byte
/// of `p` is a valid armored character.
pub open spec fn spec_find_invalid(p: Seq<u8>) -> int
    decreases p.len(),
{
    if p.len() == 0 {
        -1
    } else if spec_sixbit(p[0]) is None {
        0
    } else {
        let r = spec_find_invalid(p.drop_first());
        if r < 0 {
            -1
        } else {
            r + 1
        }
    }
}

pub proof fn lemma_find_invalid(p: Seq<u8>)
    ensures
        spec_find_invalid(p) == -1 ==> forall|i: int|
            0 <= i < p.len() ==> #[trigger] spec_sixbit(p[i]) is Some,
        spec_find_invalid(p) >= 0 ==> {
            &&& spec_find_invalid(p) < p.len()
            &&& spec_sixbit(p[spec_find_invalid(p)]) is None
            &&& forall|i: int|
                0 <= i < spec_find_invalid(p) ==> #[trigger] spec_sixbit(p[i]) is Some
        },
    decreases p.len(),
{
    if p.len() > 0 && spec_sixbit(p[0]) is Some {
        lemma_find_invalid(p.drop_first());
        assert(forall|i: int| 1 <= i < p.len() ==> p[i] == p.drop_first()[i - 1]);
    }
}

/// What expanding an armored payload with `fill` trailing fill bits
/// yields: the payload's bit sequence with the fill bits dropped, an
/// alphabet error naming the first offending byte, or a length error
/// when more fill bits are declared than bits exist.
pub open spec fn spec_expand(p: Seq<u8>, fill: u8) -> Result<Seq<bool>, Error> {
    if spec_find_invalid(p) >= 0 {
        Err(Error::Alphabet { byte: p[spec_find_invalid(p)] })
    } else if 6 * p.len() < fill {
        Err(Error::PayloadTooShort)
    } else {
        Ok(spec_payload_bits(p).take(6 * p.len() - fill))
    }
}

/// Expands an armored payload into its bit sequence, dropping the
/// declared fill bits from the end.
#[verifier::rlimit(50)]
pub fn expand_payload(p: &[u8], fill: u8) -> (r: Result<Vec<bool>, Error>)
    ensures
        match spec_expand(p@, fill) {
            Ok(bits) => r matches Ok(v) && v@ == bits,
            Err(e) => r matches Err(e2) && e2 == e,
        },
{
    proof {
        lemma_find_invalid(p@);
    }
    let mut bits: Vec<bool> = Vec::new();
    let mut i: usize = 0;
    while i < p.len()
        invariant
            i <= p@.len(),
            bits@ == spec_payload_bits(p@.take(i as int)),
            bits@.len() == 6 * i,
            forall|j: int| 0 <= j < i ==> #[trigger] spec_sixbit(p@[j]) is Some,
            spec_find_invalid(p@) >= 0 ==> i <= spec_find_invalid(p@),
        decreases p@.len() - i,
    {
        match sixbit_value(p[i]) {
            None => {
                proof {
                    lemma_find_invalid(p@);
                    if spec_find_invalid(p@) < 0 {
                        assert(spec_sixbit(p@[i as int]) is Some);
                    }
                    if spec_find_invalid(p@) > i {
                        assert(spec_sixbit(p@[i as int]) is Some);
                    }
                    assert(spec_find_invalid(p@) == i);
                }
                return Err(Error::Alphabet { byte: p[i] });
            },
            Some(v) => {
                bits.push((v >> 5) & 1 == 1);
                bits.push((v >> 4) & 1 == 1);
                bits.push((v >> 3) & 1 == 1);
                bits.push((v >> 2) & 1 == 1);
                bits.push((v >> 1) & 1 == 1);
                bits.push(v & 1 == 1);
                proof {
                    lemma_find_invalid(p@);
                    assert(p@.take(i + 1).drop_last() =~= p@.take(i as int));
                    assert(p@.take(i + 1).last() == p@[i as int]);
                    assert(bits@ =~= spec_payload_bits(p@.take(i as int)) + spec_char_bits(v));
                }
            },
        }
        i = i + 1;
    }
    proof {
        assert(p@.take(p@.len() as int) =~= p@);
        if spec_find_invalid(p@) >= 0 {
            assert(spec_sixbit(p@[spec_find_invalid(p@)]) is Some);
        }
    }
    if (fill as usize) > bits.len() {
        return Err(Error::PayloadTooShort);
    }
    let keep = bits.len() - fill as usize;
    bits.truncate(keep);
    Ok(bits)
}

/// The unsigned value of the `w` bits starting at `start`, most
/// significant bit first.
pub open spec fn spec_u_field(bits: Seq<bool>, start: int, w: nat) -> nat
    decreases w,
{
    if w == 0 {
        0
    } else {
        2 * spec_u_field(bits, start, (w - 1) as nat) + if bits[start + w - 1] {
            1nat
        } else {
            0nat
        }
    }
}

pub proof fn lemma_u_field_bound(bits: Seq<bool>, start: int, w: nat)
    ensures
        spec_u_field(bits, start, w) < pow2(w),
    decreases w,
{
    lemma_pow2_unfold_all(w);
    if w > 0 {
        lemma_u_field_bound(bits, start, (w - 1) as nat);
    }
}

proof fn lemma_pow2_unfold_all(w: nat)
    ensures
        pow2(0) == 1,
        w > 0 ==> pow2(w) == 2 * pow2((w - 1) as nat),
    decreases w,
{
    vstd::arithmetic::power2::lemma2_to64();
    if w > 0 {
        lemma_pow2_unfold(w);
    }
}

/// The two's-complement value of the `w` bits starting at `start`.
pub open spec fn spec_i_field(bits: Seq<bool>, start: int, w: nat) -> int {
    let u = spec_u_field(bits, start, w);
    if w > 0 && u >= pow2((w - 1) as nat) {
        u - pow2(w)
    } else {
        u as int
    }
}

/// Reads an unsigned field of up to 32 bits at an arbitrary bit offset.
pub fn read_unsigned(bits: &Vec<bool>, start: usize, w: usize) -> (r: u64)
    requires
        start + w <= bits@.len(),
        w <= 32,
    ensures
        r == spec_u_field(bits@, start as int, w as nat),
        r < pow2(w as nat),
{
    proof {
        vstd::arithmetic::power2::lemma2_to64();
        lemma_u_field_bound(bits@, start as int, w as nat);
    }
    let n = bits.len();
    let mut acc: u64 = 0;
    let mut j: usize = 0;
    while j < w
        invariant
            j <= w,
            w <= 32,
            n == bits@.len(),
            start + w <= n,
            acc == spec_u_field(bits@, start as int, j as nat),
            acc < pow2(j as nat),
        decreases w - j,
    {
        proof {
            vstd::arithmetic::power2::lemma2_to64();
            lemma_pow2_unfold_all((j + 1) as nat);
            if j + 1 < 32 {
                lemma_pow2_strictly_increases((j + 1) as nat, 32);
            }
            assert(2 * acc + 1 < pow2((j + 1) as nat));
        }
        acc = 2 * acc + if bits[start + j] {
            1
        } else {
            0
        };
        j = j + 1;
    }
    proof {
        lemma_u_field_bound(bits@, start as int, w as nat);
    }
    acc
}

/// `2^w` as a run-time value.
pub fn pow2_u64(w: usize) -> (r: u64)
    requires
        w <= 63,
    ensures
        r == pow2(w as nat),
{
    proof {
        vstd::arithmetic::power2::lemma2_to64();
    }
    let mut r: u64 = 1;
    let mut j: usize = 0;
    while j < w
        invariant
            j <= w <= 63,
            r == pow2(j as nat),
        decreases w - j,
    {
        proof {
            vstd::arithmetic::power2::lemma2_to64();
            lemma_pow2_unfold_all((j + 1) as nat);
            if j + 1 < 64 {
                lemma_pow2_strictly_increases((j + 1) as nat, 64);
            }
            assert(2 * r < pow2(64));
        }
        r = 2 * r;
        j = j + 1;
    }
    r
}

/// Reads a two's-complement signed field of up to 32 bits.
pub fn read_signed(bits: &Vec<bool>, start: usize, w: usize) -> (r: i64)
    requires
        start + w <= bits@.len(),
        1 <= w <= 32,
    ensures
        r == spec_i_field(bits@, start as int, w as nat),
{
    let u = read_unsigned(bits, start, w);
    let half = pow2_u64(w - 1);
    proof {
        lemma_pow2_unfold_all(w as nat);
        lemma_pow2_strictly_increases((w - 1) as nat, 33);
        lemma_pow2_strictly_increases(w as nat, 34);
        vstd::arithmetic::power2::lemma2_to64();
    }
    if u >= half {
        (u as i64) - 2 * (half as i64)
    } else {
        u as i64
    }
}

} // verus!

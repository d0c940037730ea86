//! Packing of short textual identifiers into a fixed-width 128-bit value.
//!
//! An identifier of at most 16 bytes is laid out in the low-order bytes of a
//! 128-bit unsigned integer, little-endian, with every remaining high-order
//! byte zero. Longer identifiers are rejected; nothing is truncated.

use vstd::prelude::*;
use vstd::string::StringSliceAdditionalSpecFns;

verus! {

/// The widest identifier that fits the 128-bit field: 16 bytes.
pub const MAX_IDENTIFIER_BYTES: usize = 16;

/// The failure of a packing operation.
#[derive(Clone, Copy, Debug, PartialEq, Eq, Structural)]
pub enum PackError {
    /// The identifier is longer than 16 bytes, so it cannot fit the field.
    InputTooLong,
}

/// 256 raised to the power `n`: the number of byte strings of length `n`,
/// and the weight of the byte at position `n` in a little-endian layout.
pub open spec fn pow256(n: nat) -> int
    decreases n,
{
    if n == 0 {
        1
    } else {
        256 * pow256((n - 1) as nat)
    }
}

/// The value of a byte sequence read as a little-endian unsigned integer:
/// the byte at position `i` contributes `bytes[i] * 256^i`.
pub open spec fn le_value(bytes: Seq<u8>) -> int
    decreases bytes.len(),
{
    if bytes.len() == 0 {
        0
    } else {
        bytes[0] + 256 * le_value(bytes.drop_first())
    }
}

/// The low `n` bytes of the nonnegative value `v`, little-endian.
pub open spec fn le_bytes(v: int, n: nat) -> Seq<u8>
    decreases n,
{
    if n == 0 {
        Seq::empty()
    } else {
        seq![(v % 256) as u8] + le_bytes(v / 256, (n - 1) as nat)
    }
}

/// A little-endian value is nonnegative and below `256^len`: every bit at
/// position `8 * len` or above is zero.
pub proof fn lemma_le_value_bound(bytes: Seq<u8>)
    ensures
        0 <= le_value(bytes) < pow256(bytes.len()),
    decreases bytes.len(),
{
    if bytes.len() > 0 {
        lemma_le_value_bound(bytes.drop_first());
    }
}

/// `pow256` is positive.
proof fn lemma_pow256_pos(n: nat)
    ensures
        1 <= pow256(n),
    decreases n,
{
    if n > 0 {
        lemma_pow256_pos((n - 1) as nat);
    }
}

/// `pow256` does not decrease: a longer field can hold every shorter one.
proof fn lemma_pow256_increases(a: nat, b: nat)
    requires
        a <= b,
    ensures
        pow256(a) <= pow256(b),
    decreases b,
{
    if a < b {
        lemma_pow256_increases(a, (b - 1) as nat);
        lemma_pow256_pos((b - 1) as nat);
    }
}

/// `256^15` written out, so that overflow proofs can compare against it.
proof fn lemma_pow256_15()
    ensures
        pow256(15) == 0x1000000000000000000000000000000,
{
    reveal_with_fuel(pow256, 16);
}

/// Round trip: reading the low `len` bytes of the packed value back out,
/// little-endian, reproduces the identifier exactly. In particular packing
/// is injective over identifiers of at most 16 bytes.
pub proof fn lemma_round_trip(bytes: Seq<u8>)
    requires
        bytes.len() <= MAX_IDENTIFIER_BYTES,
    ensures
        le_bytes(le_value(bytes), bytes.len()) == bytes,
    decreases bytes.len(),
{
    if bytes.len() == 0 {
        assert(le_bytes(le_value(bytes), bytes.len()) =~= bytes);
    } else {
        let rest = bytes.drop_first();
        let b0 = bytes[0] as int;
        let v = le_value(bytes);
        lemma_le_value_bound(rest);
        assert(v % 256 == b0 && v / 256 == le_value(rest)) by (nonlinear_arith)
            requires
                v == b0 + 256 * le_value(rest),
                0 <= b0 < 256,
                0 <= le_value(rest),
        ;
        lemma_round_trip(rest);
        assert(le_bytes(v, bytes.len()) =~= bytes);
    }
}

/// Packs an identifier of at most 16 bytes into a 128-bit unsigned integer:
/// the input bytes occupy the low-order byte positions in order and all
/// higher bytes are zero. A longer input fails with `InputTooLong` and
/// produces no value.
pub fn pack_identifier(bytes: &[u8]) -> (r: Result<u128, PackError>)
    ensures
        bytes@.len() <= MAX_IDENTIFIER_BYTES ==> (r matches Ok(v) && v == le_value(bytes@)),
        bytes@.len() > MAX_IDENTIFIER_BYTES ==> r == Err::<u128, PackError>(
            PackError::InputTooLong,
        ),
{
    if bytes.len() > MAX_IDENTIFIER_BYTES {
        return Err(PackError::InputTooLong);
    }
    let mut value: u128 = 0;
    let mut i: usize = bytes.len();
    while i > 0
        invariant
            i <= bytes@.len() <= MAX_IDENTIFIER_BYTES,
            value == le_value(bytes@.skip(i as int)),
        decreases i,
    {
        i = i - 1;
        proof {
            assert(bytes@.skip(i as int).drop_first() =~= bytes@.skip(i as int + 1));
            lemma_le_value_bound(bytes@.skip(i as int + 1));
            lemma_pow256_increases(bytes@.skip(i as int + 1).len(), 15);
            lemma_pow256_15();
        }
        value = value * 256 + (bytes[i] as u128);
    }
    proof {
        assert(bytes@.skip(0) =~= bytes@);
    }
    Ok(value)
}

/// Packs the UTF-8 bytes of a textual identifier into a 128-bit unsigned
/// integer, little-endian, zero-padded; an identifier of more than 16 bytes
/// fails with `InputTooLong`.
pub fn oyldb_str_to_u128(s: &str) -> (r: Result<u128, PackError>)
    ensures
        s.spec_bytes().len() <= MAX_IDENTIFIER_BYTES ==> (r matches Ok(v) && v == le_value(
            s.spec_bytes(),
        )),
        s.spec_bytes().len() > MAX_IDENTIFIER_BYTES ==> r == Err::<u128, PackError>(
            PackError::InputTooLong,
        ),
{
    pack_identifier(s.as_bytes())
}

} // verus!

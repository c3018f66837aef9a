use vstd::prelude::*;
use vstd::arithmetic::power2::{pow2, lemma_pow2_unfold, lemma_pow2_pos, lemma2_to64};
use vstd::bits::{lemma_u32_shl_is_mul, lemma_u32_shr_is_div};

verus! {

/// The mask that selects bit `k` of a byte, counting from the most significant bit
/// (`k == 0` is `0x80`, `k == 7` is `0x01`); every other `k` gives `0`.
pub open spec fn bit_mask(k: int) -> u8 {
    if k == 0 {
        0x80u8
    } else if k == 1 {
        0x40u8
    } else if k == 2 {
        0x20u8
    } else if k == 3 {
        0x10u8
    } else if k == 4 {
        0x08u8
    } else if k == 5 {
        0x04u8
    } else if k == 6 {
        0x02u8
    } else if k == 7 {
        0x01u8
    } else {
        0u8
    }
}

/// Where a cursor mask stands inside its byte: `bit_mask(r) == mask` gives `r`,
/// and the empty mask stands past the last bit (`8`).
pub open spec fn mask_rank(mask: u8) -> int {
    if mask == 0x80u8 {
        0
    } else if mask == 0x40u8 {
        1
    } else if mask == 0x20u8 {
        2
    } else if mask == 0x10u8 {
        3
    } else if mask == 0x08u8 {
        4
    } else if mask == 0x04u8 {
        5
    } else if mask == 0x02u8 {
        6
    } else if mask == 0x01u8 {
        7
    } else if mask == 0u8 {
        8
    } else {
        -1
    }
}

/// Bit `k` of byte `b`, most significant first.
pub open spec fn bit_of(b: u8, k: int) -> bool {
    b & bit_mask(k) != 0u8
}

/// Bit `i` of a byte string read most significant bit first.
pub open spec fn bit_at(data: Seq<u8>, i: int) -> bool {
    bit_of(data[i / 8], i % 8)
}

/// All the bits of a byte string, most significant bit of each byte first.
pub open spec fn unpack(data: Seq<u8>) -> Seq<bool> {
    Seq::new(8 * data.len(), |i: int| bit_at(data, i))
}

/// Bit `i` of a bit string extended with `false` on both sides.
pub open spec fn padded_bit(bits: Seq<bool>, i: int) -> bool {
    0 <= i < bits.len() && bits[i]
}

/// The byte whose bits, most significant first, are `c0` .. `c7`.
pub open spec fn byte_from_bits(
    c0: bool,
    c1: bool,
    c2: bool,
    c3: bool,
    c4: bool,
    c5: bool,
    c6: bool,
    c7: bool,
) -> u8 {
    (if c0 { 0x80u8 } else { 0u8 }) | (if c1 { 0x40u8 } else { 0u8 }) | (if c2 {
        0x20u8
    } else {
        0u8
    }) | (if c3 { 0x10u8 } else { 0u8 }) | (if c4 { 0x08u8 } else { 0u8 }) | (if c5 {
        0x04u8
    } else {
        0u8
    }) | (if c6 { 0x02u8 } else { 0u8 }) | (if c7 { 0x01u8 } else { 0u8 })
}

/// Byte `j` of the packing of `bits`.
pub open spec fn pack_byte(bits: Seq<bool>, j: int) -> u8 {
    byte_from_bits(
        padded_bit(bits, 8 * j),
        padded_bit(bits, 8 * j + 1),
        padded_bit(bits, 8 * j + 2),
        padded_bit(bits, 8 * j + 3),
        padded_bit(bits, 8 * j + 4),
        padded_bit(bits, 8 * j + 5),
        padded_bit(bits, 8 * j + 6),
        padded_bit(bits, 8 * j + 7),
    )
}

/// Bits packed eight to a byte, most significant bit first; the last byte is filled
/// with zero bits.
pub open spec fn pack(bits: Seq<bool>) -> Seq<u8> {
    Seq::new(((bits.len() + 7) / 8) as nat, |j: int| pack_byte(bits, j))
}

/// The unsigned number whose `n` binary digits, most significant first, are the bits
/// of `data` from position `pos` on.
pub open spec fn bits_value(data: Seq<u8>, pos: int, n: nat) -> nat
    decreases n,
{
    if n == 0 {
        0
    } else {
        2 * bits_value(data, pos, (n - 1) as nat) + if bit_at(data, pos + n - 1) {
            1nat
        } else {
            0nat
        }
    }
}


proof fn lemma_or_is_add(v: u32, s: u32, q: u32) by (bit_vector)
    requires
        s < 31,
        v == q * ((1u32 << s) << 1u32),
    ensures
        v | (1u32 << s) == v + (1u32 << s),
{
}

/// One step of assembling a number from its binary digits: with the digits read so
/// far standing above a one-bit mask at exponent `s`, or-ing the mask in adds the next
/// digit, and the mask moves one digit down.
proof fn lemma_value_step(value: u32, mask: u32, s: nat, prefix: nat)
    requires
        s < 16,
        mask as int == pow2(s),
        value as int == prefix * pow2(s + 1),
    ensures
        (value | mask) as int == (2 * prefix + 1) * pow2(s),
        value as int == (2 * prefix) * pow2(s),
        s > 0 ==> (mask >> 1u32) as int == pow2((s - 1) as nat),
{
    lemma_pow2_unfold(s + 1);
    lemma_pow2_pos(s);
    lemma_u32_shl_is_mul(1u32, s as u32);
    lemma2_to64();
    assert(pow2(s) <= 0x8000) by {
        if s < 15 {
            vstd::arithmetic::power2::lemma_pow2_strictly_increases(s, 15);
        }
    }
    lemma_u32_shl_is_mul(mask, 1u32);
    assert(mask == (1u32 << (s as u32)));
    assert(value as int == (2 * prefix) * pow2(s)) by (nonlinear_arith)
        requires
            value as int == prefix * pow2(s + 1),
            pow2(s + 1) == 2 * pow2(s),
    ;
    assert(prefix <= value) by (nonlinear_arith)
        requires
            value as int == (2 * prefix) * pow2(s),
            pow2(s) > 0,
    ;
    let q = prefix as u32;
    assert(value == q * ((1u32 << (s as u32)) << 1u32)) by (nonlinear_arith)
        requires
            value as int == (2 * prefix) * pow2(s),
            ((1u32 << (s as u32)) << 1u32) as int == 2 * pow2(s),
            q == prefix,
    ;
    lemma_or_is_add(value, s as u32, q);
    assert((value | mask) as int == (2 * prefix + 1) * pow2(s)) by (nonlinear_arith)
        requires
            (value | mask) as int == value + mask,
            value as int == (2 * prefix) * pow2(s),
            mask as int == pow2(s),
    ;
    if s > 0 {
        lemma_u32_shr_is_div(mask, 1u32);
        lemma_pow2_unfold(s);
    }
}

/// The next digit of `bits_value`.
proof fn lemma_bits_value_next(data: Seq<u8>, pos: int, i: nat)
    ensures
        bits_value(data, pos, i + 1) == 2 * bits_value(data, pos, i) + if bit_at(data, pos + i) {
            1nat
        } else {
            0nat
        },
{
}

proof fn lemma_mask_table()
    ensures
        forall|k: int| 0 <= k < 8 ==> #[trigger] mask_rank(bit_mask(k)) == k,
        forall|k: int| 0 <= k < 8 ==> #[trigger] bit_mask(k) != 0u8,
        mask_rank(0u8) == 8,
{
}

proof fn lemma_shift_mask(m: u8) by (bit_vector)
    ensures
        m == 0x80u8 ==> m >> 1u8 == 0x40u8,
        m == 0x40u8 ==> m >> 1u8 == 0x20u8,
        m == 0x20u8 ==> m >> 1u8 == 0x10u8,
        m == 0x10u8 ==> m >> 1u8 == 0x08u8,
        m == 0x08u8 ==> m >> 1u8 == 0x04u8,
        m == 0x04u8 ==> m >> 1u8 == 0x02u8,
        m == 0x02u8 ==> m >> 1u8 == 0x01u8,
        m == 0x01u8 ==> m >> 1u8 == 0u8,
{
}

/// Or-ing a single-bit mask into a byte sets that bit and leaves the others.
proof fn lemma_or_bit(x: u8, m: u8, t: u8) by (bit_vector)
    ensures
        ((x | m) & t != 0u8) == ((x & t != 0u8) || (m & t != 0u8)),
        (0u8 & t) == 0u8,
{
}

proof fn lemma_masks_disjoint(r: int, t: int)
    requires
        0 <= r < 8,
        0 <= t < 8,
    ensures
        (bit_mask(r) & bit_mask(t) != 0u8) == (r == t),
{
    assert((0x80u8 & 0x80u8) != 0u8 && (0x80u8 & 0x40u8) == 0u8 && (0x80u8 & 0x20u8) == 0u8
        && (0x80u8 & 0x10u8) == 0u8 && (0x80u8 & 0x08u8) == 0u8 && (0x80u8 & 0x04u8) == 0u8
        && (0x80u8 & 0x02u8) == 0u8 && (0x80u8 & 0x01u8) == 0u8 && (0x40u8 & 0x80u8) == 0u8
        && (0x40u8 & 0x40u8) != 0u8 && (0x40u8 & 0x20u8) == 0u8 && (0x40u8 & 0x10u8) == 0u8
        && (0x40u8 & 0x08u8) == 0u8 && (0x40u8 & 0x04u8) == 0u8 && (0x40u8 & 0x02u8) == 0u8
        && (0x40u8 & 0x01u8) == 0u8 && (0x20u8 & 0x80u8) == 0u8 && (0x20u8 & 0x40u8) == 0u8
        && (0x20u8 & 0x20u8) != 0u8 && (0x20u8 & 0x10u8) == 0u8 && (0x20u8 & 0x08u8) == 0u8
        && (0x20u8 & 0x04u8) == 0u8 && (0x20u8 & 0x02u8) == 0u8 && (0x20u8 & 0x01u8) == 0u8
        && (0x10u8 & 0x80u8) == 0u8 && (0x10u8 & 0x40u8) == 0u8 && (0x10u8 & 0x20u8) == 0u8
        && (0x10u8 & 0x10u8) != 0u8 && (0x10u8 & 0x08u8) == 0u8 && (0x10u8 & 0x04u8) == 0u8
        && (0x10u8 & 0x02u8) == 0u8 && (0x10u8 & 0x01u8) == 0u8 && (0x08u8 & 0x80u8) == 0u8
        && (0x08u8 & 0x40u8) == 0u8 && (0x08u8 & 0x20u8) == 0u8 && (0x08u8 & 0x10u8) == 0u8
        && (0x08u8 & 0x08u8) != 0u8 && (0x08u8 & 0x04u8) == 0u8 && (0x08u8 & 0x02u8) == 0u8
        && (0x08u8 & 0x01u8) == 0u8 && (0x04u8 & 0x80u8) == 0u8 && (0x04u8 & 0x40u8) == 0u8
        && (0x04u8 & 0x20u8) == 0u8 && (0x04u8 & 0x10u8) == 0u8 && (0x04u8 & 0x08u8) == 0u8
        && (0x04u8 & 0x04u8) != 0u8 && (0x04u8 & 0x02u8) == 0u8 && (0x04u8 & 0x01u8) == 0u8
        && (0x02u8 & 0x80u8) == 0u8 && (0x02u8 & 0x40u8) == 0u8 && (0x02u8 & 0x20u8) == 0u8
        && (0x02u8 & 0x10u8) == 0u8 && (0x02u8 & 0x08u8) == 0u8 && (0x02u8 & 0x04u8) == 0u8
        && (0x02u8 & 0x02u8) != 0u8 && (0x02u8 & 0x01u8) == 0u8 && (0x01u8 & 0x80u8) == 0u8
        && (0x01u8 & 0x40u8) == 0u8 && (0x01u8 & 0x20u8) == 0u8 && (0x01u8 & 0x10u8) == 0u8
        && (0x01u8 & 0x08u8) == 0u8 && (0x01u8 & 0x04u8) == 0u8 && (0x01u8 & 0x02u8) == 0u8
        && (0x01u8 & 0x01u8) != 0u8) by (bit_vector);
}

/// The bits of `byte_from_bits` are its arguments.
proof fn lemma_byte_from_bits(
    c0: bool,
    c1: bool,
    c2: bool,
    c3: bool,
    c4: bool,
    c5: bool,
    c6: bool,
    c7: bool,
)
    ensures
        bit_of(byte_from_bits(c0, c1, c2, c3, c4, c5, c6, c7), 0) == c0,
        bit_of(byte_from_bits(c0, c1, c2, c3, c4, c5, c6, c7), 1) == c1,
        bit_of(byte_from_bits(c0, c1, c2, c3, c4, c5, c6, c7), 2) == c2,
        bit_of(byte_from_bits(c0, c1, c2, c3, c4, c5, c6, c7), 3) == c3,
        bit_of(byte_from_bits(c0, c1, c2, c3, c4, c5, c6, c7), 4) == c4,
        bit_of(byte_from_bits(c0, c1, c2, c3, c4, c5, c6, c7), 5) == c5,
        bit_of(byte_from_bits(c0, c1, c2, c3, c4, c5, c6, c7), 6) == c6,
        bit_of(byte_from_bits(c0, c1, c2, c3, c4, c5, c6, c7), 7) == c7,
{
    let b = byte_from_bits(c0, c1, c2, c3, c4, c5, c6, c7);
    assert(b == byte_from_bits(c0, c1, c2, c3, c4, c5, c6, c7));
    assert({
        let v = (if c0 { 0x80u8 } else { 0u8 }) | (if c1 { 0x40u8 } else { 0u8 }) | (if c2 {
            0x20u8
        } else {
            0u8
        }) | (if c3 { 0x10u8 } else { 0u8 }) | (if c4 { 0x08u8 } else { 0u8 }) | (if c5 {
            0x04u8
        } else {
            0u8
        }) | (if c6 { 0x02u8 } else { 0u8 }) | (if c7 { 0x01u8 } else { 0u8 });
        &&& (v & 0x80u8 != 0u8) == c0
        &&& (v & 0x40u8 != 0u8) == c1
        &&& (v & 0x20u8 != 0u8) == c2
        &&& (v & 0x10u8 != 0u8) == c3
        &&& (v & 0x08u8 != 0u8) == c4
        &&& (v & 0x04u8 != 0u8) == c5
        &&& (v & 0x02u8 != 0u8) == c6
        &&& (v & 0x01u8 != 0u8) == c7
    }) by (bit_vector);
}

/// A byte is determined by its eight bits.
proof fn lemma_byte_ext(a: u8, b: u8)
    requires
        forall|k: int| 0 <= k < 8 ==> bit_of(a, k) == bit_of(b, k),
    ensures
        a == b,
{
    assert(bit_of(a, 0) == bit_of(b, 0));
    assert(bit_of(a, 1) == bit_of(b, 1));
    assert(bit_of(a, 2) == bit_of(b, 2));
    assert(bit_of(a, 3) == bit_of(b, 3));
    assert(bit_of(a, 4) == bit_of(b, 4));
    assert(bit_of(a, 5) == bit_of(b, 5));
    assert(bit_of(a, 6) == bit_of(b, 6));
    assert(bit_of(a, 7) == bit_of(b, 7));
    assert(a == b) by (bit_vector)
        requires
            (a & 0x80u8 != 0u8) == (b & 0x80u8 != 0u8),
            (a & 0x40u8 != 0u8) == (b & 0x40u8 != 0u8),
            (a & 0x20u8 != 0u8) == (b & 0x20u8 != 0u8),
            (a & 0x10u8 != 0u8) == (b & 0x10u8 != 0u8),
            (a & 0x08u8 != 0u8) == (b & 0x08u8 != 0u8),
            (a & 0x04u8 != 0u8) == (b & 0x04u8 != 0u8),
            (a & 0x02u8 != 0u8) == (b & 0x02u8 != 0u8),
            (a & 0x01u8 != 0u8) == (b & 0x01u8 != 0u8),
    ;
}

/// Every bit of a packed string is the corresponding (padded) bit.
pub proof fn lemma_pack_bits(bits: Seq<bool>)
    ensures
        pack(bits).len() == (bits.len() + 7) / 8,
        forall|i: int|
            0 <= i < 8 * pack(bits).len() ==> #[trigger] bit_at(pack(bits), i) == padded_bit(
                bits,
                i,
            ),
{
    assert forall|i: int| 0 <= i < 8 * pack(bits).len() implies #[trigger] bit_at(pack(bits), i)
        == padded_bit(bits, i) by {
        let j = i / 8;
        lemma_byte_from_bits(
            padded_bit(bits, 8 * j),
            padded_bit(bits, 8 * j + 1),
            padded_bit(bits, 8 * j + 2),
            padded_bit(bits, 8 * j + 3),
            padded_bit(bits, 8 * j + 4),
            padded_bit(bits, 8 * j + 5),
            padded_bit(bits, 8 * j + 6),
            padded_bit(bits, 8 * j + 7),
        );
    }
}

/// Two byte strings of one length with the same bits are equal.
pub proof fn lemma_bytes_ext(a: Seq<u8>, b: Seq<u8>)
    requires
        a.len() == b.len(),
        forall|i: int| 0 <= i < 8 * a.len() ==> #[trigger] bit_at(a, i) == bit_at(b, i),
    ensures
        a == b,
{
    assert forall|j: int| 0 <= j < a.len() implies a[j] == b[j] by {
        assert forall|k: int| 0 <= k < 8 implies bit_of(a[j], k) == bit_of(b[j], k) by {
            assert(bit_at(a, 8 * j + k) == bit_at(b, 8 * j + k));
        }
        lemma_byte_ext(a[j], b[j]);
    }
    assert(a =~= b);
}

/// Unpacking a byte string and packing its bits again gives the byte string back.
pub proof fn lemma_pack_unpack(data: Seq<u8>)
    ensures
        pack(unpack(data)) == data,
{
    lemma_pack_bits(unpack(data));
    assert forall|i: int| 0 <= i < 8 * data.len() implies #[trigger] bit_at(pack(unpack(data)), i)
        == bit_at(data, i) by {
        assert(padded_bit(unpack(data), i) == bit_at(data, i));
    }
    lemma_bytes_ext(pack(unpack(data)), data);
}

/// Packing a bit string whose length is a multiple of eight and unpacking the bytes
/// gives the bit string back.
pub proof fn lemma_unpack_pack(bits: Seq<bool>)
    requires
        bits.len() % 8 == 0,
    ensures
        unpack(pack(bits)) == bits,
{
    lemma_pack_bits(bits);
    assert(unpack(pack(bits)) =~= bits);
}

/// The bits of each byte are read from the most significant down: the eight bits
/// starting at bit `8 * j` make up byte `j` itself, and bit `8 * j + k` is binary
/// digit `7 - k` of that byte.
pub proof fn lemma_byte_bits(data: Seq<u8>, j: int)
    requires
        0 <= j < data.len(),
    ensures
        bits_value(data, 8 * j, 8) == data[j],
        forall|k: int|
            0 <= k < 8 ==> #[trigger] bit_at(data, 8 * j + k) == ((data[j] as int / pow2(
                (7 - k) as nat,
            ) as int) % 2 == 1),
{
    let b = data[j];
    assert forall|k: int| 0 <= k < 8 implies #[trigger] bit_at(data, 8 * j + k) == bit_of(b, k) by {
        assert((8 * j + k) / 8 == j && (8 * j + k) % 8 == k);
    }
    reveal_with_fuel(bits_value, 9);
    assert(b as int == 128 * (if b & 0x80u8 != 0u8 { 1int } else { 0int }) + 64 * (if b & 0x40u8
        != 0u8 {
        1int
    } else {
        0int
    }) + 32 * (if b & 0x20u8 != 0u8 { 1int } else { 0int }) + 16 * (if b & 0x10u8 != 0u8 {
        1int
    } else {
        0int
    }) + 8 * (if b & 0x08u8 != 0u8 { 1int } else { 0int }) + 4 * (if b & 0x04u8 != 0u8 {
        1int
    } else {
        0int
    }) + 2 * (if b & 0x02u8 != 0u8 { 1int } else { 0int }) + (if b & 0x01u8 != 0u8 {
        1int
    } else {
        0int
    })) by (bit_vector);
    assert(bit_at(data, 8 * j) == bit_of(b, 0));
    assert(bit_at(data, 8 * j + 1) == bit_of(b, 1));
    assert(bit_at(data, 8 * j + 2) == bit_of(b, 2));
    assert(bit_at(data, 8 * j + 3) == bit_of(b, 3));
    assert(bit_at(data, 8 * j + 4) == bit_of(b, 4));
    assert(bit_at(data, 8 * j + 5) == bit_of(b, 5));
    assert(bit_at(data, 8 * j + 6) == bit_of(b, 6));
    assert(bit_at(data, 8 * j + 7) == bit_of(b, 7));
    lemma2_to64();
    assert(((b & 0x80u8) != 0u8) == ((b / 128u8) % 2u8 == 1u8)) by (bit_vector);
    assert(((b & 0x40u8) != 0u8) == ((b / 64u8) % 2u8 == 1u8)) by (bit_vector);
    assert(((b & 0x20u8) != 0u8) == ((b / 32u8) % 2u8 == 1u8)) by (bit_vector);
    assert(((b & 0x10u8) != 0u8) == ((b / 16u8) % 2u8 == 1u8)) by (bit_vector);
    assert(((b & 0x08u8) != 0u8) == ((b / 8u8) % 2u8 == 1u8)) by (bit_vector);
    assert(((b & 0x04u8) != 0u8) == ((b / 4u8) % 2u8 == 1u8)) by (bit_vector);
    assert(((b & 0x02u8) != 0u8) == ((b / 2u8) % 2u8 == 1u8)) by (bit_vector);
    assert(((b & 0x01u8) != 0u8) == (b % 2u8 == 1u8)) by (bit_vector);
    assert forall|k: int| 0 <= k < 8 implies #[trigger] bit_at(data, 8 * j + k) == ((b as int
        / pow2((7 - k) as nat) as int) % 2 == 1) by {
        assert(bit_at(data, 8 * j + k) == bit_of(b, k));
        if k == 0 {
            assert(pow2(7) == 128);
        } else if k == 1 {
            assert(pow2(6) == 64);
        } else if k == 2 {
            assert(pow2(5) == 32);
        } else if k == 3 {
            assert(pow2(4) == 16);
        } else if k == 4 {
            assert(pow2(3) == 8);
        } else if k == 5 {
            assert(pow2(2) == 4);
        } else if k == 6 {
            assert(pow2(1) == 2);
        } else {
            assert(pow2(0) == 1);
        }
    }
}


/// A cursor that reads the bits of a byte string one at a time, most significant bit
/// of each byte first.
pub struct BitEnumerator {
    data: Vec<u8>,
    index: usize,
    mask: u8,
}

impl BitEnumerator {
    /// The bytes being read.
    pub closed spec fn source(&self) -> Seq<u8> {
        self.data@
    }

    /// How many bits have been read.
    pub closed spec fn position(&self) -> int {
        8 * self.index + mask_rank(self.mask)
    }

    /// The cursor stands inside the data (or at the start of empty data).
    pub closed spec fn wf(&self) -> bool {
        &&& 0 <= mask_rank(self.mask) <= 8
        &&& self.data@.len() == 0 ==> self.index == 0 && self.mask == 0x80u8
        &&& self.data@.len() > 0 ==> self.index < self.data@.len()
    }

    /// A well-formed cursor stands between the start and the end of its data.
    pub proof fn lemma_position_in_data(&self)
        requires
            self.wf(),
        ensures
            0 <= self.position() <= 8 * self.source().len(),
    {
    }

    /// Whether `n` more bits remain to be read.
    pub open spec fn can_read(&self, n: int) -> bool {
        self.position() + n <= 8 * self.source().len()
    }

    pub fn new(data: Vec<u8>) -> (e: Self)
        ensures
            e.wf(),
            e.source() == data@,
            e.position() == 0,
    {
        Self { data, index: 0, mask: 0x80 }
    }

    /// Whether another bit can be read. On empty data it answers `true`, although
    /// there is nothing to read.
    pub fn has_next(&self) -> (r: bool)
        requires
            self.wf(),
        ensures
            r == (self.source().len() == 0 || self.position() < 8 * self.source().len()),
    {
        self.mask != 0 || self.index != self.data.len() - 1
    }

    /// Reads the next bit.
    pub fn next(&mut self) -> (b: bool)
        requires
            old(self).wf(),
            old(self).can_read(1),
        ensures
            final(self).wf(),
            final(self).source() == old(self).source(),
            final(self).position() == old(self).position() + 1,
            b == bit_at(old(self).source(), old(self).position()),
    {
        proof {
            lemma_mask_table();
        }
        if self.mask == 0 {
            assert(mask_rank(self.mask) == 8);
            assert(self.index + 1 < self.data.len());
            self.index += 1;
            self.mask = 0x80;
        }
        let b = (self.data[self.index] & self.mask) != 0;
        proof {
            lemma_shift_mask(self.mask);
        }
        self.mask >>= 1;
        b
    }

    /// Reads the next two bits as an unsigned number, most significant bit first.
    pub fn next_uint2(&mut self) -> (v: u32)
        requires
            old(self).wf(),
            old(self).can_read(2),
        ensures
            final(self).wf(),
            final(self).source() == old(self).source(),
            final(self).position() == old(self).position() + 2,
            v == bits_value(old(self).source(), old(self).position(), 2),
    {
        let ghost start = self.position();
        let mut bit_mask: u32 = 0x02;
        let mut value: u32 = 0;
        proof {
            lemma2_to64();
        }
        for i in 0..2
            invariant
                self.wf(),
                self.source() == old(self).source(),
                start == old(self).position(),
                start + 2 <= 8 * self.source().len(),
                self.position() == start + i,
                i < 2 ==> bit_mask as int == pow2((1 - i) as nat),
                value as int == bits_value(self.source(), start, i as nat) * pow2((2 - i) as nat),
        {
            proof {
                lemma_value_step(value, bit_mask, (1 - i) as nat, bits_value(self.source(), start, i as nat));
                lemma_bits_value_next(self.source(), start, i as nat);
                lemma_pow2_pos((1 - i) as nat);
            }
            if self.next() {
                value |= bit_mask;
            }
            bit_mask >>= 1;
        }
        proof {
            lemma2_to64();
        }
        value
    }

    /// Reads the next eight bits as an unsigned number, most significant bit first.
    pub fn next_uint8(&mut self) -> (v: u32)
        requires
            old(self).wf(),
            old(self).can_read(8),
        ensures
            final(self).wf(),
            final(self).source() == old(self).source(),
            final(self).position() == old(self).position() + 8,
            v == bits_value(old(self).source(), old(self).position(), 8),
    {
        let ghost start = self.position();
        let mut bit_mask: u32 = 0x80;
        let mut value: u32 = 0;
        proof {
            lemma2_to64();
        }
        for i in 0..8
            invariant
                self.wf(),
                self.source() == old(self).source(),
                start == old(self).position(),
                start + 8 <= 8 * self.source().len(),
                self.position() == start + i,
                i < 8 ==> bit_mask as int == pow2((7 - i) as nat),
                value as int == bits_value(self.source(), start, i as nat) * pow2((8 - i) as nat),
        {
            proof {
                lemma_value_step(value, bit_mask, (7 - i) as nat, bits_value(self.source(), start, i as nat));
                lemma_bits_value_next(self.source(), start, i as nat);
                lemma_pow2_pos((7 - i) as nat);
            }
            if self.next() {
                value |= bit_mask;
            }
            bit_mask >>= 1;
        }
        proof {
            lemma2_to64();
        }
        value
    }

    /// Reads the next sixteen bits as an unsigned number, most significant bit first.
    pub fn next_uint16(&mut self) -> (v: u32)
        requires
            old(self).wf(),
            old(self).can_read(16),
        ensures
            final(self).wf(),
            final(self).source() == old(self).source(),
            final(self).position() == old(self).position() + 16,
            v == bits_value(old(self).source(), old(self).position(), 16),
    {
        let ghost start = self.position();
        let mut bit_mask: u32 = 0x8000;
        let mut value: u32 = 0;
        proof {
            lemma2_to64();
        }
        for i in 0..16
            invariant
                self.wf(),
                self.source() == old(self).source(),
                start == old(self).position(),
                start + 16 <= 8 * self.source().len(),
                self.position() == start + i,
                i < 16 ==> bit_mask as int == pow2((15 - i) as nat),
                value as int == bits_value(self.source(), start, i as nat) * pow2((16 - i) as nat),
        {
            proof {
                lemma_value_step(value, bit_mask, (15 - i) as nat, bits_value(self.source(), start, i as nat));
                lemma_bits_value_next(self.source(), start, i as nat);
                lemma_pow2_pos((15 - i) as nat);
            }
            if self.next() {
                value |= bit_mask;
            }
            bit_mask >>= 1;
        }
        proof {
            lemma2_to64();
        }
        value
    }


    /// Reads every remaining bit, in order, leaving the cursor at the end of the data.
    pub fn for_all(&mut self) -> (bits: Vec<bool>)
        requires
            old(self).wf(),
            old(self).source().len() > 0,
        ensures
            final(self).wf(),
            final(self).source() == old(self).source(),
            final(self).position() == 8 * old(self).source().len(),
            bits@ == unpack(old(self).source()).subrange(
                old(self).position(),
                8 * old(self).source().len() as int,
            ),
    {
        let mut bits: Vec<bool> = Vec::new();
        let ghost start = self.position();
        let ghost all = unpack(self.source());
        while self.has_next()
            invariant
                self.wf(),
                self.source() == old(self).source(),
                self.source().len() > 0,
                all == unpack(self.source()),
                start == old(self).position(),
                0 <= start <= self.position() <= 8 * self.source().len(),
                bits@ == all.subrange(start, self.position()),
            decreases 8 * self.source().len() - self.position(),
        {
            let ghost p = self.position();
            assert(p < 8 * self.source().len());
            let b = self.next();
            assert(all[p] == b);
            bits.push(b);
            assert(bits@ =~= all.subrange(start, self.position()));
        }
        bits
    }
}


/// Collects bits into bytes, most significant bit of each byte first.
pub struct BitAggregator {
    data: Vec<u8>,
    bit_mask: u8,
}

impl BitAggregator {
    /// How many bits have been appended.
    pub closed spec fn count(&self) -> int {
        if self.data@.len() == 0 {
            0
        } else {
            8 * (self.data@.len() - 1) + mask_rank(self.bit_mask)
        }
    }

    /// The bits appended so far, in order.
    pub closed spec fn bits(&self) -> Seq<bool> {
        unpack(self.data@).take(self.count())
    }

    pub closed spec fn wf(&self) -> bool {
        &&& self.data@.len() == 0 ==> self.bit_mask == 0u8
        &&& self.data@.len() > 0 ==> 1 <= mask_rank(self.bit_mask) <= 8
        &&& forall|t: int|
            self.count() <= t < 8 * self.data@.len() ==> !#[trigger] bit_at(self.data@, t)
    }

    pub fn new() -> (a: Self)
        ensures
            a.wf(),
            a.bits() == Seq::<bool>::empty(),
    {
        Self { data: Vec::new(), bit_mask: 0 }
    }

    /// Appends one bit.
    pub fn append(&mut self, bit: bool)
        requires
            old(self).wf(),
        ensures
            final(self).wf(),
            final(self).bits() == old(self).bits().push(bit),
    {
        proof {
            lemma_mask_table();
        }
        let ghost d0 = self.data@;
        let ghost n = self.count();
        if self.bit_mask == 0 {
            self.bit_mask = 0x80;
            self.data.push(0);
            proof {
                assert forall|t: int| 0 <= t < 8 * self.data@.len() implies #[trigger] bit_at(
                    self.data@,
                    t,
                ) == (t < 8 * d0.len() && bit_at(d0, t)) by {
                    lemma_or_bit(0u8, 0u8, bit_mask(t % 8));
                    if t < 8 * d0.len() {
                        assert(self.data@[t / 8] == d0[t / 8]);
                    }
                }
            }
        }
        let ghost d1 = self.data@;
        let ghost r = mask_rank(self.bit_mask);
        assert(0 <= r < 8);
        assert(n == 8 * (d1.len() - 1) + r);
        if bit {
            let last = self.data.len() - 1;
            self.data[last] |= self.bit_mask;
            proof {
                assert forall|t: int| 0 <= t < 8 * d1.len() implies #[trigger] bit_at(
                    self.data@,
                    t,
                ) == (bit_at(d1, t) || t == n) by {
                    if t / 8 == last {
                        lemma_or_bit(d1[t / 8], bit_mask(r), bit_mask(t % 8));
                        lemma_masks_disjoint(r, t % 8);
                    } else {
                        assert(self.data@[t / 8] == d1[t / 8]);
                    }
                }
            }
        }
        proof {
            lemma_shift_mask(self.bit_mask);
        }
        self.bit_mask >>= 1;
        assert(self.count() == n + 1);
        assert(self.bits() =~= old(self).bits().push(bit));
    }

    /// The collected bytes; the last byte is completed with zero bits.
    pub fn data(&self) -> (bytes: Vec<u8>)
        requires
            self.wf(),
        ensures
            bytes@ == pack(self.bits()),
    {
        proof {
            lemma_pack_bits(self.bits());
            assert forall|i: int| 0 <= i < 8 * self.data@.len() implies #[trigger] bit_at(
                pack(self.bits()),
                i,
            ) == bit_at(self.data@, i) by {}
            lemma_bytes_ext(pack(self.bits()), self.data@);
        }
        self.data.clone()
    }
}

} // verus!

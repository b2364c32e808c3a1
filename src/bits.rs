//! The bit layout of a packed counter and the facts about it that the
//! counter's operations rest on.
use vstd::prelude::*;

verus! {

/// The four-bit slot of the rank at index `i` (identity `i + 1`).
pub open spec fn slot_bits(cards: u64, i: u64) -> u64 {
    (cards >> ((4 * i) as u64)) & 0xf
}

/// The presence bit of joker identity `c` (14 or 15).
pub open spec fn joker_bit(cards: u64, c: u64) -> u64 {
    (cards >> ((38 + c) as u64)) & 1
}

/// The slot patterns that thermometer encoding allows.
pub open spec fn is_thermo(b: u64) -> bool {
    b == 0 || b == 1 || b == 3 || b == 7 || b == 15
}

/// The count that a slot pattern stands for.
pub open spec fn decode(b: u64) -> nat {
    if b == 0 {
        0
    } else if b == 1 {
        1
    } else if b == 3 {
        2
    } else if b == 7 {
        3
    } else {
        4
    }
}

/// A packed value in which every rank slot is a thermometer pattern and no
/// bit above the joker bits is set.
pub open spec fn well_formed(cards: u64) -> bool {
    &&& cards >> 54 == 0
    &&& forall|i: u64| i < 13 ==> is_thermo(#[trigger] slot_bits(cards, i))
}

/// The count of card `c` in a packed value.
pub open spec fn count_of(cards: u64, c: int) -> nat {
    if 1 <= c <= 13 {
        decode(slot_bits(cards, (c - 1) as u64))
    } else if c == 14 || c == 15 {
        joker_bit(cards, c as u64) as nat
    } else {
        0
    }
}

/// The counts of all fifteen identities in a packed value.
pub open spec fn counts_of(cards: u64) -> Seq<nat> {
    Seq::new(15, |k: int| count_of(cards, k + 1))
}

/// One step up and one step down the thermometer, slot by slot.
pub proof fn lemma_thermo_steps(b: u64)
    by (bit_vector)
    ensures
        b == 0 ==> (b | 1) == 1,
        b == 1 ==> (b | 3) == 3,
        b == 3 ==> (b | 7) == 7,
        b == 7 ==> (b | 15) == 15,
        b == 15 ==> (b & !8u64) == 7,
        b == 7 ==> (b & !12u64) == 3,
        b == 3 ==> (b & !14u64) == 1,
        b == 1 ==> (b & !15u64) == 0,
{
}

/// Setting bits inside one rank slot leaves the other slots, the joker bits
/// and the bits above them as they were.
pub proof fn lemma_or_slot(x: u64, i: u64, p: u64, j: u64)
    by (bit_vector)
    requires
        i < 13,
        j < 13,
        p < 16,
    ensures
        slot_bits(x | (p << ((4 * i) as u64)), j) == if i == j {
            slot_bits(x, j) | p
        } else {
            slot_bits(x, j)
        },
        joker_bit(x | (p << ((4 * i) as u64)), 14) == joker_bit(x, 14),
        joker_bit(x | (p << ((4 * i) as u64)), 15) == joker_bit(x, 15),
        (x | (p << ((4 * i) as u64))) >> 54 == x >> 54,
{
}

/// Clearing bits inside one rank slot leaves the other slots, the joker bits
/// and the bits above them as they were.
pub proof fn lemma_clear_slot(x: u64, i: u64, m: u64, j: u64)
    by (bit_vector)
    requires
        i < 13,
        j < 13,
        m < 16,
    ensures
        slot_bits(x & !(m << ((4 * i) as u64)), j) == if i == j {
            slot_bits(x, j) & !m
        } else {
            slot_bits(x, j)
        },
        joker_bit(x & !(m << ((4 * i) as u64)), 14) == joker_bit(x, 14),
        joker_bit(x & !(m << ((4 * i) as u64)), 15) == joker_bit(x, 15),
        (x & !(m << ((4 * i) as u64))) >> 54 == x >> 54,
{
}

/// Setting one joker bit leaves the rank slots, the other joker bit and the
/// bits above them as they were.
pub proof fn lemma_set_joker(x: u64, c: u64, j: u64, d: u64)
    by (bit_vector)
    requires
        14 <= c <= 15,
        j < 13,
        14 <= d <= 15,
    ensures
        slot_bits(x | (1u64 << ((38 + c) as u64)), j) == slot_bits(x, j),
        joker_bit(x | (1u64 << ((38 + c) as u64)), d) == if c == d {
            1
        } else {
            joker_bit(x, d)
        },
        (x | (1u64 << ((38 + c) as u64))) >> 54 == x >> 54,
        (x & (1u64 << ((38 + c) as u64)) == 0) == (joker_bit(x, c) == 0),
{
}

/// Clearing one joker bit leaves the rank slots, the other joker bit and the
/// bits above them as they were.
pub proof fn lemma_clear_joker(x: u64, c: u64, j: u64, d: u64)
    by (bit_vector)
    requires
        14 <= c <= 15,
        j < 13,
        14 <= d <= 15,
    ensures
        slot_bits(x & !(1u64 << ((38 + c) as u64)), j) == slot_bits(x, j),
        joker_bit(x & !(1u64 << ((38 + c) as u64)), d) == if c == d {
            0
        } else {
            joker_bit(x, d)
        },
        (x & !(1u64 << ((38 + c) as u64))) >> 54 == x >> 54,
{
}

/// A joker bit is a single bit.
pub proof fn lemma_joker_bit_bound(x: u64, c: u64)
    by (bit_vector)
    ensures
        joker_bit(x, c) <= 1,
{
}

/// The value whose low `n` bits are set and the others clear.
pub open spec fn low_ones(n: u64) -> u64 {
    ((1u64 << n) - 1) as u64
}

/// The low 54 bits set: every rank slot full and both joker bits set.
pub const FULL_BITS: u64 = 0x3f_ffff_ffff_ffff;

/// Filling the low bits one at a time: `n` ones, then `n + 1`.
pub proof fn lemma_fill_step(x: u64, n: u64)
    by (bit_vector)
    requires
        n < 63,
        x == low_ones(n),
    ensures
        ((x << 1u64) | 1) == low_ones((n + 1) as u64),
{
}

/// The value with the low 54 bits set has every rank slot full and both
/// joker bits set.
pub proof fn lemma_full_bits(i: u64, d: u64)
    by (bit_vector)
    requires
        i < 13,
        14 <= d <= 15,
    ensures
        low_ones(54) == FULL_BITS,
        slot_bits(FULL_BITS, i) == 15,
        joker_bit(FULL_BITS, d) == 1,
        FULL_BITS >> 54 == 0,
{
}

/// The zero value has every slot and bit clear.
pub proof fn lemma_zero_bits(i: u64, d: u64)
    by (bit_vector)
    ensures
        slot_bits(0, i) == 0,
        joker_bit(0, d) == 0,
        low_ones(0) == 0,
{
}

} // verus!

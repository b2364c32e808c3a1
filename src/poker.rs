//! The packed deck counter and its operations.
use vstd::prelude::*;

use crate::bits::{
    count_of, counts_of, is_thermo, joker_bit, lemma_clear_joker, lemma_clear_slot,
    lemma_fill_step, lemma_full_bits, lemma_joker_bit_bound, lemma_or_slot, lemma_set_joker,
    lemma_thermo_steps, lemma_zero_bits, low_ones, slot_bits, well_formed,
};
use crate::counts::{
    after_insert, after_remove, can_insert, can_remove, cap, empty_counts, full_counts,
    holds_hand, is_card, minus_hand, within_caps,
};

verus! {

/// A multiset of cards drawn from one 54-card deck, packed into a `u64`.
///
/// Bits `4 * (r - 1)` to `4 * (r - 1) + 3` hold the count of rank `r` in
/// thermometer form (`0000`, `0001`, `0011`, `0111`, `1111`); bit `38 + c`
/// holds the presence of joker `c`.
#[derive(Clone, Copy, Debug)]
pub struct Poker {
    cards: u64,
}

impl View for Poker {
    type V = Seq<nat>;

    /// The count of each identity, identity `c` at index `c - 1`.
    closed spec fn view(&self) -> Seq<nat> {
        counts_of(self.cards)
    }
}

/// What holds of a packed value after one slot or bit of it changed by a
/// known amount while the others stayed.
proof fn lemma_counts_update(x: u64, y: u64, c: int, n: nat)
    requires
        is_card(c),
        count_of(y, c) == n,
        forall|d: int| is_card(d) && d != c ==> #[trigger] count_of(y, d) == count_of(x, d),
    ensures
        counts_of(y) == counts_of(x).update(c - 1, n),
{
    assert(counts_of(y) =~= counts_of(x).update(c - 1, n));
}

/// Setting bits `p` in the slot of rank index `i` keeps the value well formed
/// when the slot's new pattern is a thermometer pattern, and changes no other
/// count.
proof fn lemma_rank_set(x: u64, i: u64, p: u64)
    requires
        well_formed(x),
        i < 13,
        p < 16,
        is_thermo(slot_bits(x, i) | p),
    ensures
        well_formed(x | (p << ((4 * i) as u64))),
        slot_bits(x | (p << ((4 * i) as u64)), i) == slot_bits(x, i) | p,
        forall|d: int|
            is_card(d) && d != i + 1 ==> #[trigger] count_of(x | (p << ((4 * i) as u64)), d)
                == count_of(x, d),
{
    let y = x | (p << ((4 * i) as u64));
    lemma_or_slot(x, i, p, i);
    lemma_or_slot(x, i, p, 0);
    assert forall|j: u64| j < 13 implies is_thermo(#[trigger] slot_bits(y, j)) by {
        lemma_or_slot(x, i, p, j);
    }
    assert forall|d: int| is_card(d) && d != i + 1 implies #[trigger] count_of(y, d) == count_of(
        x,
        d,
    ) by {
        if d <= 13 {
            lemma_or_slot(x, i, p, (d - 1) as u64);
        }
    }
}

/// Clearing bits `m` in the slot of rank index `i` keeps the value well formed
/// when the slot's new pattern is a thermometer pattern, and changes no other
/// count.
proof fn lemma_rank_clear(x: u64, i: u64, m: u64)
    requires
        well_formed(x),
        i < 13,
        m < 16,
        is_thermo(slot_bits(x, i) & !m),
    ensures
        well_formed(x & !(m << ((4 * i) as u64))),
        slot_bits(x & !(m << ((4 * i) as u64)), i) == slot_bits(x, i) & !m,
        forall|d: int|
            is_card(d) && d != i + 1 ==> #[trigger] count_of(x & !(m << ((4 * i) as u64)), d)
                == count_of(x, d),
{
    let y = x & !(m << ((4 * i) as u64));
    lemma_clear_slot(x, i, m, i);
    lemma_clear_slot(x, i, m, 0);
    assert forall|j: u64| j < 13 implies is_thermo(#[trigger] slot_bits(y, j)) by {
        lemma_clear_slot(x, i, m, j);
    }
    assert forall|d: int| is_card(d) && d != i + 1 implies #[trigger] count_of(y, d) == count_of(
        x,
        d,
    ) by {
        if d <= 13 {
            lemma_clear_slot(x, i, m, (d - 1) as u64);
        }
    }
}

/// Setting the bit of joker `c` keeps the value well formed and changes no
/// other count.
proof fn lemma_joker_set(x: u64, c: u64)
    requires
        well_formed(x),
        14 <= c <= 15,
    ensures
        well_formed(x | (1u64 << ((38 + c) as u64))),
        (x & (1u64 << ((38 + c) as u64)) == 0) == (joker_bit(x, c) == 0),
        count_of(x | (1u64 << ((38 + c) as u64)), c as int) == 1,
        forall|d: int|
            is_card(d) && d != c ==> #[trigger] count_of(x | (1u64 << ((38 + c) as u64)), d)
                == count_of(x, d),
{
    let y = x | (1u64 << ((38 + c) as u64));
    lemma_set_joker(x, c, 0, c);
    assert forall|j: u64| j < 13 implies is_thermo(#[trigger] slot_bits(y, j)) by {
        lemma_set_joker(x, c, j, 14);
    }
    assert forall|d: int| is_card(d) && d != c implies #[trigger] count_of(y, d) == count_of(
        x,
        d,
    ) by {
        if d <= 13 {
            lemma_set_joker(x, c, (d - 1) as u64, 14);
        } else {
            lemma_set_joker(x, c, 0, d as u64);
        }
    }
}

/// Clearing the bit of joker `c` keeps the value well formed and changes no
/// other count.
proof fn lemma_joker_clear(x: u64, c: u64)
    requires
        well_formed(x),
        14 <= c <= 15,
    ensures
        well_formed(x & !(1u64 << ((38 + c) as u64))),
        (x & (1u64 << ((38 + c) as u64)) == 0) == (joker_bit(x, c) == 0),
        count_of(x & !(1u64 << ((38 + c) as u64)), c as int) == 0,
        forall|d: int|
            is_card(d) && d != c ==> #[trigger] count_of(x & !(1u64 << ((38 + c) as u64)), d)
                == count_of(x, d),
{
    let y = x & !(1u64 << ((38 + c) as u64));
    lemma_set_joker(x, c, 0, c);
    lemma_clear_joker(x, c, 0, c);
    assert forall|j: u64| j < 13 implies is_thermo(#[trigger] slot_bits(y, j)) by {
        lemma_clear_joker(x, c, j, 14);
    }
    assert forall|d: int| is_card(d) && d != c implies #[trigger] count_of(y, d) == count_of(
        x,
        d,
    ) by {
        if d <= 13 {
            lemma_clear_joker(x, c, (d - 1) as u64, 14);
        } else {
            lemma_clear_joker(x, c, 0, d as u64);
        }
    }
}

/// The counts of a well-formed value stay within what one deck holds.
proof fn lemma_wf_within_caps(x: u64)
    requires
        well_formed(x),
    ensures
        within_caps(counts_of(x)),
{
    assert forall|k: int| 0 <= k < 15 implies #[trigger] counts_of(x)[k] <= cap(k + 1) by {
        if k < 13 {
            assert(is_thermo(slot_bits(x, k as u64)));
        } else {
            lemma_joker_bit_bound(x, (k + 1) as u64);
        }
    }
}

impl Poker {
    #[verifier::type_invariant]
    spec fn inv(&self) -> bool {
        well_formed(self.cards)
    }

    /// An empty counter.
    pub fn new() -> (r: Self)
        ensures
            r@ == empty_counts(),
            within_caps(r@),
    {
        proof {
            assert forall|i: u64| i < 13 implies is_thermo(#[trigger] slot_bits(0, i)) by {
                lemma_zero_bits(i, 14);
            }
            assert(0u64 >> 54 == 0) by (bit_vector);
            lemma_zero_bits(0, 14);
            lemma_zero_bits(0, 15);
            assert forall|k: int| 0 <= k < 15 implies #[trigger] counts_of(0)[k] == 0 by {
                if k < 13 {
                    lemma_zero_bits(k as u64, 14);
                }
            }
            assert(counts_of(0) =~= empty_counts());
        }
        Poker { cards: 0 }
    }

    /// A counter that holds one complete deck: four of every rank and both
    /// jokers.
    pub fn full() -> (r: Self)
        ensures
            r@ == full_counts(),
            within_caps(r@),
    {
        let mut cards: u64 = 0;
        proof {
            lemma_zero_bits(0, 14);
        }
        for n in 0..54u64
            invariant
                cards == low_ones(n),
        {
            proof {
                lemma_fill_step(cards, n);
            }
            cards = (cards << 1) | 1;
        }
        proof {
            lemma_full_bits(0, 14);
            lemma_full_bits(0, 15);
            assert forall|i: u64| i < 13 implies is_thermo(#[trigger] slot_bits(cards, i)) by {
                lemma_full_bits(i, 14);
            }
            assert forall|k: int| 0 <= k < 15 implies #[trigger] counts_of(cards)[k] == cap(
                k + 1,
            ) by {
                if k < 13 {
                    lemma_full_bits(k as u64, 14);
                }
            }
            assert(counts_of(cards) =~= full_counts());
        }
        Poker { cards }
    }

    /// Adds one copy of `card`. Fails, and changes nothing, when the counter
    /// already holds as many copies as one deck has.
    pub fn insert(&mut self, card: u8) -> (r: bool)
        requires
            is_card(card as int),
        ensures
            r == can_insert(old(self)@, card as int),
            final(self)@ == after_insert(old(self)@, card as int),
            within_caps(final(self)@),
    {
        proof {
            use_type_invariant(&*self);
            lemma_wf_within_caps(self.cards);
        }
        let x = self.cards;
        if card < 14 {
            let i: u64 = (card - 1) as u64;
            let shift: u64 = 4 * i;
            let bucket: u64 = (x >> shift) & 0b1111;
            proof {
                lemma_thermo_steps(bucket);
            }
            let pat: u64 = if bucket == 0b0000 {
                0b0001
            } else if bucket == 0b0001 {
                0b0011
            } else if bucket == 0b0011 {
                0b0111
            } else if bucket == 0b0111 {
                0b1111
            } else {
                return false;
            };
            let y = x | (pat << shift);
            proof {
                lemma_rank_set(x, i, pat);
                lemma_counts_update(x, y, card as int, count_of(x, card as int) + 1);
            }
            self.cards = y;
            true
        } else {
            let flag: u64 = 1u64 << (38 + card as u64);
            proof {
                lemma_joker_set(x, card as u64);
                lemma_joker_bit_bound(x, card as u64);
            }
            if x & flag == 0 {
                let y = x | flag;
                proof {
                    lemma_counts_update(x, y, card as int, 1);
                }
                self.cards = y;
                true
            } else {
                false
            }
        }
    }

    /// Takes away one copy of `card`. Fails, and changes nothing, when the
    /// counter holds none.
    pub fn remove(&mut self, card: u8) -> (r: bool)
        requires
            is_card(card as int),
        ensures
            r == can_remove(old(self)@, card as int),
            final(self)@ == after_remove(old(self)@, card as int),
            within_caps(final(self)@),
    {
        proof {
            use_type_invariant(&*self);
            lemma_wf_within_caps(self.cards);
        }
        let x = self.cards;
        if card < 14 {
            let i: u64 = (card - 1) as u64;
            let shift: u64 = 4 * i;
            let bucket: u64 = (x >> shift) & 0b1111;
            proof {
                lemma_thermo_steps(bucket);
            }
            let mask: u64 = if bucket == 0b1111 {
                0b1000
            } else if bucket == 0b0111 {
                0b1100
            } else if bucket == 0b0011 {
                0b1110
            } else if bucket == 0b0001 {
                0b1111
            } else {
                return false;
            };
            let y = x & !(mask << shift);
            proof {
                lemma_rank_clear(x, i, mask);
                lemma_counts_update(x, y, card as int, (count_of(x, card as int) - 1) as nat);
            }
            self.cards = y;
            true
        } else {
            let flag: u64 = 1u64 << (38 + card as u64);
            proof {
                lemma_joker_clear(x, card as u64);
                lemma_joker_bit_bound(x, card as u64);
            }
            if x & flag != 0 {
                let y = x & !flag;
                proof {
                    lemma_counts_update(x, y, card as int, 0);
                }
                self.cards = y;
                true
            } else {
                false
            }
        }
    }

    /// The number of copies of `card` present: 0 to 4 for a rank, 0 or 1
    /// for a joker.
    pub fn count_card(&self, card: u8) -> (r: u32)
        requires
            is_card(card as int),
        ensures
            r == self@[card - 1],
            r <= cap(card as int),
    {
        proof {
            use_type_invariant(self);
        }
        let x = self.cards;
        if card < 14 {
            let shift: u64 = 4 * (card - 1) as u64;
            let bucket: u64 = (x >> shift) & 0b1111;
            match bucket {
                0b0000 => 0,
                0b0001 => 1,
                0b0011 => 2,
                0b0111 => 3,
                _ => 4,
            }
        } else {
            let flag: u64 = 1u64 << (38 + card as u64);
            proof {
                lemma_joker_set(x, card as u64);
                lemma_joker_bit_bound(x, card as u64);
            }
            if x & flag == 0 {
                0
            } else {
                1
            }
        }
    }
}

impl Poker {
    /// Takes every card of `hand` out of this counter, all or nothing: when
    /// some card of `hand` is present fewer times here than in `hand`, fails
    /// and leaves the counter exactly as it was.
    pub fn remove_hand(&mut self, hand: &Self) -> (r: bool)
        ensures
            r == holds_hand(old(self)@, hand@),
            r ==> final(self)@ == minus_hand(old(self)@, hand@),
            !r ==> final(self)@ == old(self)@,
            within_caps(final(self)@),
    {
        proof {
            use_type_invariant(&*self);
            lemma_wf_within_caps(self.cards);
        }
        let saved = *self;
        let ghost start = self@;
        let entries = poker_to_hashmap(hand);
        let n = entries.len();
        proof {
            assert forall|c: int|
                is_card(c) && c < (if n > 0 {
                    entries@[0].0 as int
                } else {
                    16
                }) implies #[trigger] hand@[c - 1] == 0 by {
                if hand@[c - 1] > 0 {
                    let i = choose|i: int| 0 <= i < n && #[trigger] entries@[i].0 == c;
                    if i > 0 {
                        assert(entries@[0].0 < entries@[i].0);
                    }
                }
            }
        }
        let mut k: usize = 0;
        while k < n
            invariant
                n == entries@.len(),
                k <= n,
                saved@ == start,
                old(self)@ == start,
                within_caps(start),
                start.len() == 15,
                self@.len() == 15,
                hand@.len() == 15,
                forall|i: int|
                    0 <= i < n ==> is_card(#[trigger] entries@[i].0 as int) && entries@[i].1
                        == hand@[entries@[i].0 - 1] && entries@[i].1 > 0,
                forall|i: int, j: int| 0 <= i < j < n ==> entries@[i].0 < entries@[j].0,
                forall|c: int|
                    is_card(c) && hand@[c - 1] > 0 ==> exists|i: int|
                        0 <= i < n && #[trigger] entries@[i].0 == c,
                forall|c: int|
                    is_card(c) ==> #[trigger] self@[c - 1] + (if c < (if k < n {
                        entries@[k as int].0 as int
                    } else {
                        16
                    }) {
                        hand@[c - 1]
                    } else {
                        0
                    }) == start[c - 1],
            decreases n - k,
        {
            let (card, count) = entries[k];
            let mut j: u32 = 0;
            while j < count
                invariant
                    j <= count,
                    saved@ == start,
                    old(self)@ == start,
                    within_caps(start),
                    is_card(card as int),
                    count == hand@[card - 1],
                    start.len() == 15,
                    self@.len() == 15,
                    hand@.len() == 15,
                    forall|c: int|
                        is_card(c) ==> #[trigger] self@[c - 1] + (if c < card {
                            hand@[c - 1]
                        } else if c == card {
                            j as nat
                        } else {
                            0
                        }) == start[c - 1],
                decreases count - j,
            {
                if !self.remove(card) {
                    assert(!holds_hand(start, hand@)) by {
                        assert(start[card - 1] < hand@[card - 1]);
                        assert(!(hand@[card - 1] <= start[card - 1]));
                    }
                    *self = saved;
                    return false;
                }
                j = j + 1;
            }
            proof {
                let lo = if k + 1 < n {
                    entries@[k + 1].0 as int
                } else {
                    16
                };
                assert forall|c: int| is_card(c) && card < c < lo implies #[trigger] hand@[c - 1]
                    == 0 by {
                    if hand@[c - 1] > 0 {
                        let i = choose|i: int| 0 <= i < n && #[trigger] entries@[i].0 == c;
                        if i <= k {
                            if i < k {
                                assert(entries@[i].0 < entries@[k as int].0);
                            }
                        } else if i > k + 1 {
                            assert(entries@[k + 1].0 < entries@[i].0);
                        }
                    }
                }
            }
            k = k + 1;
        }
        proof {
            assert forall|i: int| 0 <= i < 15 implies #[trigger] hand@[i] <= start[i] by {
                assert(self@[(i + 1) - 1] + hand@[(i + 1) - 1] == start[(i + 1) - 1]);
            }
            assert(holds_hand(start, hand@));
            assert(self@ =~= minus_hand(start, hand@));
        }
        true
    }
}

/// The identities present in `poker`, in increasing order, each with its
/// count.
pub fn poker_to_hashmap(poker: &Poker) -> (r: Vec<(u8, u32)>)
    ensures
        forall|i: int|
            0 <= i < r@.len() ==> is_card(#[trigger] r@[i].0 as int) && r@[i].1 == poker@[r@[i].0
                - 1] && r@[i].1 > 0,
        forall|i: int, j: int| 0 <= i < j < r@.len() ==> r@[i].0 < r@[j].0,
        forall|c: int|
            is_card(c) && poker@[c - 1] > 0 ==> exists|i: int|
                0 <= i < r@.len() && #[trigger] r@[i].0 == c,
{
    let mut map: Vec<(u8, u32)> = Vec::new();
    for c in 1..16u8
        invariant
            forall|i: int|
                0 <= i < map@.len() ==> is_card(#[trigger] map@[i].0 as int) && map@[i].0 < c
                    && map@[i].1 == poker@[map@[i].0 - 1] && map@[i].1 > 0,
            forall|i: int, j: int| 0 <= i < j < map@.len() ==> map@[i].0 < map@[j].0,
            forall|d: int|
                is_card(d) && d < c && poker@[d - 1] > 0 ==> exists|i: int|
                    0 <= i < map@.len() && #[trigger] map@[i].0 == d,
    {
        let count = poker.count_card(c);
        if count != 0 {
            let ghost before = map@;
            map.push((c, count));
            proof {
                assert forall|d: int|
                    is_card(d) && d < c + 1 && poker@[d - 1] > 0 implies exists|i: int|
                    0 <= i < map@.len() && #[trigger] map@[i].0 == d by {
                    if d == c {
                        assert(map@[before.len() as int].0 == d);
                    } else {
                        let i = choose|i: int| 0 <= i < before.len() && #[trigger] before[i].0 == d;
                        assert(map@[i].0 == d);
                    }
                }
            }
        }
    }
    map
}

} // verus!

//! The mathematical model of a counter: fifteen counts, the count of card
//! identity `c` standing at index `c - 1`.
use vstd::prelude::*;

verus! {

/// A valid card identity.
pub open spec fn is_card(c: int) -> bool {
    1 <= c <= 15
}

/// A rank identity: Ace (1) through King (13).
pub open spec fn is_rank(c: int) -> bool {
    1 <= c <= 13
}

/// How many copies of card `c` one deck holds.
pub open spec fn cap(c: int) -> nat {
    if is_rank(c) {
        4
    } else if c == 14 || c == 15 {
        1
    } else {
        0
    }
}

/// The counts of a counter that holds no card.
pub open spec fn empty_counts() -> Seq<nat> {
    Seq::new(15, |k: int| 0nat)
}

/// The counts of a counter that holds one complete deck.
pub open spec fn full_counts() -> Seq<nat> {
    Seq::new(15, |k: int| cap(k + 1))
}

/// Counts that respect the per-card maximum.
pub open spec fn within_caps(v: Seq<nat>) -> bool {
    &&& v.len() == 15
    &&& forall|k: int| 0 <= k < 15 ==> #[trigger] v[k] <= cap(k + 1)
}

/// One more copy of `c` fits.
pub open spec fn can_insert(v: Seq<nat>, c: int) -> bool {
    v[c - 1] < cap(c)
}

/// The counts after an attempt to add one copy of `c`.
pub open spec fn after_insert(v: Seq<nat>, c: int) -> Seq<nat> {
    if can_insert(v, c) {
        v.update(c - 1, v[c - 1] + 1)
    } else {
        v
    }
}

/// At least one copy of `c` is present.
pub open spec fn can_remove(v: Seq<nat>, c: int) -> bool {
    v[c - 1] > 0
}

/// The counts after an attempt to take away one copy of `c`.
pub open spec fn after_remove(v: Seq<nat>, c: int) -> Seq<nat> {
    if can_remove(v, c) {
        v.update(c - 1, (v[c - 1] - 1) as nat)
    } else {
        v
    }
}

/// `v` holds at least as many copies of every card as `h`.
pub open spec fn holds_hand(v: Seq<nat>, h: Seq<nat>) -> bool {
    forall|k: int| 0 <= k < 15 ==> #[trigger] h[k] <= v[k]
}

/// The counts left when `h` is taken out of `v`.
pub open spec fn minus_hand(v: Seq<nat>, h: Seq<nat>) -> Seq<nat> {
    Seq::new(15, |k: int| (v[k] - h[k]) as nat)
}

} // verus!

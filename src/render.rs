//! The two-line table that shows what a counter holds.
use vstd::prelude::*;

use crate::counts::is_card;
use crate::poker::Poker;

verus! {

/// The identities in the order in which the table shows them: red joker,
/// black joker, 2, Ace, King, Queen, Jack, 10, then 9 down to 3.
pub open spec fn table_order() -> Seq<u8> {
    seq![15u8, 14, 2, 1, 13, 12, 11, 10, 9, 8, 7, 6, 5, 4, 3]
}

/// The character that heads the column of card `c` in the table.
pub open spec fn label_of(c: int) -> char {
    if c == 15 {
        'R'
    } else if c == 14 {
        'B'
    } else if c == 1 {
        'A'
    } else if c == 10 {
        '0'
    } else if c == 11 {
        'J'
    } else if c == 12 {
        'Q'
    } else if c == 13 {
        'K'
    } else {
        ((c + '0' as int) as u32) as char
    }
}

/// The counts in the table's second line, column by column.
pub open spec fn table_counts(v: Seq<nat>) -> Seq<nat> {
    table_order().map_values(|c: u8| v[c - 1])
}

/// The identities in the order in which the table shows them.
pub fn display_order() -> (r: Vec<u8>)
    ensures
        r@ == table_order(),
{
    let r: Vec<u8> = vec![15, 14, 2, 1, 13, 12, 11, 10, 9, 8, 7, 6, 5, 4, 3];
    assert(r@ =~= table_order());
    r
}

/// The character that heads the column of `card`: `R`, `B`, `A`, `2`-`9`,
/// `0` (ten), `J`, `Q` or `K`.
pub fn card_label(card: u8) -> (r: char)
    requires
        is_card(card as int),
    ensures
        r == label_of(card as int),
{
    if card == 15 {
        'R'
    } else if card == 14 {
        'B'
    } else if card == 1 {
        'A'
    } else if card == 10 {
        '0'
    } else if card == 11 {
        'J'
    } else if card == 12 {
        'Q'
    } else if card == 13 {
        'K'
    } else {
        ((card as u32 + '0' as u32) as u8) as char
    }
}

impl Poker {
    /// The counts of the table's second line, in the order of
    /// `display_order`.
    pub fn display_counts(&self) -> (r: Vec<u32>)
        ensures
            r@.len() == 15,
            forall|k: int| 0 <= k < 15 ==> #[trigger] r@[k] == table_counts(self@)[k],
    {
        let order = display_order();
        let mut r: Vec<u32> = Vec::new();
        for k in 0..15usize
            invariant
                order@ == table_order(),
                r@.len() == k,
                forall|j: int| 0 <= j < k ==> #[trigger] r@[j] == table_counts(self@)[j],
        {
            let c = order[k];
            r.push(self.count_card(c));
        }
        r
    }
}

} // verus!

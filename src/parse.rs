//! Reading a hand from its text notation.
use vstd::prelude::*;

use crate::counts::{cap, empty_counts, is_card, within_caps};
use crate::poker::Poker;

verus! {

/// The card identity that a character of hand notation names, or 0 for a
/// character that names none. Letters are read without regard to case.
pub open spec fn card_of_char(ch: char) -> int {
    if '1' <= ch && ch <= '9' {
        ch as int - '0' as int
    } else if ch == '0' {
        10
    } else if ch == 'A' || ch == 'a' {
        1
    } else if ch == 'J' || ch == 'j' {
        11
    } else if ch == 'Q' || ch == 'q' {
        12
    } else if ch == 'K' || ch == 'k' {
        13
    } else if ch == 'B' || ch == 'b' {
        14
    } else if ch == 'R' || ch == 'r' {
        15
    } else {
        0
    }
}

/// How many characters of `s` name card `c`.
pub open spec fn tally(s: Seq<char>, c: int) -> nat
    decreases s.len(),
{
    if s.len() == 0 {
        0
    } else {
        tally(s.drop_last(), c) + if card_of_char(s.last()) == c {
            1nat
        } else {
            0
        }
    }
}

/// Text that names a hand: every character names a card, and no card is
/// named more often than one deck holds it.
pub open spec fn valid_hand(s: Seq<char>) -> bool {
    &&& forall|i: int| 0 <= i < s.len() ==> card_of_char(#[trigger] s[i]) != 0
    &&& forall|c: int| is_card(c) ==> #[trigger] tally(s, c) <= cap(c)
}

/// The counts of the hand that `s` names.
pub open spec fn hand_counts(s: Seq<char>) -> Seq<nat> {
    Seq::new(15, |k: int| tally(s, k + 1))
}

/// The card identity that `ch` names, or 0.
pub fn card_of(ch: char) -> (r: u8)
    ensures
        r == card_of_char(ch),
{
    if '1' <= ch && ch <= '9' {
        (ch as u32 - '0' as u32) as u8
    } else if ch == '0' {
        10
    } else if ch == 'A' || ch == 'a' {
        1
    } else if ch == 'J' || ch == 'j' {
        11
    } else if ch == 'Q' || ch == 'q' {
        12
    } else if ch == 'K' || ch == 'k' {
        13
    } else if ch == 'B' || ch == 'b' {
        14
    } else if ch == 'R' || ch == 'r' {
        15
    } else {
        0
    }
}

/// The error of text that names no hand.
#[derive(Clone, Copy, Debug, PartialEq, Eq, Structural)]
pub enum PokerError {
    ParsePokerError,
}

impl PokerError {
    /// The name of the error, as shown to a user.
    pub fn description(&self) -> (r: &'static str)
        ensures
            r@ == "ParsePokerError"@,
    {
        "ParsePokerError"
    }
}

/// The tally of a prefix one character longer.
proof fn lemma_tally_step(s: Seq<char>, i: int, c: int)
    requires
        0 <= i < s.len(),
    ensures
        tally(s.take(i + 1), c) == tally(s.take(i), c) + if card_of_char(s[i]) == c {
            1nat
        } else {
            0
        },
{
    assert(s.take(i + 1).drop_last() =~= s.take(i));
}

/// A prefix names a card no more often than the whole text.
proof fn lemma_tally_prefix(s: Seq<char>, i: int, j: int, c: int)
    requires
        0 <= i <= j <= s.len(),
    ensures
        tally(s.take(i), c) <= tally(s.take(j), c),
    decreases j - i,
{
    if i < j {
        lemma_tally_prefix(s, i, j - 1, c);
        lemma_tally_step(s, j - 1, c);
    }
}

impl Poker {
    /// Reads a hand from its text notation: `1`-`9`, `0` (ten), `A`, `J`,
    /// `Q`, `K`, `B` (black joker) and `R` (red joker), in either case, one
    /// character per card. Fails on any other character, and on text that
    /// names more copies of a card than one deck holds.
    pub fn from_str(s: &str) -> (r: Result<Poker, PokerError>)
        ensures
            r is Ok <==> valid_hand(s@),
            r is Ok ==> r->Ok_0@ == hand_counts(s@),
            r is Ok ==> within_caps(r->Ok_0@),
            r is Err ==> r->Err_0 == PokerError::ParsePokerError,
    {
        let mut poker = Poker::new();
        proof {
            assert(hand_counts(s@.take(0)) =~= empty_counts());
        }
        for ch in it: s.chars()
            invariant
                it.seq() == s@,
                valid_hand(s@.take(it.index())),
                poker@ == hand_counts(s@.take(it.index())),
        {
            let ghost i = it.index();
            let c = card_of(ch);
            if c == 0 {
                assert(card_of_char(s@[i]) == 0);
                return Err(PokerError::ParsePokerError);
            }
            proof {
                assert(is_card(c as int));
                lemma_tally_step(s@, i, c as int);
                assert forall|d: int| is_card(d) implies tally(s@.take(i + 1), d) == tally(
                    s@.take(i),
                    d,
                ) + if d == c {
                    1nat
                } else {
                    0
                } by {
                    lemma_tally_step(s@, i, d);
                }
            }
            if !poker.insert(c) {
                proof {
                    lemma_tally_prefix(s@, i + 1, s@.len() as int, c as int);
                    assert(s@.take(s@.len() as int) =~= s@);
                    assert(tally(s@, c as int) > cap(c as int));
                }
                return Err(PokerError::ParsePokerError);
            }
            proof {
                assert forall|k: int| 0 <= k < 15 implies #[trigger] poker@[k] == hand_counts(
                    s@.take(i + 1),
                )[k] by {
                    lemma_tally_step(s@, i, k + 1);
                }
                assert(poker@ =~= hand_counts(s@.take(i + 1)));
                assert forall|j: int| 0 <= j < i + 1 implies card_of_char(
                    #[trigger] s@.take(i + 1)[j],
                ) != 0 by {
                    if j < i {
                        assert(s@.take(i)[j] == s@[j]);
                    }
                }
            }
        }
        proof {
            assert(s@.take(s@.len() as int) =~= s@);
        }
        Ok(poker)
    }
}

impl std::str::FromStr for Poker {
    type Err = PokerError;

    fn from_str(s: &str) -> Result<Poker, PokerError> {
        Poker::from_str(s)
    }
}

} // verus!

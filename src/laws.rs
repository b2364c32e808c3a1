//! Laws that relate several operations of the counter, stated over its
//! model.
use vstd::prelude::*;

use crate::counts::{
    after_insert, after_remove, can_insert, can_remove, empty_counts, full_counts, is_card,
    is_rank,
};
use crate::parse::{hand_counts, tally, valid_hand};
use crate::render::{table_counts, table_order};

verus! {

/// From an empty counter, a rank can be inserted exactly four times: each
/// insertion succeeds and raises the count by one, up to 4; a fifth fails and
/// leaves the count at 4.
pub proof fn lemma_rank_inserts_up_to_four(c: int)
    requires
        is_rank(c),
    ensures
        ({
            let v0 = empty_counts();
            let v1 = after_insert(v0, c);
            let v2 = after_insert(v1, c);
            let v3 = after_insert(v2, c);
            let v4 = after_insert(v3, c);
            &&& can_insert(v0, c) && v1[c - 1] == 1
            &&& can_insert(v1, c) && v2[c - 1] == 2
            &&& can_insert(v2, c) && v3[c - 1] == 3
            &&& can_insert(v3, c) && v4[c - 1] == 4
            &&& !can_insert(v4, c) && after_insert(v4, c) == v4
        }),
{
}

/// From an empty counter, a joker can be inserted once, which makes its
/// count 1; a second insertion fails and leaves the count at 1.
pub proof fn lemma_joker_inserts_once(c: int)
    requires
        c == 14 || c == 15,
    ensures
        ({
            let v0 = empty_counts();
            let v1 = after_insert(v0, c);
            &&& can_insert(v0, c) && v1[c - 1] == 1
            &&& !can_insert(v1, c) && after_insert(v1, c) == v1
        }),
{
}

/// From a full deck, a rank can be removed exactly four times: each removal
/// succeeds and lowers the count by one, down to 0; a fifth fails and leaves
/// the count at 0.
pub proof fn lemma_rank_removes_down_to_zero(c: int)
    requires
        is_rank(c),
    ensures
        ({
            let v0 = full_counts();
            let v1 = after_remove(v0, c);
            let v2 = after_remove(v1, c);
            let v3 = after_remove(v2, c);
            let v4 = after_remove(v3, c);
            &&& v0[c - 1] == 4
            &&& can_remove(v0, c) && v1[c - 1] == 3
            &&& can_remove(v1, c) && v2[c - 1] == 2
            &&& can_remove(v2, c) && v3[c - 1] == 1
            &&& can_remove(v3, c) && v4[c - 1] == 0
            &&& !can_remove(v4, c) && after_remove(v4, c) == v4
        }),
{
}

/// The column of the table that shows card `c`.
pub open spec fn table_column(c: int) -> int {
    if c == 15 {
        0
    } else if c == 14 {
        1
    } else if c == 2 {
        2
    } else if c == 1 {
        3
    } else {
        17 - c
    }
}

/// Text that names a hand, once read and shown as a table, shows in the
/// column of each card exactly how often the text names that card.
pub proof fn lemma_parse_then_render(s: Seq<char>, v: Seq<nat>)
    requires
        valid_hand(s),
        v == hand_counts(s),
    ensures
        forall|c: int|
            is_card(c) ==> table_order()[table_column(c)] == c && #[trigger] table_counts(
                v,
            )[table_column(c)] == tally(s, c),
{
    assert forall|c: int| is_card(c) implies table_order()[table_column(c)] == c
        && #[trigger] table_counts(v)[table_column(c)] == tally(s, c) by {
        assert(0 <= table_column(c) < 15);
    }
}

} // verus!

//! Card codec for the solver.
//!
//! A card is a `u8` in `[0, 52)`: `rank = code % 13` (0 = Ace ... 12 = King)
//! and `suit = code / 13` (0 = Clubs, 1 = Diamonds, 2 = Hearts, 3 = Spades).
//! Diamonds and hearts are red; clubs and spades are black.

use vstd::prelude::*;

verus! {

/// Rank of a card code: 0 = Ace ... 12 = King.
pub open spec fn spec_rank(c: u8) -> u8 {
    c % 13
}

/// Suit of a card code: 0 = Clubs, 1 = Diamonds, 2 = Hearts, 3 = Spades.
pub open spec fn spec_suit(c: u8) -> u8 {
    c / 13
}

/// The two red suits are diamonds (1) and hearts (2).
pub open spec fn spec_is_red(s: u8) -> bool {
    s == 1 || s == 2
}

/// Whether the two card codes have suits of opposite colors.
pub open spec fn spec_colors_alternate(a: u8, b: u8) -> bool {
    spec_is_red(spec_suit(a)) != spec_is_red(spec_suit(b))
}

/// Whether card `x` may be placed on card `y` in a tableau run:
/// one rank lower and of the opposite color.
pub open spec fn spec_can_build_onto(x: u8, y: u8) -> bool {
    spec_rank(x) + 1 == spec_rank(y) && spec_colors_alternate(x, y)
}

/// Whether the card code is a King.
pub open spec fn spec_is_king(c: u8) -> bool {
    spec_rank(c) == 12
}

/// The other suit of the same color.
pub open spec fn spec_same_color_suit(s: u8) -> u8 {
    if s == 0 {
        3
    } else if s == 3 {
        0
    } else if s == 1 {
        2
    } else {
        1
    }
}

/// A well-formed foundation vector: four counters, each in `[-1, 12]`,
/// where `-1` means no card of that suit has been placed yet.
pub open spec fn foundations_wf(fnd: Seq<i8>) -> bool {
    &&& fnd.len() == 4
    &&& forall|i: int| 0 <= i < 4 ==> -1 <= #[trigger] fnd[i] <= 12
}

/// The safe-to-foundation test on a candidate card of rank `r` (0-based):
/// with `oc1`, `oc2` the counters of the two opposite-color suits and `sc`
/// the counter of the other same-color suit, promoting is safe iff
/// `r <= min(oc1, oc2) + 2 && r <= sc + 3`. A card that passes can never be
/// needed later to receive a tableau run, so promoting it early never
/// forecloses a winning line.
pub open spec fn spec_safe_to_foundation(card: u8, fnd: Seq<i8>) -> bool {
    let s = spec_suit(card);
    let r = spec_rank(card) as int;
    let sc = fnd[spec_same_color_suit(s) as int] as int;
    let oc1 = (if spec_is_red(s) {
        fnd[0]
    } else {
        fnd[1]
    }) as int;
    let oc2 = (if spec_is_red(s) {
        fnd[3]
    } else {
        fnd[2]
    }) as int;
    r <= (if oc1 <= oc2 {
        oc1
    } else {
        oc2
    }) + 2 && r <= sc + 3
}

#[verifier::when_used_as_spec(spec_rank)]
pub fn rank(c: u8) -> (r: u8)
    ensures
        r == spec_rank(c),
{
    c % 13
}

#[verifier::when_used_as_spec(spec_suit)]
pub fn suit(c: u8) -> (r: u8)
    ensures
        r == spec_suit(c),
{
    c / 13
}

#[verifier::when_used_as_spec(spec_is_red)]
pub fn is_red(s: u8) -> (r: bool)
    ensures
        r == spec_is_red(s),
{
    s == 1 || s == 2
}

pub fn colors_alternate(a: u8, b: u8) -> (r: bool)
    ensures
        r == spec_colors_alternate(a, b),
{
    is_red(suit(a)) != is_red(suit(b))
}

pub fn can_build_onto(x: u8, y: u8) -> (r: bool)
    ensures
        r == spec_can_build_onto(x, y),
{
    rank(x) < 12 && rank(x) + 1 == rank(y) && colors_alternate(x, y)
}

pub fn is_king(c: u8) -> (r: bool)
    ensures
        r == spec_is_king(c),
{
    rank(c) == 12
}

/// Single-character rank name of a card code, for debugging output.
pub fn card_str(c: u8) -> (r: &'static str)
    ensures
        r@.len() == 1,
{
    let k = rank(c);
    if k == 0 {
        proof {
            reveal_strlit("A");
        }
        "A"
    } else if k == 1 {
        proof {
            reveal_strlit("2");
        }
        "2"
    } else if k == 2 {
        proof {
            reveal_strlit("3");
        }
        "3"
    } else if k == 3 {
        proof {
            reveal_strlit("4");
        }
        "4"
    } else if k == 4 {
        proof {
            reveal_strlit("5");
        }
        "5"
    } else if k == 5 {
        proof {
            reveal_strlit("6");
        }
        "6"
    } else if k == 6 {
        proof {
            reveal_strlit("7");
        }
        "7"
    } else if k == 7 {
        proof {
            reveal_strlit("8");
        }
        "8"
    } else if k == 8 {
        proof {
            reveal_strlit("9");
        }
        "9"
    } else if k == 9 {
        proof {
            reveal_strlit("T");
        }
        "T"
    } else if k == 10 {
        proof {
            reveal_strlit("J");
        }
        "J"
    } else if k == 11 {
        proof {
            reveal_strlit("Q");
        }
        "Q"
    } else {
        proof {
            reveal_strlit("K");
        }
        "K"
    }
}

/// The safe-to-foundation pruning test; see [`spec_safe_to_foundation`].
pub fn safe_to_foundation(card: u8, fnd: &Vec<i8>) -> (r: bool)
    requires
        card < 52,
        foundations_wf(fnd@),
    ensures
        r == spec_safe_to_foundation(card, fnd@),
{
    let s = suit(card);
    let r = rank(card) as i8;
    let same_color: usize = if s == 0 {
        3
    } else if s == 3 {
        0
    } else if s == 1 {
        2
    } else {
        1
    };
    let (oc1, oc2): (usize, usize) = if is_red(s) {
        (0, 3)
    } else {
        (1, 2)
    };
    let omin = if fnd[oc1] <= fnd[oc2] {
        fnd[oc1]
    } else {
        fnd[oc2]
    };
    r <= omin + 2 && r <= fnd[same_color] + 3
}

} // verus!

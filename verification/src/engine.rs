//! The interactive Klondike game model: deck construction, a deterministic
//! shuffle, dealing, and the moves a player can make.
//!
//! Cards here carry their suit, rank, face direction, and a sprite index
//! `suit_row * 13 + rank_column` that doubles as the solver's card code.

use vstd::prelude::*;

use crate::clock::{
    duration_from_millis, duration_from_secs, instant_checked_add, instant_ge, instant_now,
    nanos_since_epoch, system_time_now,
};
use crate::search::{solve_deck, SolveResult};

verus! {

#[derive(Debug, Clone, Copy, PartialEq, Eq, Structural)]
pub enum Suit {
    Spades,
    Hearts,
    Diamonds,
    Clubs,
}

#[derive(Debug, Clone, Copy, PartialEq, Eq, Structural)]
pub enum CardColor {
    Red,
    Black,
}

/// Sprite row of a suit: Spades 0, Hearts 1, Diamonds 2, Clubs 3.
pub open spec fn spec_suit_row(s: Suit) -> u8 {
    match s {
        Suit::Spades => 0,
        Suit::Hearts => 1,
        Suit::Diamonds => 2,
        Suit::Clubs => 3,
    }
}

/// Hearts and diamonds are red, spades and clubs black.
pub open spec fn spec_suit_color(s: Suit) -> CardColor {
    match s {
        Suit::Hearts | Suit::Diamonds => CardColor::Red,
        Suit::Spades | Suit::Clubs => CardColor::Black,
    }
}

impl Suit {
    pub fn row(self) -> (r: u8)
        ensures
            r == spec_suit_row(self),
    {
        match self {
            Suit::Spades => 0,
            Suit::Hearts => 1,
            Suit::Diamonds => 2,
            Suit::Clubs => 3,
        }
    }

    pub fn color(self) -> (r: CardColor)
        ensures
            r == spec_suit_color(self),
    {
        match self {
            Suit::Hearts | Suit::Diamonds => CardColor::Red,
            Suit::Spades | Suit::Clubs => CardColor::Black,
        }
    }
}

#[derive(Debug, Clone, Copy, PartialEq, Eq, PartialOrd, Ord, Structural)]
pub enum Rank {
    Ace,
    Two,
    Three,
    Four,
    Five,
    Six,
    Seven,
    Eight,
    Nine,
    Ten,
    Jack,
    Queen,
    King,
}

/// Numeric value of a rank: Ace 1 ... King 13.
pub open spec fn spec_rank_value(r: Rank) -> u8 {
    match r {
        Rank::Ace => 1,
        Rank::Two => 2,
        Rank::Three => 3,
        Rank::Four => 4,
        Rank::Five => 5,
        Rank::Six => 6,
        Rank::Seven => 7,
        Rank::Eight => 8,
        Rank::Nine => 9,
        Rank::Ten => 10,
        Rank::Jack => 11,
        Rank::Queen => 12,
        Rank::King => 13,
    }
}

pub fn rank_value(rank: Rank) -> (r: u8)
    ensures
        r == spec_rank_value(rank),
{
    match rank {
        Rank::Ace => 1,
        Rank::Two => 2,
        Rank::Three => 3,
        Rank::Four => 4,
        Rank::Five => 5,
        Rank::Six => 6,
        Rank::Seven => 7,
        Rank::Eight => 8,
        Rank::Nine => 9,
        Rank::Ten => 10,
        Rank::Jack => 11,
        Rank::Queen => 12,
        Rank::King => 13,
    }
}

impl Rank {
    /// Sprite column of a rank: Ace 0 ... King 12.
    pub fn column(self) -> (r: u8)
        ensures
            r == spec_rank_value(self) - 1,
    {
        rank_value(self) - 1
    }
}

#[derive(Debug, Clone, Copy, PartialEq, Eq, Structural)]
pub struct Card {
    pub suit: Suit,
    pub rank: Rank,
    pub face_up: bool,
    pub sprite_index: u8,
}

impl Card {
    /// A face-down card of the given suit and rank, with its sprite index
    /// derived from them.
    pub fn new(suit: Suit, rank: Rank) -> (r: Card)
        ensures
            r.suit == suit,
            r.rank == rank,
            !r.face_up,
            r.sprite_index == spec_suit_row(suit) * 13 + spec_rank_value(rank) - 1,
    {
        let sprite_index = suit.row() * 13 + rank.column();
        Card { suit, rank, face_up: false, sprite_index }
    }
}

/// An ordered pile of cards, bottom to top.
#[derive(Debug, Default, Clone)]
pub struct Pile {
    pub cards: Vec<Card>,
}

/// What a click on the stock did.
#[derive(Debug, Clone, Copy, PartialEq, Eq, Structural)]
pub enum StockAction {
    Drawn(usize),
    Recycled(usize),
    NoOp,
}

/// How many cards a stock draw reveals.
#[derive(Debug, Clone, Copy, PartialEq, Eq, Default, Structural)]
pub enum DrawMode {
    #[default]
    DrawOne,
    DrawThree,
}

/// Cards drawn per click under the mode.
pub open spec fn spec_draw_count(m: DrawMode) -> int {
    match m {
        DrawMode::DrawOne => 1,
        DrawMode::DrawThree => 3,
    }
}

/// The full interactive game state.
#[derive(Debug, Clone)]
pub struct GameState {
    pub stock: Pile,
    pub waste: Pile,
    pub foundations: Vec<Pile>,
    pub tableaus: Vec<Pile>,
    pub draw_mode: DrawMode,
    pub score: i32,
    pub moves: u32,
    pub rng_seed: u64,
}

/// Shape invariant: four foundations and seven tableaus.
pub open spec fn gs_wf(g: GameState) -> bool {
    g.foundations@.len() == 4 && g.tableaus@.len() == 7
}

/// Saturating bump of the move counter.
pub open spec fn spec_moves_bump(m: u32, by: int) -> u32 {
    if m + by > u32::MAX {
        u32::MAX
    } else {
        (m + by) as u32
    }
}

/// Saturating addition on the score.
pub open spec fn spec_score_bump(s: i32, by: int) -> i32 {
    if s + by > i32::MAX {
        i32::MAX
    } else {
        (s + by) as i32
    }
}

/// Whether `card` may be placed on a foundation whose top is `top`: an Ace
/// on an empty foundation, else same suit and exactly one rank higher.
pub open spec fn spec_can_place_on_foundation(card: Card, top: Option<Card>) -> bool {
    match top {
        Option::Some(t) => card.suit == t.suit && spec_rank_value(card.rank) == spec_rank_value(
            t.rank,
        ) + 1,
        Option::None => card.rank == Rank::Ace,
    }
}

/// Whether `card` may be placed on a tableau whose top is `top`: a King on
/// an empty column, else on a face-up card of the opposite color exactly
/// one rank higher.
pub open spec fn spec_can_place_on_tableau(card: Card, top: Option<Card>) -> bool {
    match top {
        Option::Some(t) => t.face_up && spec_suit_color(card.suit) != spec_suit_color(t.suit)
            && spec_rank_value(card.rank) + 1 == spec_rank_value(t.rank),
        Option::None => card.rank == Rank::King,
    }
}

/// Adjacent cards `i` and `i + 1` of a run alternate in color and descend
/// by one rank.
pub open spec fn run_step_ok(cards: Seq<Card>, i: int) -> bool {
    spec_suit_color(cards[i].suit) != spec_suit_color(cards[i + 1].suit) && spec_rank_value(
        cards[i].rank,
    ) == spec_rank_value(cards[i + 1].rank) + 1
}

/// A nonempty, fully face-up, alternating-color, descending-by-one run.
pub open spec fn spec_valid_run(cards: Seq<Card>) -> bool {
    &&& cards.len() > 0
    &&& forall|i: int| 0 <= i < cards.len() ==> (#[trigger] cards[i]).face_up
    &&& forall|i: int| 0 <= i < cards.len() - 1 ==> #[trigger] run_step_ok(cards, i)
}

pub fn can_place_on_foundation(card: Card, top: Option<Card>) -> (r: bool)
    ensures
        r == spec_can_place_on_foundation(card, top),
{
    match top {
        Some(top_card) => {
            card.suit == top_card.suit && rank_value(card.rank) == rank_value(top_card.rank) + 1
        },
        None => card.rank == Rank::Ace,
    }
}

pub fn can_place_on_tableau(card: Card, top: Option<Card>) -> (r: bool)
    ensures
        r == spec_can_place_on_tableau(card, top),
{
    match top {
        Some(top_card) => {
            top_card.face_up && card.suit.color() != top_card.suit.color() && rank_value(card.rank)
                + 1 == rank_value(top_card.rank)
        },
        None => card.rank == Rank::King,
    }
}

#[verifier::rlimit(50)]
pub fn is_valid_tableau_run(cards: &[Card]) -> (r: bool)
    ensures
        r == spec_valid_run(cards@),
{
    if cards.len() == 0 {
        return false;
    }
    let mut i: usize = 0;
    while i < cards.len()
        invariant
            i <= cards@.len(),
            forall|j: int| 0 <= j < i ==> (#[trigger] cards@[j]).face_up,
        decreases cards@.len() - i,
    {
        if !cards[i].face_up {
            return false;
        }
        i += 1;
    }
    let mut i: usize = 0;
    while i < cards.len() - 1
        invariant
            i <= cards@.len(),
            cards@.len() > 0,
            forall|j: int| 0 <= j < cards@.len() ==> (#[trigger] cards@[j]).face_up,
            forall|j: int| 0 <= j < i && j < cards@.len() - 1 ==> #[trigger] run_step_ok(cards@, j),
        decreases cards@.len() - i,
    {
        let upper = cards[i];
        let lower = cards[i + 1];
        if upper.suit.color() == lower.suit.color() {
            proof {
                assert(!run_step_ok(cards@, i as int));
            }
            return false;
        }
        if rank_value(upper.rank) != rank_value(lower.rank) + 1 {
            proof {
                assert(!run_step_ok(cards@, i as int));
            }
            return false;
        }
        proof {
            assert(run_step_ok(cards@, i as int));
        }
        i += 1;
    }
    true
}

/// The deterministic xorshift64* shuffle generator.
pub struct ShuffleRng(pub u64);

/// A zero seed is replaced by a fixed nonzero default.
pub open spec fn rng_seed_fix(seed: u64) -> u64 {
    if seed == 0 {
        0x4D445EED
    } else {
        seed
    }
}

/// One xorshift64* state step.
pub open spec fn rng_next(x: u64) -> u64 {
    let a = x ^ (x >> 12);
    let b = a ^ (a << 25);
    b ^ (b >> 27)
}

/// The 32-bit output drawn when stepping from state `x`.
pub open spec fn rng_out(x: u64) -> u32 {
    (vstd::wrapping::u64_specs::wrapping_mul(rng_next(x), 0x2545F4914F6CDD1D) >> 32) as u32
}

impl ShuffleRng {
    pub fn new(seed: u64) -> (r: ShuffleRng)
        ensures
            r.0 == rng_seed_fix(seed),
    {
        let seed = if seed == 0 {
            0x4D44_5EED
        } else {
            seed
        };
        ShuffleRng(seed)
    }

    pub fn next_u32(&mut self) -> (r: u32)
        ensures
            final(self).0 == rng_next(old(self).0),
            r == rng_out(old(self).0),
    {
        let mut x = self.0;
        x ^= x >> 12;
        x ^= x << 25;
        x ^= x >> 27;
        self.0 = x;
        ((x.wrapping_mul(0x2545_F491_4F6C_DD1D)) >> 32) as u32
    }
}

/// The suit of deck block `i` (blocks of 13 in suit order).
pub open spec fn spec_suit_of_index(i: int) -> Suit {
    if i == 0 {
        Suit::Spades
    } else if i == 1 {
        Suit::Hearts
    } else if i == 2 {
        Suit::Diamonds
    } else {
        Suit::Clubs
    }
}

/// The rank at position `i` within a suit block.
pub open spec fn spec_rank_of_index(i: int) -> Rank {
    if i == 0 {
        Rank::Ace
    } else if i == 1 {
        Rank::Two
    } else if i == 2 {
        Rank::Three
    } else if i == 3 {
        Rank::Four
    } else if i == 4 {
        Rank::Five
    } else if i == 5 {
        Rank::Six
    } else if i == 6 {
        Rank::Seven
    } else if i == 7 {
        Rank::Eight
    } else if i == 8 {
        Rank::Nine
    } else if i == 9 {
        Rank::Ten
    } else if i == 10 {
        Rank::Jack
    } else if i == 11 {
        Rank::Queen
    } else {
        Rank::King
    }
}

/// Card `i` of the standard 52-card deck, face down; its sprite index is
/// exactly `i`.
pub open spec fn spec_std_card(i: int) -> Card {
    Card {
        suit: spec_suit_of_index(i / 13),
        rank: spec_rank_of_index(i % 13),
        face_up: false,
        sprite_index: i as u8,
    }
}

/// The standard deck, suit by suit, Ace to King within each suit.
pub open spec fn spec_standard_deck() -> Seq<Card> {
    Seq::new(52, |i: int| spec_std_card(i))
}

fn suit_of_index(i: usize) -> (r: Suit)
    ensures
        r == spec_suit_of_index(i as int),
{
    if i == 0 {
        Suit::Spades
    } else if i == 1 {
        Suit::Hearts
    } else if i == 2 {
        Suit::Diamonds
    } else {
        Suit::Clubs
    }
}

fn rank_of_index(i: usize) -> (r: Rank)
    ensures
        r == spec_rank_of_index(i as int),
{
    if i == 0 {
        Rank::Ace
    } else if i == 1 {
        Rank::Two
    } else if i == 2 {
        Rank::Three
    } else if i == 3 {
        Rank::Four
    } else if i == 4 {
        Rank::Five
    } else if i == 5 {
        Rank::Six
    } else if i == 6 {
        Rank::Seven
    } else if i == 7 {
        Rank::Eight
    } else if i == 8 {
        Rank::Nine
    } else if i == 9 {
        Rank::Ten
    } else if i == 10 {
        Rank::Jack
    } else if i == 11 {
        Rank::Queen
    } else {
        Rank::King
    }
}

/// Build the standard 52-card deck.
pub fn create_standard_deck() -> (r: Vec<Card>)
    ensures
        r@ == spec_standard_deck(),
{
    let mut deck: Vec<Card> = Vec::new();
    let mut su: usize = 0;
    while su < 4
        invariant
            su <= 4,
            deck@.len() == su * 13,
            forall|i: int| 0 <= i < deck@.len() ==> #[trigger] deck@[i] == spec_std_card(i),
        decreases 4 - su,
    {
        let mut rk: usize = 0;
        while rk < 13
            invariant
                su < 4,
                rk <= 13,
                deck@.len() == su * 13 + rk,
                forall|i: int| 0 <= i < deck@.len() ==> #[trigger] deck@[i] == spec_std_card(i),
            decreases 13 - rk,
        {
            let c = Card::new(suit_of_index(su), rank_of_index(rk));
            proof {
                assert(spec_suit_row(spec_suit_of_index(su as int)) == su as int);
                assert((su * 13 + rk) as int / 13 == su as int && (su * 13 + rk) as int % 13
                    == rk as int) by {
                    crate::state::lemma_code_decomp(su as int, rk as int);
                }
            }
            deck.push(c);
            rk += 1;
        }
        su += 1;
    }
    proof {
        assert(deck@ =~= spec_standard_deck());
    }
    deck
}

/// Swapping two positions of a sequence.
pub open spec fn seq_swap(s: Seq<Card>, i: int, j: int) -> Seq<Card> {
    s.update(i, s[j]).update(j, s[i])
}

/// The Fisher-Yates pass from position `i` down to 1, driven by the
/// xorshift generator starting in state `st`.
pub open spec fn spec_shuffle_down(s: Seq<Card>, st: u64, i: int) -> Seq<Card>
    decreases i,
{
    if i < 1 {
        s
    } else {
        spec_shuffle_down(seq_swap(s, i, rng_out(st) as int % (i + 1)), rng_next(st), i - 1)
    }
}

/// The full shuffle of a sequence under a seed.
pub open spec fn spec_shuffle(s: Seq<Card>, seed: u64) -> Seq<Card> {
    if s.len() == 0 {
        s
    } else {
        spec_shuffle_down(s, rng_seed_fix(seed), s.len() - 1)
    }
}

/// Shuffling permutes: lengths, face directions, sprite bounds and sprite
/// distinctness all carry over.
pub proof fn lemma_shuffle_down_preserves(s: Seq<Card>, st: u64, i: int)
    requires
        0 <= i < s.len(),
        forall|a: int| 0 <= a < s.len() ==> !(#[trigger] s[a]).face_up,
        forall|a: int| 0 <= a < s.len() ==> (#[trigger] s[a]).sprite_index < 52,
        forall|a: int, b: int| 0 <= a < b < s.len() ==> s[a].sprite_index != s[b].sprite_index,
    ensures
        spec_shuffle_down(s, st, i).len() == s.len(),
        forall|a: int|
            0 <= a < s.len() ==> !(#[trigger] spec_shuffle_down(s, st, i)[a]).face_up,
        forall|a: int|
            0 <= a < s.len() ==> (#[trigger] spec_shuffle_down(s, st, i)[a]).sprite_index < 52,
        forall|a: int, b: int|
            0 <= a < b < s.len() ==> spec_shuffle_down(s, st, i)[a].sprite_index
                != spec_shuffle_down(s, st, i)[b].sprite_index,
    decreases i,
{
    if i >= 1 {
        let j = rng_out(st) as int % (i + 1);
        let s2 = seq_swap(s, i, j);
        assert forall|a: int, b: int| 0 <= a < b < s2.len() implies s2[a].sprite_index
            != s2[b].sprite_index by {
            assert(s2[a] == s[(if a == i { j } else if a == j { i } else { a })]);
            assert(s2[b] == s[(if b == i { j } else if b == j { i } else { b })]);
        }
        lemma_shuffle_down_preserves(s2, rng_next(st), i - 1);
    }
}

/// Shuffle the deck in place with the deterministic generator.
pub fn shuffle_deck(deck: &mut Vec<Card>, seed: u64)
    ensures
        final(deck)@ == spec_shuffle(old(deck)@, seed),
{
    let mut rng = ShuffleRng::new(seed);
    if deck.len() == 0 {
        return ;
    }
    let mut i = deck.len() - 1;
    while i >= 1
        invariant
            i < deck@.len(),
            deck@.len() <= usize::MAX,
            deck@.len() == old(deck)@.len(),
            spec_shuffle_down(deck@, rng.0, i as int) == spec_shuffle(old(deck)@, seed),
        decreases i,
    {
        let j = (rng.next_u32() as usize) % (i + 1);
        let ghost pre = deck@;
        let a = deck[i];
        let b = deck[j];
        deck[i] = b;
        deck[j] = a;
        proof {
            assert(deck@ =~= seq_swap(pre, i as int, j as int));
        }
        i -= 1;
    }
}

/// Why a deal could not be completed.
#[derive(Debug, Clone, Copy, PartialEq, Eq, Structural)]
pub enum DealError {
    /// No solvable deal was found within the allowed attempts.
    NoSolvableDeal,
}

/// The top card of a pile, if any.
pub open spec fn spec_pile_top(p: Pile) -> Option<Card> {
    if p.cards@.len() == 0 {
        Option::None
    } else {
        Option::Some(p.cards@.last())
    }
}

/// A pile whose top face-down card has been turned face up; unchanged if
/// the pile is empty or its top is already face up.
pub open spec fn spec_reveal_pile(cards: Seq<Card>) -> Seq<Card> {
    if cards.len() > 0 && !cards.last().face_up {
        cards.update(cards.len() - 1, Card { face_up: true, ..cards.last() })
    } else {
        cards
    }
}

/// The game state immediately after dealing with the given mode and seed:
/// column `c` holds `c + 1` cards off the top of the shuffled deck with only
/// the last face up, the remaining 24 cards are the stock, and everything
/// else is reset.
pub open spec fn spec_dealt(g: GameState, draw_mode: DrawMode, seed: u64) -> bool {
    let sh = spec_shuffle(spec_standard_deck(), seed);
    &&& g.draw_mode == draw_mode
    &&& g.score == 0
    &&& g.moves == 0
    &&& g.rng_seed == seed
    &&& g.waste.cards@.len() == 0
    &&& g.foundations@.len() == 4
    &&& forall|f: int| 0 <= f < 4 ==> (#[trigger] g.foundations@[f]).cards@.len() == 0
    &&& g.tableaus@.len() == 7
    &&& forall|c: int| 0 <= c < 7 ==> (#[trigger] g.tableaus@[c]).cards@.len() == c + 1
    &&& forall|c: int, idx: int|
        0 <= c < 7 && 0 <= idx <= c ==> #[trigger] g.tableaus@[c].cards@[idx] == (Card {
            face_up: idx == c,
            ..sh[51 - crate::search::pile_off(c) - idx]
        })
    &&& g.stock.cards@ == sh.take(24)
    &&& forall|k: int| 0 <= k < 24 ==> !(#[trigger] g.stock.cards@[k]).face_up
}

/// The standard deck is face down, within sprite bounds, and
/// sprite-distinct; so is any shuffle of it.
pub proof fn lemma_shuffled_standard(seed: u64)
    ensures
        spec_shuffle(spec_standard_deck(), seed).len() == 52,
        forall|a: int|
            0 <= a < 52 ==> !(#[trigger] spec_shuffle(spec_standard_deck(), seed)[a]).face_up,
        forall|a: int|
            0 <= a < 52 ==> (#[trigger] spec_shuffle(spec_standard_deck(), seed)[a]).sprite_index
                < 52,
        forall|a: int, b: int|
            0 <= a < b < 52 ==> spec_shuffle(spec_standard_deck(), seed)[a].sprite_index
                != spec_shuffle(spec_standard_deck(), seed)[b].sprite_index,
{
    let s = spec_standard_deck();
    assert forall|a: int, b: int| 0 <= a < b < 52 implies s[a].sprite_index
        != s[b].sprite_index by {
        assert(s[a].sprite_index == a as u8 && s[b].sprite_index == b as u8);
    }
    lemma_shuffle_down_preserves(s, rng_seed_fix(seed), 51);
}

/// An opaque seed drawn from the system clock; it only varies deals.
fn random_seed() -> u64 {
    let t = system_time_now();
    nanos_since_epoch(&t)
}

impl GameState {
    /// An empty game: no cards anywhere, draw-one mode, zero score.
    pub fn new() -> (r: GameState)
        ensures
            gs_wf(r),
            r.stock.cards@.len() == 0,
            r.waste.cards@.len() == 0,
            forall|f: int| 0 <= f < 4 ==> (#[trigger] r.foundations@[f]).cards@.len() == 0,
            forall|c: int| 0 <= c < 7 ==> (#[trigger] r.tableaus@[c]).cards@.len() == 0,
            r.draw_mode == DrawMode::DrawOne,
            r.score == 0,
            r.moves == 0,
            r.rng_seed == 0,
    {
        let mut foundations: Vec<Pile> = Vec::new();
        let mut f: usize = 0;
        while f < 4
            invariant
                f <= 4,
                foundations@.len() == f as int,
                forall|j: int| 0 <= j < f ==> (#[trigger] foundations@[j]).cards@.len() == 0,
            decreases 4 - f,
        {
            foundations.push(Pile { cards: Vec::new() });
            f += 1;
        }
        let mut tableaus: Vec<Pile> = Vec::new();
        let mut t: usize = 0;
        while t < 7
            invariant
                t <= 7,
                tableaus@.len() == t as int,
                forall|j: int| 0 <= j < t ==> (#[trigger] tableaus@[j]).cards@.len() == 0,
            decreases 7 - t,
        {
            tableaus.push(Pile { cards: Vec::new() });
            t += 1;
        }
        GameState {
            stock: Pile { cards: Vec::new() },
            waste: Pile { cards: Vec::new() },
            foundations,
            tableaus,
            draw_mode: DrawMode::DrawOne,
            score: 0,
            moves: 0,
            rng_seed: 0,
        }
    }

    /// Deal a fresh game from the given seed: reset everything, shuffle a
    /// standard deck, and lay out the tableau and stock.
    fn deal_with_seed(&mut self, draw_mode: DrawMode, seed: u64) -> (r: Result<(), DealError>)
        ensures
            r is Ok,
            gs_wf(*final(self)),
            spec_dealt(*final(self), draw_mode, seed),
    {
        let ghost sh = spec_shuffle(spec_standard_deck(), seed);
        proof {
            lemma_shuffled_standard(seed);
        }
        let mut deck = create_standard_deck();
        shuffle_deck(&mut deck, seed);

        let mut tableaus: Vec<Pile> = Vec::new();
        let mut column: usize = 0;
        proof {
            assert(deck@ =~= sh.take(52 - crate::search::pile_off(0)));
        }
        while column < 7
            invariant
                column <= 7,
                sh == spec_shuffle(spec_standard_deck(), seed),
                sh.len() == 52,
                forall|a: int| 0 <= a < 52 ==> !(#[trigger] sh[a]).face_up,
                0 <= crate::search::pile_off(column as int) <= 28,
                deck@ == sh.take(52 - crate::search::pile_off(column as int)),
                tableaus@.len() == column as int,
                forall|c: int| 0 <= c < column ==> (#[trigger] tableaus@[c]).cards@.len() == c + 1,
                forall|c: int, idx: int|
                    0 <= c < column && 0 <= idx <= c ==> #[trigger] tableaus@[c].cards@[idx]
                        == (Card {
                        face_up: idx == c,
                        ..sh[51 - crate::search::pile_off(c) - idx]
                    }),
            decreases 7 - column,
        {
            let count = column + 1;
            proof {
                assert(crate::search::pile_off(column + 1) == crate::search::pile_off(
                    column as int,
                ) + column + 1);
                crate::search::lemma_pile_off_le(column + 1, 7);
                reveal_with_fuel(crate::search::pile_off, 8);
                assert(crate::search::pile_off(7) == 28);
            }
            let mut cards: Vec<Card> = Vec::new();
            let mut idx: usize = 0;
            while idx < count
                invariant
                    idx <= count,
                    count == column + 1,
                    column < 7,
                    sh.len() == 52,
                    0 <= crate::search::pile_off(column as int),
                    crate::search::pile_off(column as int) + count <= 28,
                    deck@ == sh.take(
                        52 - crate::search::pile_off(column as int) - idx,
                    ),
                    cards@.len() == idx as int,
                    forall|k: int|
                        0 <= k < idx ==> #[trigger] cards@[k] == (Card {
                            face_up: k == column,
                            ..sh[51 - crate::search::pile_off(column as int) - k]
                        }),
                decreases count - idx,
            {
                let ghost pre = deck@;
                let popped = deck.pop();
                let mut card = popped.unwrap();
                proof {
                    assert(pre.drop_last() =~= sh.take(
                        52 - crate::search::pile_off(column as int) - idx - 1,
                    ));
                }
                card.face_up = idx == count - 1;
                cards.push(card);
                idx += 1;
            }
            tableaus.push(Pile { cards });
            column += 1;
        }
        self.draw_mode = draw_mode;
        self.score = 0;
        self.moves = 0;
        self.rng_seed = seed;
        self.waste = Pile { cards: Vec::new() };
        let mut foundations: Vec<Pile> = Vec::new();
        let mut f: usize = 0;
        while f < 4
            invariant
                f <= 4,
                foundations@.len() == f as int,
                forall|j: int| 0 <= j < f ==> (#[trigger] foundations@[j]).cards@.len() == 0,
            decreases 4 - f,
        {
            foundations.push(Pile { cards: Vec::new() });
            f += 1;
        }
        self.foundations = foundations;
        self.tableaus = tableaus;
        proof {
            reveal_with_fuel(crate::search::pile_off, 8);
            assert(deck@ == sh.take(24));
        }
        self.stock = Pile { cards: deck };
        Ok(())
    }

    /// Deal a fresh game with a seed drawn from the system clock.
    pub fn deal_new_game(&mut self, draw_mode: DrawMode) -> (r: Result<(), DealError>)
        ensures
            r is Ok,
            gs_wf(*final(self)),
            spec_dealt(*final(self), draw_mode, final(self).rng_seed),
    {
        let seed = random_seed();
        self.deal_with_seed(draw_mode, seed)
    }

    /// Deal again: reuse the current seed, or draw a fresh one if none was
    /// ever set, keeping the current draw mode.
    pub fn deal_again(&mut self) -> (r: Result<(), DealError>)
        ensures
            r is Ok,
            gs_wf(*final(self)),
            spec_dealt(*final(self), old(self).draw_mode, final(self).rng_seed),
            old(self).rng_seed != 0 ==> final(self).rng_seed == old(self).rng_seed,
    {
        let seed = if self.rng_seed == 0 {
            random_seed()
        } else {
            self.rng_seed
        };
        let mode = self.draw_mode;
        self.deal_with_seed(mode, seed)
    }

    /// The solver's deck for the current seed: the shuffled deck's sprite
    /// indexes, in deal order. `None` when no game was ever dealt.
    fn to_solver_deck(&self) -> (r: Option<Vec<u8>>)
        ensures
            r is Some <==> self.rng_seed != 0,
            r is Some ==> {
                let sh = spec_shuffle(spec_standard_deck(), self.rng_seed);
                &&& r.unwrap()@.len() == 52
                &&& forall|i: int|
                    0 <= i < 52 ==> #[trigger] r.unwrap()@[i] == sh[i].sprite_index
                &&& forall|i: int| 0 <= i < 52 ==> #[trigger] r.unwrap()@[i] < 52
                &&& forall|i: int, j: int|
                    0 <= i < j < 52 ==> r.unwrap()@[i] != r.unwrap()@[j]
            },
    {
        if self.rng_seed == 0 {
            return None;
        }
        proof {
            lemma_shuffled_standard(self.rng_seed);
        }
        let mut deck = create_standard_deck();
        shuffle_deck(&mut deck, self.rng_seed);
        let ghost sh = spec_shuffle(spec_standard_deck(), self.rng_seed);
        let mut out: Vec<u8> = Vec::new();
        let mut i: usize = 0;
        while i < 52
            invariant
                i <= 52,
                deck@ == sh,
                sh.len() == 52,
                forall|a: int| 0 <= a < 52 ==> (#[trigger] sh[a]).sprite_index < 52,
                out@.len() == i as int,
                forall|j: int| 0 <= j < i ==> #[trigger] out@[j] == sh[j].sprite_index,
            decreases 52 - i,
        {
            out.push(deck[i].sprite_index);
            i += 1;
        }
        proof {
            lemma_shuffled_standard(self.rng_seed);
        }
        Some(out)
    }

    /// Run the solver on the current deal with a small fixed budget:
    /// `Some(true)` winnable, `Some(false)` unwinnable, `None` when no game
    /// was dealt or the solver timed out.
    fn is_solvable_result(&self) -> (r: Option<bool>)
        ensures
            self.rng_seed == 0 ==> r is None,
    {
        let deck = match self.to_solver_deck() {
            Some(d) => d,
            None => {
                return None;
            },
        };
        let draw: u8 = match self.draw_mode {
            DrawMode::DrawOne => 1,
            DrawMode::DrawThree => 3,
        };
        match solve_deck(deck.as_slice(), draw, duration_from_millis(120)) {
            SolveResult::Winnable => Some(true),
            SolveResult::Unwinnable => Some(false),
            SolveResult::Timeout => None,
        }
    }

    /// Whether the solver can prove the current deal winnable within its
    /// budget.
    pub fn is_solvable(&self) -> (r: bool)
        ensures
            self.rng_seed == 0 ==> !r,
    {
        match self.is_solvable_result() {
            Some(true) => true,
            _ => false,
        }
    }

    /// Keep dealing fresh games until the solver proves one winnable, up to
    /// `max_attempts` deals (capped at 120) and ten seconds of wall time.
    /// `Ok` carries the number of deals used.
    pub fn deal_new_solvable(&mut self, draw_mode: DrawMode, max_attempts: usize) -> (r: Result<
        usize,
        DealError,
    >)
        ensures
            r is Ok ==> {
                &&& 1 <= r.unwrap() <= max_attempts
                &&& r.unwrap() <= 120
                &&& gs_wf(*final(self))
                &&& spec_dealt(*final(self), draw_mode, final(self).rng_seed)
            },
            r is Err && (max_attempts == 0) ==> *final(self) == *old(self),
            r is Err && max_attempts >= 1 ==> gs_wf(*final(self)) && spec_dealt(
                *final(self),
                draw_mode,
                final(self).rng_seed,
            ),
    {
        let capped = if max_attempts < 120 {
            max_attempts
        } else {
            120
        };
        let now0 = instant_now();
        let overall_deadline = match instant_checked_add(&now0, &duration_from_secs(10)) {
            Some(d) => d,
            None => now0,
        };
        let mut attempt: usize = 1;
        while attempt <= capped
            invariant
                1 <= attempt,
                capped == if max_attempts < 120 {
                    max_attempts as int
                } else {
                    120
                },
                attempt >= 2 ==> gs_wf(*self) && spec_dealt(*self, draw_mode, self.rng_seed),
                attempt == 1 ==> *self == *old(self),
                max_attempts == 0 ==> attempt == 1,
            decreases capped + 1 - attempt,
        {
            let _ = self.deal_new_game(draw_mode);
            match self.is_solvable_result() {
                Some(true) => {
                    return Ok(attempt);
                },
                Some(false) => {},
                None => {
                    let now = instant_now();
                    if instant_ge(&now, &overall_deadline) {
                        return Err(DealError::NoSolvableDeal);
                    }
                },
            }
            attempt += 1;
        }
        Err(DealError::NoSolvableDeal)
    }
}

/// Saturating add on the score.
fn bump_score(s: i32, by: i32) -> (r: i32)
    requires
        by >= 0,
    ensures
        r == spec_score_bump(s, by as int),
{
    if s > i32::MAX - by {
        i32::MAX
    } else {
        s + by
    }
}

/// The state after drawing `n` cards from the stock onto the waste.
pub open spec fn spec_drawn(pre: GameState, post: GameState, n: int) -> bool {
    let st = pre.stock.cards@;
    &&& post.stock.cards@ == st.take(st.len() - n)
    &&& post.waste.cards@.len() == pre.waste.cards@.len() + n
    &&& forall|k: int|
        0 <= k < pre.waste.cards@.len() ==> #[trigger] post.waste.cards@[k]
            == pre.waste.cards@[k]
    &&& forall|t: int|
        0 <= t < n ==> #[trigger] post.waste.cards@[pre.waste.cards@.len() + t] == (Card {
            face_up: true,
            ..st[st.len() - 1 - t]
        })
    &&& post.moves == spec_moves_bump(pre.moves, 1)
    &&& post.foundations == pre.foundations
    &&& post.tableaus == pre.tableaus
    &&& post.score == pre.score
    &&& post.draw_mode == pre.draw_mode
    &&& post.rng_seed == pre.rng_seed
}

/// The state after turning the whole waste back over into the stock.
pub open spec fn spec_recycled(pre: GameState, post: GameState) -> bool {
    let wl = pre.waste.cards@.len() as int;
    &&& post.waste.cards@.len() == 0
    &&& post.stock.cards@.len() == pre.stock.cards@.len() + wl
    &&& forall|k: int|
        0 <= k < pre.stock.cards@.len() ==> #[trigger] post.stock.cards@[k]
            == pre.stock.cards@[k]
    &&& forall|t: int|
        0 <= t < wl ==> #[trigger] post.stock.cards@[pre.stock.cards@.len() + t] == (Card {
            face_up: false,
            ..pre.waste.cards@[wl - 1 - t]
        })
    &&& post.moves == spec_moves_bump(pre.moves, 1)
    &&& post.foundations == pre.foundations
    &&& post.tableaus == pre.tableaus
    &&& post.score == pre.score
    &&& post.draw_mode == pre.draw_mode
    &&& post.rng_seed == pre.rng_seed
}

/// Card `card` may go on foundation `i` of `g`.
pub open spec fn fnd_accepts(g: GameState, i: int, card: Card) -> bool {
    spec_can_place_on_foundation(card, spec_pile_top(g.foundations@[i]))
}

/// All foundations are complete.
pub open spec fn spec_game_won(g: GameState) -> bool {
    forall|f: int|
        0 <= f < g.foundations@.len() ==> (#[trigger] g.foundations@[f]).cards@.len() == 13
}

impl GameState {
    /// Draw one or three cards (per the draw mode) from the stock onto the
    /// waste, face up; the number actually moved is returned.
    fn draw_from_stock(&mut self) -> (r: usize)
        ensures
            old(self).stock.cards@.len() == 0 ==> r == 0 && *final(self) == *old(self),
            old(self).stock.cards@.len() > 0 ==> {
                let dc = spec_draw_count(old(self).draw_mode);
                let n = if dc <= old(self).stock.cards@.len() {
                    dc
                } else {
                    old(self).stock.cards@.len() as int
                };
                r == n && spec_drawn(*old(self), *final(self), n)
            },
    {
        if self.stock.cards.len() == 0 {
            return 0;
        }
        let dc: usize = match self.draw_mode {
            DrawMode::DrawOne => 1,
            DrawMode::DrawThree => 3,
        };
        let sl = self.stock.cards.len();
        let draw_count = if dc < sl {
            dc
        } else {
            sl
        };
        let mut moved: usize = 0;
        while moved < draw_count
            invariant
                moved <= draw_count,
                draw_count <= old(self).stock.cards@.len(),
                self.stock.cards@ == old(self).stock.cards@.take(
                    old(self).stock.cards@.len() - moved,
                ),
                self.waste.cards@.len() == old(self).waste.cards@.len() + moved,
                forall|k: int|
                    0 <= k < old(self).waste.cards@.len() ==> #[trigger] self.waste.cards@[k]
                        == old(self).waste.cards@[k],
                forall|t: int|
                    0 <= t < moved ==> #[trigger] self.waste.cards@[old(
                        self,
                    ).waste.cards@.len() + t] == (Card {
                        face_up: true,
                        ..old(self).stock.cards@[old(self).stock.cards@.len() - 1 - t]
                    }),
                self.foundations == old(self).foundations,
                self.tableaus == old(self).tableaus,
                self.score == old(self).score,
                self.moves == old(self).moves,
                self.draw_mode == old(self).draw_mode,
                self.rng_seed == old(self).rng_seed,
            decreases draw_count - moved,
        {
            let ghost pre_stock = self.stock.cards@;
            let popped = self.stock.cards.pop();
            let mut card = popped.unwrap();
            card.face_up = true;
            self.waste.cards.push(card);
            proof {
                assert(pre_stock.drop_last() =~= old(self).stock.cards@.take(
                    old(self).stock.cards@.len() - moved - 1,
                ));
            }
            moved += 1;
        }
        self.moves = self.moves.saturating_add(1);
        moved
    }

    /// Turn the whole waste back over into the stock, face down, reversing
    /// its order; the number moved is returned.
    fn recycle_stock(&mut self) -> (r: usize)
        ensures
            old(self).waste.cards@.len() == 0 ==> r == 0 && *final(self) == *old(self),
            old(self).waste.cards@.len() > 0 ==> r == old(self).waste.cards@.len()
                && spec_recycled(*old(self), *final(self)),
    {
        if self.waste.cards.len() == 0 {
            return 0;
        }
        let mut moved: usize = 0;
        while self.waste.cards.len() > 0
            invariant
                old(self).waste.cards@.len() <= usize::MAX,
                moved == old(self).waste.cards@.len() - self.waste.cards@.len(),
                self.waste.cards@ == old(self).waste.cards@.take(
                    old(self).waste.cards@.len() - moved,
                ),
                self.stock.cards@.len() == old(self).stock.cards@.len() + moved,
                forall|k: int|
                    0 <= k < old(self).stock.cards@.len() ==> #[trigger] self.stock.cards@[k]
                        == old(self).stock.cards@[k],
                forall|t: int|
                    0 <= t < moved ==> #[trigger] self.stock.cards@[old(
                        self,
                    ).stock.cards@.len() + t] == (Card {
                        face_up: false,
                        ..old(self).waste.cards@[old(self).waste.cards@.len() - 1 - t]
                    }),
                self.foundations == old(self).foundations,
                self.tableaus == old(self).tableaus,
                self.score == old(self).score,
                self.moves == old(self).moves,
                self.draw_mode == old(self).draw_mode,
                self.rng_seed == old(self).rng_seed,
            decreases self.waste.cards@.len(),
        {
            let ghost pre_waste = self.waste.cards@;
            let popped = self.waste.cards.pop();
            let mut card = popped.unwrap();
            card.face_up = false;
            self.stock.cards.push(card);
            proof {
                assert(pre_waste.drop_last() =~= old(self).waste.cards@.take(
                    old(self).waste.cards@.len() - moved - 1,
                ));
            }
            moved += 1;
        }
        self.moves = self.moves.saturating_add(1);
        moved
    }

    /// A click on the stock: draw when cards remain, otherwise recycle the
    /// waste; `NoOp` when both are empty.
    pub fn stock_click(&mut self) -> (r: StockAction)
        ensures
            old(self).stock.cards@.len() == 0 && old(self).waste.cards@.len() == 0 ==> r
                == StockAction::NoOp && *final(self) == *old(self),
            old(self).stock.cards@.len() == 0 && old(self).waste.cards@.len() > 0 ==> r
                == StockAction::Recycled(old(self).waste.cards@.len() as usize)
                && spec_recycled(*old(self), *final(self)),
            old(self).stock.cards@.len() > 0 ==> {
                let dc = spec_draw_count(old(self).draw_mode);
                let n = if dc <= old(self).stock.cards@.len() {
                    dc
                } else {
                    old(self).stock.cards@.len() as int
                };
                r == StockAction::Drawn(n as usize) && spec_drawn(*old(self), *final(self), n)
            },
    {
        if self.stock.cards.len() == 0 {
            let recycled = self.recycle_stock();
            if recycled > 0 {
                StockAction::Recycled(recycled)
            } else {
                StockAction::NoOp
            }
        } else {
            let drawn = self.draw_from_stock();
            if drawn > 0 {
                StockAction::Drawn(drawn)
            } else {
                StockAction::NoOp
            }
        }
    }

    /// Turn the top card of the column face up, scoring it as a move; does
    /// nothing on an empty, out-of-range, or already face-up column.
    pub fn flip_tableau_top(&mut self, column: usize) -> (r: bool)
        ensures
            r == (column < old(self).tableaus@.len() && old(self).tableaus@[
                column as int
            ].cards@.len() > 0 && !old(self).tableaus@[column as int].cards@.last().face_up),
            !r ==> *final(self) == *old(self),
            r ==> {
                &&& final(self).tableaus@.len() == old(self).tableaus@.len()
                &&& forall|j: int|
                    0 <= j < old(self).tableaus@.len() && j != column ==> final(self).tableaus@[j]
                        == old(self).tableaus@[j]
                &&& final(self).tableaus@[column as int].cards@ == spec_reveal_pile(
                    old(self).tableaus@[column as int].cards@,
                )
                &&& final(self).moves == spec_moves_bump(old(self).moves, 1)
                &&& final(self).score == spec_score_bump(old(self).score, 5)
                &&& final(self).stock == old(self).stock
                &&& final(self).waste == old(self).waste
                &&& final(self).foundations == old(self).foundations
                &&& final(self).draw_mode == old(self).draw_mode
                &&& final(self).rng_seed == old(self).rng_seed
            },
    {
        if column < self.tableaus.len() {
            let n = self.tableaus[column].cards.len();
            if n > 0 {
                let c = self.tableaus[column].cards[n - 1];
                if !c.face_up {
                    let ghost pre = *self;
                    self.tableaus[column].cards[n - 1] = Card { face_up: true, ..c };
                    self.moves = self.moves.saturating_add(1);
                    self.score = bump_score(self.score, 5);
                    proof {
                        assert(self.tableaus@ =~= pre.tableaus@.update(
                            column as int,
                            self.tableaus@[column as int],
                        ));
                        assert(self.tableaus@[column as int].cards@ =~= spec_reveal_pile(
                            pre.tableaus@[column as int].cards@,
                        ));
                    }
                    return true;
                }
            }
        }
        false
    }

    /// Turn the top card of the column face up without counting a move;
    /// used after a card leaves the column.
    pub fn reveal_tableau_top(&mut self, column: usize)
        requires
            gs_wf(*old(self)),
        ensures
            gs_wf(*final(self)),
            !(column < 7 && old(self).tableaus@[column as int].cards@.len() > 0 && !old(
                self,
            ).tableaus@[column as int].cards@.last().face_up) ==> *final(self) == *old(self),
            (column < 7 && old(self).tableaus@[column as int].cards@.len() > 0 && !old(
                self,
            ).tableaus@[column as int].cards@.last().face_up) ==> {
                &&& final(self).tableaus@.len() == 7
                &&& forall|j: int|
                    0 <= j < 7 && j != column ==> final(self).tableaus@[j] == old(self).tableaus@[j]
                &&& final(self).tableaus@[column as int].cards@ == spec_reveal_pile(
                    old(self).tableaus@[column as int].cards@,
                )
                &&& final(self).score == spec_score_bump(old(self).score, 5)
                &&& final(self).moves == old(self).moves
                &&& final(self).stock == old(self).stock
                &&& final(self).waste == old(self).waste
                &&& final(self).foundations == old(self).foundations
                &&& final(self).draw_mode == old(self).draw_mode
                &&& final(self).rng_seed == old(self).rng_seed
            },
    {
        if column >= 7 {
            return ;
        }
        let n = self.tableaus[column].cards.len();
        if n > 0 {
            let c = self.tableaus[column].cards[n - 1];
            if !c.face_up {
                let ghost pre = *self;
                self.tableaus[column].cards[n - 1] = Card { face_up: true, ..c };
                self.score = bump_score(self.score, 5);
                proof {
                    assert(self.tableaus@ =~= pre.tableaus@.update(
                        column as int,
                        self.tableaus@[column as int],
                    ));
                    assert(self.tableaus@[column as int].cards@ =~= spec_reveal_pile(
                        pre.tableaus@[column as int].cards@,
                    ));
                }
            }
        }
    }

    /// Number of cards in a tableau column; 0 when out of range.
    pub fn tableau_len(&self, column: usize) -> (r: usize)
        ensures
            r == if column < self.tableaus@.len() {
                self.tableaus@[column as int].cards@.len()
            } else {
                0
            },
    {
        if column < self.tableaus.len() {
            self.tableaus[column].cards.len()
        } else {
            0
        }
    }

    /// The card at `index` of a tableau column, if both are in range.
    pub fn tableau_card(&self, column: usize, index: usize) -> (r: Option<&Card>)
        ensures
            match r {
                Option::Some(c) => column < self.tableaus@.len() && index < self.tableaus@[
                    column as int
                ].cards@.len() && *c == self.tableaus@[column as int].cards@[index as int],
                Option::None => !(column < self.tableaus@.len() && index < self.tableaus@[
                    column as int
                ].cards@.len()),
            },
    {
        if column < self.tableaus.len() && index < self.tableaus[column].cards.len() {
            Some(&self.tableaus[column].cards[index])
        } else {
            None
        }
    }

    /// Whether the top card of the column exists and is face down.
    pub fn top_tableau_face_down(&self, column: usize) -> (r: bool)
        ensures
            r == (column < self.tableaus@.len() && self.tableaus@[column as int].cards@.len() > 0
                && !self.tableaus@[column as int].cards@.last().face_up),
    {
        if column < self.tableaus.len() {
            let n = self.tableaus[column].cards.len();
            if n > 0 {
                return !self.tableaus[column].cards[n - 1].face_up;
            }
        }
        false
    }

    /// The top card of the waste, if any.
    pub fn waste_top(&self) -> (r: Option<&Card>)
        ensures
            match r {
                Option::Some(c) => self.waste.cards@.len() > 0 && *c == self.waste.cards@.last(),
                Option::None => self.waste.cards@.len() == 0,
            },
    {
        let n = self.waste.cards.len();
        if n == 0 {
            None
        } else {
            Some(&self.waste.cards[n - 1])
        }
    }

    /// Number of cards left in the stock.
    pub fn stock_count(&self) -> (r: usize)
        ensures
            r == self.stock.cards@.len(),
    {
        self.stock.cards.len()
    }

    /// Number of cards in the waste.
    pub fn waste_count(&self) -> (r: usize)
        ensures
            r == self.waste.cards@.len(),
    {
        self.waste.cards.len()
    }

    /// The cards of a tableau column, if in range.
    pub fn tableau_column(&self, column: usize) -> (r: Option<&[Card]>)
        ensures
            match r {
                Option::Some(cs) => column < self.tableaus@.len() && cs@ == self.tableaus@[
                    column as int
                ].cards@,
                Option::None => column >= self.tableaus@.len(),
            },
    {
        if column < self.tableaus.len() {
            Some(self.tableaus[column].cards.as_slice())
        } else {
            None
        }
    }

    /// The game is won when every foundation holds its full thirteen cards.
    pub fn is_won(&self) -> (r: bool)
        ensures
            r == spec_game_won(*self),
    {
        let mut f: usize = 0;
        while f < self.foundations.len()
            invariant
                f <= self.foundations@.len(),
                forall|j: int|
                    0 <= j < f ==> (#[trigger] self.foundations@[j]).cards@.len() == 13,
            decreases self.foundations@.len() - f,
        {
            if self.foundations[f].cards.len() != 13 {
                return false;
            }
            f += 1;
        }
        true
    }

    /// Whether `card` may be placed on the given foundation right now.
    pub fn can_accept_foundation(&self, foundation: usize, card: Card) -> (r: bool)
        requires
            gs_wf(*self),
        ensures
            r == (foundation < 4 && fnd_accepts(*self, foundation as int, card)),
    {
        if foundation >= 4 {
            return false;
        }
        let n = self.foundations[foundation].cards.len();
        let top = if n == 0 {
            None
        } else {
            Some(self.foundations[foundation].cards[n - 1])
        };
        can_place_on_foundation(card, top)
    }

    /// Place `card` on the given foundation if legal, scoring it.
    pub fn place_on_foundation(&mut self, foundation: usize, card: Card) -> (r: bool)
        requires
            gs_wf(*old(self)),
        ensures
            gs_wf(*final(self)),
            r == (foundation < 4 && fnd_accepts(*old(self), foundation as int, card)),
            !r ==> *final(self) == *old(self),
            r ==> {
                &&& final(self).foundations@.len() == 4
                &&& forall|j: int|
                    0 <= j < 4 && j != foundation ==> final(self).foundations@[j] == old(
                        self,
                    ).foundations@[j]
                &&& final(self).foundations@[foundation as int].cards@ == old(self).foundations@[
                    foundation as int
                ].cards@.push(card)
                &&& final(self).moves == spec_moves_bump(old(self).moves, 1)
                &&& final(self).score == spec_score_bump(old(self).score, 10)
                &&& final(self).stock == old(self).stock
                &&& final(self).waste == old(self).waste
                &&& final(self).tableaus == old(self).tableaus
                &&& final(self).draw_mode == old(self).draw_mode
                &&& final(self).rng_seed == old(self).rng_seed
            },
    {
        if !self.can_accept_foundation(foundation, card) {
            return false;
        }
        let ghost pre = *self;
        self.foundations[foundation].cards.push(card);
        self.moves = self.moves.saturating_add(1);
        self.score = bump_score(self.score, 10);
        proof {
            assert(self.foundations@ =~= pre.foundations@.update(
                foundation as int,
                self.foundations@[foundation as int],
            ));
        }
        true
    }
}

impl GameState {
    /// Move the waste's top card to the given foundation if legal.
    pub fn move_waste_to_foundation(&mut self, foundation: usize) -> (r: bool)
        requires
            gs_wf(*old(self)),
        ensures
            gs_wf(*final(self)),
            r == (foundation < 4 && old(self).waste.cards@.len() > 0 && fnd_accepts(
                *old(self),
                foundation as int,
                old(self).waste.cards@.last(),
            )),
            !r ==> *final(self) == *old(self),
            r ==> {
                &&& final(self).waste.cards@ == old(self).waste.cards@.drop_last()
                &&& final(self).foundations@.len() == 4
                &&& forall|j: int|
                    0 <= j < 4 && j != foundation ==> final(self).foundations@[j] == old(
                        self,
                    ).foundations@[j]
                &&& final(self).foundations@[foundation as int].cards@ == old(self).foundations@[
                    foundation as int
                ].cards@.push(old(self).waste.cards@.last())
                &&& final(self).moves == spec_moves_bump(old(self).moves, 1)
                &&& final(self).score == spec_score_bump(old(self).score, 10)
                &&& final(self).stock == old(self).stock
                &&& final(self).tableaus == old(self).tableaus
                &&& final(self).draw_mode == old(self).draw_mode
                &&& final(self).rng_seed == old(self).rng_seed
            },
    {
        if foundation >= 4 {
            return false;
        }
        let wn = self.waste.cards.len();
        if wn == 0 {
            return false;
        }
        let card = self.waste.cards[wn - 1];
        if !self.can_accept_foundation(foundation, card) {
            return false;
        }
        let ghost pre = *self;
        let _ = self.waste.cards.pop();
        self.foundations[foundation].cards.push(card);
        self.moves = self.moves.saturating_add(1);
        self.score = bump_score(self.score, 10);
        proof {
            assert(self.foundations@ =~= pre.foundations@.update(
                foundation as int,
                self.foundations@[foundation as int],
            ));
        }
        true
    }

    /// Move the waste's top card onto the given tableau column if legal.
    pub fn move_waste_to_tableau(&mut self, column: usize) -> (r: bool)
        requires
            gs_wf(*old(self)),
        ensures
            gs_wf(*final(self)),
            r == (column < 7 && old(self).waste.cards@.len() > 0 && spec_can_place_on_tableau(
                old(self).waste.cards@.last(),
                spec_pile_top(old(self).tableaus@[column as int]),
            )),
            !r ==> *final(self) == *old(self),
            r ==> {
                &&& final(self).waste.cards@ == old(self).waste.cards@.drop_last()
                &&& final(self).tableaus@.len() == 7
                &&& forall|j: int|
                    0 <= j < 7 && j != column ==> final(self).tableaus@[j] == old(
                        self,
                    ).tableaus@[j]
                &&& final(self).tableaus@[column as int].cards@ == old(self).tableaus@[
                    column as int
                ].cards@.push(old(self).waste.cards@.last())
                &&& final(self).moves == spec_moves_bump(old(self).moves, 1)
                &&& final(self).score == old(self).score
                &&& final(self).stock == old(self).stock
                &&& final(self).foundations == old(self).foundations
                &&& final(self).draw_mode == old(self).draw_mode
                &&& final(self).rng_seed == old(self).rng_seed
            },
    {
        if column >= 7 {
            return false;
        }
        let wn = self.waste.cards.len();
        if wn == 0 {
            return false;
        }
        let card = self.waste.cards[wn - 1];
        let tn = self.tableaus[column].cards.len();
        let top = if tn == 0 {
            None
        } else {
            Some(self.tableaus[column].cards[tn - 1])
        };
        if !can_place_on_tableau(card, top) {
            return false;
        }
        let ghost pre = *self;
        let _ = self.waste.cards.pop();
        self.tableaus[column].cards.push(card);
        self.moves = self.moves.saturating_add(1);
        proof {
            assert(self.tableaus@ =~= pre.tableaus@.update(
                column as int,
                self.tableaus@[column as int],
            ));
        }
        true
    }

    /// Move the face-up top card of a column to the given foundation if
    /// legal, then turn the newly exposed card face up.
    pub fn move_tableau_to_foundation(&mut self, column: usize, foundation: usize) -> (r: bool)
        requires
            gs_wf(*old(self)),
        ensures
            gs_wf(*final(self)),
            r == (column < 7 && foundation < 4 && old(self).tableaus@[
                column as int
            ].cards@.len() > 0 && old(self).tableaus@[column as int].cards@.last().face_up
                && fnd_accepts(
                *old(self),
                foundation as int,
                old(self).tableaus@[column as int].cards@.last(),
            )),
            !r ==> *final(self) == *old(self),
            r ==> {
                let popped = old(self).tableaus@[column as int].cards@.drop_last();
                &&& final(self).tableaus@.len() == 7
                &&& forall|j: int|
                    0 <= j < 7 && j != column ==> final(self).tableaus@[j] == old(
                        self,
                    ).tableaus@[j]
                &&& final(self).tableaus@[column as int].cards@ == spec_reveal_pile(popped)
                &&& final(self).foundations@.len() == 4
                &&& forall|j: int|
                    0 <= j < 4 && j != foundation ==> final(self).foundations@[j] == old(
                        self,
                    ).foundations@[j]
                &&& final(self).foundations@[foundation as int].cards@ == old(self).foundations@[
                    foundation as int
                ].cards@.push(old(self).tableaus@[column as int].cards@.last())
                &&& final(self).moves == spec_moves_bump(old(self).moves, 1)
                &&& final(self).score == spec_score_bump(
                    spec_score_bump(old(self).score, 10),
                    if popped.len() > 0 && !popped.last().face_up {
                        5int
                    } else {
                        0int
                    },
                )
                &&& final(self).stock == old(self).stock
                &&& final(self).waste == old(self).waste
                &&& final(self).draw_mode == old(self).draw_mode
                &&& final(self).rng_seed == old(self).rng_seed
            },
    {
        if foundation >= 4 || column >= 7 {
            return false;
        }
        let tn = self.tableaus[column].cards.len();
        if tn == 0 {
            return false;
        }
        let card = self.tableaus[column].cards[tn - 1];
        if !card.face_up {
            return false;
        }
        if !self.can_accept_foundation(foundation, card) {
            return false;
        }
        let ghost pre = *self;
        let _ = self.tableaus[column].cards.pop();
        self.foundations[foundation].cards.push(card);
        self.moves = self.moves.saturating_add(1);
        self.score = bump_score(self.score, 10);
        proof {
            assert(self.tableaus@ =~= pre.tableaus@.update(
                column as int,
                self.tableaus@[column as int],
            ));
            assert(self.foundations@ =~= pre.foundations@.update(
                foundation as int,
                self.foundations@[foundation as int],
            ));
        }
        self.reveal_tableau_top(column);
        true
    }

    /// Move the waste's top card to the first foundation that accepts it.
    pub fn move_waste_to_any_foundation(&mut self) -> (r: bool)
        requires
            gs_wf(*old(self)),
        ensures
            gs_wf(*final(self)),
            r == (old(self).waste.cards@.len() > 0 && exists|i: int|
                0 <= i < 4 && fnd_accepts(*old(self), i, old(self).waste.cards@.last())),
            !r ==> *final(self) == *old(self),
            r ==> exists|i: int|
                #![auto]
                {
                    &&& 0 <= i < 4
                    &&& fnd_accepts(*old(self), i, old(self).waste.cards@.last())
                    &&& forall|j: int|
                        0 <= j < i ==> !fnd_accepts(*old(self), j, old(self).waste.cards@.last())
                    &&& final(self).waste.cards@ == old(self).waste.cards@.drop_last()
                    &&& final(self).foundations@.len() == 4
                    &&& forall|j: int|
                        0 <= j < 4 && j != i ==> final(self).foundations@[j] == old(
                            self,
                        ).foundations@[j]
                    &&& final(self).foundations@[i].cards@ == old(
                        self,
                    ).foundations@[i].cards@.push(old(self).waste.cards@.last())
                    &&& final(self).moves == spec_moves_bump(old(self).moves, 1)
                    &&& final(self).score == spec_score_bump(old(self).score, 10)
                    &&& final(self).stock == old(self).stock
                    &&& final(self).tableaus == old(self).tableaus
                    &&& final(self).draw_mode == old(self).draw_mode
                    &&& final(self).rng_seed == old(self).rng_seed
                },
    {
        let wn = self.waste.cards.len();
        if wn == 0 {
            return false;
        }
        let card = self.waste.cards[wn - 1];
        let mut idx: usize = 0;
        while idx < 4
            invariant
                gs_wf(*self),
                *self == *old(self),
                wn == self.waste.cards@.len(),
                wn > 0,
                card == self.waste.cards@.last(),
                idx <= 4,
                forall|j: int| 0 <= j < idx ==> !fnd_accepts(*old(self), j, card),
            decreases 4 - idx,
        {
            if self.can_accept_foundation(idx, card) {
                let ghost pre = *self;
                let _ = self.waste.cards.pop();
                self.foundations[idx].cards.push(card);
                self.moves = self.moves.saturating_add(1);
                self.score = bump_score(self.score, 10);
                proof {
                    assert(self.foundations@ =~= pre.foundations@.update(
                        idx as int,
                        self.foundations@[idx as int],
                    ));
                }
                return true;
            }
            idx += 1;
        }
        false
    }

    /// Move the face-up top card of a column to the first foundation that
    /// accepts it, then turn the newly exposed card face up.
    pub fn move_tableau_top_to_any_foundation(&mut self, column: usize) -> (r: bool)
        requires
            gs_wf(*old(self)),
        ensures
            gs_wf(*final(self)),
            r == (column < 7 && old(self).tableaus@[column as int].cards@.len() > 0 && old(
                self,
            ).tableaus@[column as int].cards@.last().face_up && exists|i: int|
                0 <= i < 4 && fnd_accepts(
                    *old(self),
                    i,
                    old(self).tableaus@[column as int].cards@.last(),
                )),
            !r ==> *final(self) == *old(self),
            r ==> exists|i: int|
                #![trigger old(self).foundations@[i]]
                {
                    &&& 0 <= i < 4
                    &&& fnd_accepts(*old(self), i, old(self).tableaus@[column as int].cards@.last())
                    &&& forall|j: int|
                        0 <= j < i ==> !fnd_accepts(
                            *old(self),
                            j,
                            old(self).tableaus@[column as int].cards@.last(),
                        )
                    &&& final(self).tableaus@.len() == 7
                    &&& forall|j: int|
                        0 <= j < 7 && j != column ==> final(self).tableaus@[j] == old(
                            self,
                        ).tableaus@[j]
                    &&& final(self).tableaus@[column as int].cards@ == spec_reveal_pile(
                        old(self).tableaus@[column as int].cards@.drop_last(),
                    )
                    &&& final(self).foundations@.len() == 4
                    &&& forall|j: int|
                        0 <= j < 4 && j != i ==> final(self).foundations@[j] == old(
                            self,
                        ).foundations@[j]
                    &&& final(self).foundations@[i].cards@ == old(
                        self,
                    ).foundations@[i].cards@.push(old(self).tableaus@[column as int].cards@.last())
                    &&& final(self).moves == spec_moves_bump(old(self).moves, 1)
                    &&& final(self).score == spec_score_bump(
                        spec_score_bump(old(self).score, 10),
                        if old(self).tableaus@[column as int].cards@.drop_last().len() > 0 && !old(
                            self,
                        ).tableaus@[column as int].cards@.drop_last().last().face_up {
                            5int
                        } else {
                            0int
                        },
                    )
                    &&& final(self).stock == old(self).stock
                    &&& final(self).waste == old(self).waste
                    &&& final(self).draw_mode == old(self).draw_mode
                    &&& final(self).rng_seed == old(self).rng_seed
                },
    {
        if column >= 7 {
            return false;
        }
        let tn = self.tableaus[column].cards.len();
        if tn == 0 {
            return false;
        }
        let card = self.tableaus[column].cards[tn - 1];
        if !card.face_up {
            return false;
        }
        let mut idx: usize = 0;
        while idx < 4
            invariant
                gs_wf(*self),
                *self == *old(self),
                column < 7,
                tn == self.tableaus@[column as int].cards@.len(),
                tn > 0,
                card == self.tableaus@[column as int].cards@.last(),
                card.face_up,
                idx <= 4,
                forall|j: int| 0 <= j < idx ==> !fnd_accepts(*old(self), j, card),
            decreases 4 - idx,
        {
            if self.can_accept_foundation(idx, card) {
                proof {
                    assert(fnd_accepts(
                        *old(self),
                        idx as int,
                        old(self).tableaus@[column as int].cards@.last(),
                    ));
                }
                let ghost pre = *self;
                let _ = self.tableaus[column].cards.pop();
                self.foundations[idx].cards.push(card);
                self.moves = self.moves.saturating_add(1);
                self.score = bump_score(self.score, 10);
                proof {
                    assert(self.tableaus@ =~= pre.tableaus@.update(
                        column as int,
                        self.tableaus@[column as int],
                    ));
                    assert(self.foundations@ =~= pre.foundations@.update(
                        idx as int,
                        self.foundations@[idx as int],
                    ));
                }
                self.reveal_tableau_top(column);
                return true;
            }
            idx += 1;
        }
        false
    }

    /// Detach the face-up run starting at `index` from a column, if it is a
    /// valid movable run; otherwise leave the column as it was.
    pub fn extract_tableau_stack(&mut self, column: usize, index: usize) -> (r: Option<Vec<Card>>)
        requires
            gs_wf(*old(self)),
        ensures
            gs_wf(*final(self)),
            r is Some <==> (column < 7 && index < old(self).tableaus@[column as int].cards@.len()
                && old(self).tableaus@[column as int].cards@[index as int].face_up
                && spec_valid_run(
                old(self).tableaus@[column as int].cards@.subrange(
                    index as int,
                    old(self).tableaus@[column as int].cards@.len() as int,
                ),
            )),
            r is Some ==> {
                &&& r.unwrap()@ == old(self).tableaus@[column as int].cards@.subrange(
                    index as int,
                    old(self).tableaus@[column as int].cards@.len() as int,
                )
                &&& final(self).tableaus@.len() == 7
                &&& forall|j: int|
                    0 <= j < 7 && j != column ==> final(self).tableaus@[j] == old(
                        self,
                    ).tableaus@[j]
                &&& final(self).tableaus@[column as int].cards@ == old(self).tableaus@[
                    column as int
                ].cards@.take(index as int)
                &&& final(self).stock == old(self).stock
                &&& final(self).waste == old(self).waste
                &&& final(self).foundations == old(self).foundations
                &&& final(self).score == old(self).score
                &&& final(self).moves == old(self).moves
                &&& final(self).draw_mode == old(self).draw_mode
                &&& final(self).rng_seed == old(self).rng_seed
            },
            r is None ==> {
                &&& final(self).tableaus@.len() == 7
                &&& forall|j: int|
                    0 <= j < 7 && j != column ==> final(self).tableaus@[j] == old(
                        self,
                    ).tableaus@[j]
                &&& final(self).tableaus@[column as int].cards@ == old(self).tableaus@[
                    column as int
                ].cards@
                &&& final(self).stock == old(self).stock
                &&& final(self).waste == old(self).waste
                &&& final(self).foundations == old(self).foundations
                &&& final(self).score == old(self).score
                &&& final(self).moves == old(self).moves
                &&& final(self).draw_mode == old(self).draw_mode
                &&& final(self).rng_seed == old(self).rng_seed
            },
    {
        if column >= 7 {
            return None;
        }
        let n = self.tableaus[column].cards.len();
        if index >= n {
            return None;
        }
        if !self.tableaus[column].cards[index].face_up {
            return None;
        }
        let ghost pre = *self;
        let mut stack = self.tableaus[column].cards.split_off(index);
        proof {
            assert(self.tableaus@ =~= pre.tableaus@.update(
                column as int,
                self.tableaus@[column as int],
            ));
        }
        if !is_valid_tableau_run(stack.as_slice()) {
            let ghost mid = *self;
            self.tableaus[column].cards.append(&mut stack);
            proof {
                assert(self.tableaus@ =~= mid.tableaus@.update(
                    column as int,
                    self.tableaus@[column as int],
                ));
                assert(self.tableaus@[column as int].cards@ =~= pre.tableaus@[
                    column as int
                ].cards@);
            }
            return None;
        }
        Some(stack)
    }

    /// Put a previously extracted run back onto its column unchanged.
    pub fn cancel_tableau_stack(&mut self, column: usize, stack: Vec<Card>)
        requires
            gs_wf(*old(self)),
        ensures
            gs_wf(*final(self)),
            column >= 7 ==> *final(self) == *old(self),
            column < 7 ==> {
                &&& final(self).tableaus@.len() == 7
                &&& forall|j: int|
                    0 <= j < 7 && j != column ==> final(self).tableaus@[j] == old(
                        self,
                    ).tableaus@[j]
                &&& final(self).tableaus@[column as int].cards@ == old(self).tableaus@[
                    column as int
                ].cards@ + stack@
                &&& final(self).stock == old(self).stock
                &&& final(self).waste == old(self).waste
                &&& final(self).foundations == old(self).foundations
                &&& final(self).score == old(self).score
                &&& final(self).moves == old(self).moves
                &&& final(self).draw_mode == old(self).draw_mode
                &&& final(self).rng_seed == old(self).rng_seed
            },
    {
        if column >= 7 {
            return ;
        }
        let ghost pre = *self;
        let mut stack = stack;
        self.tableaus[column].cards.append(&mut stack);
        proof {
            assert(self.tableaus@ =~= pre.tableaus@.update(
                column as int,
                self.tableaus@[column as int],
            ));
        }
    }

    /// Whether a run may be dropped on the given column: it must be a valid
    /// movable run whose bottom card the column accepts.
    pub fn can_accept_tableau_stack(&self, column: usize, stack: &[Card]) -> (r: bool)
        requires
            gs_wf(*self),
        ensures
            r == (column < 7 && stack@.len() > 0 && spec_valid_run(stack@)
                && spec_can_place_on_tableau(
                stack@[0],
                spec_pile_top(self.tableaus@[column as int]),
            )),
    {
        if column >= 7 || stack.len() == 0 {
            return false;
        }
        if !is_valid_tableau_run(stack) {
            return false;
        }
        let tn = self.tableaus[column].cards.len();
        let top = if tn == 0 {
            None
        } else {
            Some(self.tableaus[column].cards[tn - 1])
        };
        can_place_on_tableau(stack[0], top)
    }

    /// Drop a run on the given column if legal, counting one move.
    pub fn place_tableau_stack(&mut self, column: usize, stack: Vec<Card>) -> (r: bool)
        requires
            gs_wf(*old(self)),
        ensures
            gs_wf(*final(self)),
            r == (column < 7 && stack@.len() > 0 && spec_valid_run(stack@)
                && spec_can_place_on_tableau(
                stack@[0],
                spec_pile_top(old(self).tableaus@[column as int]),
            )),
            !r ==> *final(self) == *old(self),
            r ==> {
                &&& final(self).tableaus@.len() == 7
                &&& forall|j: int|
                    0 <= j < 7 && j != column ==> final(self).tableaus@[j] == old(
                        self,
                    ).tableaus@[j]
                &&& final(self).tableaus@[column as int].cards@ == old(self).tableaus@[
                    column as int
                ].cards@ + stack@
                &&& final(self).moves == spec_moves_bump(old(self).moves, 1)
                &&& final(self).stock == old(self).stock
                &&& final(self).waste == old(self).waste
                &&& final(self).foundations == old(self).foundations
                &&& final(self).score == old(self).score
                &&& final(self).draw_mode == old(self).draw_mode
                &&& final(self).rng_seed == old(self).rng_seed
            },
    {
        if !self.can_accept_tableau_stack(column, stack.as_slice()) {
            return false;
        }
        let ghost pre = *self;
        let mut stack = stack;
        self.tableaus[column].cards.append(&mut stack);
        self.moves = self.moves.saturating_add(1);
        proof {
            assert(self.tableaus@ =~= pre.tableaus@.update(
                column as int,
                self.tableaus@[column as int],
            ));
        }
        true
    }
}

/// How many cards of sprite index `x` the sequence holds.
pub open spec fn scnt(s: Seq<Card>, x: u8) -> int
    decreases s.len(),
{
    if s.len() == 0 {
        0
    } else {
        scnt(s.drop_last(), x) + if s.last().sprite_index == x {
            1int
        } else {
            0int
        }
    }
}

/// How many cards of sprite index `x` the piles hold together.
pub open spec fn piles_scnt(ps: Seq<Pile>, x: u8) -> int
    decreases ps.len(),
{
    if ps.len() == 0 {
        0
    } else {
        piles_scnt(ps.drop_last(), x) + scnt(ps.last().cards@, x)
    }
}

/// How many cards of sprite index `x` the whole game holds.
pub open spec fn game_scnt(g: GameState, x: u8) -> int {
    piles_scnt(g.foundations@, x) + piles_scnt(g.tableaus@, x) + scnt(g.stock.cards@, x) + scnt(
        g.waste.cards@,
        x,
    )
}

/// Total number of cards in the piles.
pub open spec fn piles_len_sum(ps: Seq<Pile>) -> nat
    decreases ps.len(),
{
    if ps.len() == 0 {
        0
    } else {
        (piles_len_sum(ps.drop_last()) + ps.last().cards@.len()) as nat
    }
}

/// Total number of cards in the game.
pub open spec fn total_cards(g: GameState) -> int {
    piles_len_sum(g.foundations@) + piles_len_sum(g.tableaus@) + g.stock.cards@.len() as int
        + g.waste.cards@.len() as int
}

/// Nondecreasing rank order.
pub open spec fn sorted_by_rank(s: Seq<Card>) -> bool {
    forall|a: int, b: int|
        0 <= a < b < s.len() ==> spec_rank_value(s[a].rank) <= spec_rank_value(s[b].rank)
}

/// The suit a foundation shows on top, if it holds any card.
pub open spec fn spec_fnd_suit(g: GameState, f: int) -> Option<Suit> {
    if g.foundations@[f].cards@.len() > 0 {
        Option::Some(g.foundations@[f].cards@.last().suit)
    } else {
        Option::None
    }
}

/// No two nonempty foundations show the same suit.
pub open spec fn fnd_tops_distinct(g: GameState) -> bool {
    forall|i: int, j: int|
        0 <= i < j < 4 && #[trigger] spec_fnd_suit(g, i) is Some && #[trigger] spec_fnd_suit(
            g,
            j,
        ) is Some ==> spec_fnd_suit(g, i) != spec_fnd_suit(g, j)
}

/// Some slot of `fs` lists `su`.
pub open spec fn suit_listed(fs: Seq<Option<Suit>>, su: Suit) -> bool {
    exists|f: int| 0 <= f < fs.len() && fs[f] == Option::Some(su)
}

/// Number of `None` entries among the first `k` slots.
pub open spec fn count_none(fs: Seq<Option<Suit>>, k: int) -> int
    decreases k,
{
    if k <= 0 {
        0
    } else {
        count_none(fs, k - 1) + if fs[k - 1] is None {
            1int
        } else {
            0int
        }
    }
}

/// Number of suits among the first `k` (in sprite-row order) that no slot
/// lists.
pub open spec fn count_unlisted_upto(fs: Seq<Option<Suit>>, k: int) -> int
    decreases k,
{
    if k <= 0 {
        0
    } else {
        count_unlisted_upto(fs, k - 1) + if suit_listed(fs, spec_suit_of_index(k - 1)) {
            0int
        } else {
            1int
        }
    }
}

/// The `None` count only grows with the prefix length.
proof fn lemma_count_none_mono(fs: Seq<Option<Suit>>, a: int, b: int)
    requires
        a <= b,
    ensures
        count_none(fs, a) <= count_none(fs, b),
    decreases b - a,
{
    if a < b {
        lemma_count_none_mono(fs, a, b - 1);
    }
}

/// With pairwise-distinct listed suits, exactly as many suits are unlisted
/// as there are empty slots.
#[verifier::rlimit(100)]
proof fn lemma_unlisted_count(fs: Seq<Option<Suit>>)
    requires
        fs.len() == 4,
        forall|i: int, j: int|
            0 <= i < j < 4 && #[trigger] fs[i] is Some && #[trigger] fs[j] is Some ==> fs[i]
                != fs[j],
    ensures
        count_unlisted_upto(fs, 4) == count_none(fs, 4),
{
    reveal_with_fuel(count_none, 5);
    reveal_with_fuel(count_unlisted_upto, 5);
    assert forall|su: Suit| #[trigger] suit_listed(fs, su) implies (fs[0] == Option::Some(su)
        || fs[1] == Option::Some(su) || fs[2] == Option::Some(su) || fs[3] == Option::Some(
        su,
    )) by {
        let f = choose|f: int| 0 <= f < fs.len() && fs[f] == Option::Some(su);
        assert(f == 0 || f == 1 || f == 2 || f == 3);
    }
    assert(suit_listed(fs, spec_suit_of_index(0)) == (fs[0] == Option::Some(Suit::Spades) || fs[1]
        == Option::Some(Suit::Spades) || fs[2] == Option::Some(Suit::Spades) || fs[3]
        == Option::Some(Suit::Spades)));
    assert(suit_listed(fs, spec_suit_of_index(1)) == (fs[0] == Option::Some(Suit::Hearts) || fs[1]
        == Option::Some(Suit::Hearts) || fs[2] == Option::Some(Suit::Hearts) || fs[3]
        == Option::Some(Suit::Hearts)));
    assert(suit_listed(fs, spec_suit_of_index(2)) == (fs[0] == Option::Some(Suit::Diamonds)
        || fs[1] == Option::Some(Suit::Diamonds) || fs[2] == Option::Some(Suit::Diamonds) || fs[3]
        == Option::Some(Suit::Diamonds)));
    assert(suit_listed(fs, spec_suit_of_index(3)) == (fs[0] == Option::Some(Suit::Clubs) || fs[1]
        == Option::Some(Suit::Clubs) || fs[2] == Option::Some(Suit::Clubs) || fs[3]
        == Option::Some(Suit::Clubs)));
    let ind = |f: int, su: Suit| -> int
        {
            if fs[f] == Option::Some(su) {
                1
            } else {
                0
            }
        };
    assert forall|su: Suit|
        (if suit_listed(fs, su) {
            1int
        } else {
            0int
        }) == ind(0, su) + ind(1, su) + ind(2, su) + ind(3, su) by {
        if suit_listed(fs, su) {
            assert(fs[0] == Option::Some(su) || fs[1] == Option::Some(su) || fs[2]
                == Option::Some(su) || fs[3] == Option::Some(su));
        }
    }
    assert forall|f: int| 0 <= f < 4 implies ind(f, Suit::Spades) + ind(f, Suit::Hearts) + ind(
        f,
        Suit::Diamonds,
    ) + ind(f, Suit::Clubs) == (if fs[f] is Some {
        1int
    } else {
        0int
    }) by {
        match fs[f] {
            Option::Some(s) => {
                assert(s == Suit::Spades || s == Suit::Hearts || s == Suit::Diamonds || s
                    == Suit::Clubs);
            },
            Option::None => {},
        }
    }
    assert(ind(0, Suit::Spades) + ind(1, Suit::Spades) + ind(2, Suit::Spades) + ind(
        3,
        Suit::Spades,
    ) + ind(0, Suit::Hearts) + ind(1, Suit::Hearts) + ind(2, Suit::Hearts) + ind(3, Suit::Hearts)
        + ind(0, Suit::Diamonds) + ind(1, Suit::Diamonds) + ind(2, Suit::Diamonds) + ind(
        3,
        Suit::Diamonds,
    ) + ind(0, Suit::Clubs) + ind(1, Suit::Clubs) + ind(2, Suit::Clubs) + ind(3, Suit::Clubs) == (
    if fs[0] is Some {
        1int
    } else {
        0int
    }) + (if fs[1] is Some {
        1int
    } else {
        0int
    }) + (if fs[2] is Some {
        1int
    } else {
        0int
    }) + (if fs[3] is Some {
        1int
    } else {
        0int
    }));
}

/// Counts are never negative.
proof fn lemma_scnt_nonneg(s: Seq<Card>, x: u8)
    ensures
        scnt(s, x) >= 0,
    decreases s.len(),
{
    if s.len() > 0 {
        lemma_scnt_nonneg(s.drop_last(), x);
    }
}

/// Appending sequences adds their counts.
proof fn lemma_scnt_append(a: Seq<Card>, b: Seq<Card>, x: u8)
    ensures
        scnt(a + b, x) == scnt(a, x) + scnt(b, x),
    decreases b.len(),
{
    if b.len() == 0 {
        assert(a + b =~= a);
    } else {
        assert((a + b).drop_last() =~= a + b.drop_last());
        assert((a + b).last() == b.last());
        lemma_scnt_append(a, b.drop_last(), x);
    }
}

/// Inserting a card raises its count by one.
proof fn lemma_scnt_insert(s: Seq<Card>, i: int, c: Card, x: u8)
    requires
        0 <= i <= s.len(),
    ensures
        scnt(s.insert(i, c), x) == scnt(s, x) + if c.sprite_index == x {
            1int
        } else {
            0int
        },
    decreases s.len() - i,
{
    if i == s.len() {
        assert(s.insert(i, c).drop_last() =~= s);
        assert(s.insert(i, c).last() == c);
    } else {
        assert(s.insert(i, c).drop_last() =~= s.drop_last().insert(i, c));
        assert(s.insert(i, c).last() == s.last());
        lemma_scnt_insert(s.drop_last(), i, c, x);
    }
}

/// Insert a card into a rank-sorted pile, keeping it sorted and placing the
/// card after any of equal rank.
fn insert_sorted(v: &mut Vec<Card>, card: Card)
    requires
        sorted_by_rank(old(v)@),
    ensures
        sorted_by_rank(final(v)@),
        final(v)@.len() == old(v)@.len() + 1,
        forall|x: u8|
            scnt(final(v)@, x) == scnt(old(v)@, x) + if card.sprite_index == x {
                1int
            } else {
                0int
            },
        forall|k: int|
            0 <= k < final(v)@.len() ==> final(v)@[k] == card || old(v)@.contains(
                #[trigger] final(v)@[k],
            ),
{
    let mut pos = v.len();
    while pos > 0 && rank_value(v[pos - 1].rank) > rank_value(card.rank)
        invariant
            pos <= v@.len(),
            v@ == old(v)@,
            sorted_by_rank(v@),
            forall|k: int|
                pos <= k < v@.len() ==> spec_rank_value((#[trigger] v@[k]).rank)
                    > spec_rank_value(card.rank),
        decreases pos,
    {
        pos -= 1;
    }
    let ghost pre = v@;
    let ghost p = pos as int;
    v.insert(pos, card);
    proof {
        assert forall|x: u8|
            scnt(v@, x) == scnt(pre, x) + (if card.sprite_index == x {
                1int
            } else {
                0int
            }) by {
            lemma_scnt_insert(pre, p, card, x);
        }
        assert forall|a: int, b: int|
            0 <= a < b < v@.len() implies spec_rank_value(v@[a].rank) <= spec_rank_value(
            v@[b].rank,
        ) by {
            if a < p && b > p {
                assert(v@[a] == pre[a] && v@[b] == pre[b - 1]);
            } else if a == p && b > p {
                assert(v@[b] == pre[b - 1]);
            } else if a < p && b == p {
                assert(v@[a] == pre[a]);
            } else if b < p {
                assert(v@[a] == pre[a] && v@[b] == pre[b]);
            } else if a > p {
                assert(v@[a] == pre[a - 1] && v@[b] == pre[b - 1]);
            }
        }
        assert forall|k: int|
            0 <= k < v@.len() implies v@[k] == card || pre.contains(#[trigger] v@[k]) by {
            if k < p {
                assert(v@[k] == pre[k]);
            } else if k > p {
                assert(v@[k] == pre[k - 1]);
            }
        }
    }
}

impl GameState {
    /// Sweep every card in the game onto the foundations: collect them all,
    /// turn them face up, and lay each suit out in ascending rank order on
    /// its foundation (keeping the suit a foundation already shows, and
    /// assigning leftover suits to the empty slots in a fixed order). Counts
    /// the moved cards as moves and scores them. Returns `false`, changing
    /// nothing, when the game is already won or holds no cards at all.
    ///
    /// Where two foundations show the same suit, the duplicate slot comes
    /// up empty and one suit's cards are dropped; the contract therefore
    /// promises only that no card is invented, not full conservation.
    pub fn force_complete_foundations(&mut self) -> (r: bool)
        requires
            gs_wf(*old(self)),
        ensures
            gs_wf(*final(self)),
            r == (!spec_game_won(*old(self)) && total_cards(*old(self)) > 0),
            spec_game_won(*old(self)) ==> *final(self) == *old(self),
            !spec_game_won(*old(self)) ==> {
                let added = total_cards(*old(self)) - piles_len_sum(old(self).foundations@);
                &&& forall|t: int|
                    0 <= t < 7 ==> (#[trigger] final(self).tableaus@[t]).cards@.len() == 0
                &&& final(self).stock.cards@.len() == 0
                &&& final(self).waste.cards@.len() == 0
                &&& final(self).foundations@.len() == 4
                &&& forall|f: int|
                    0 <= f < 4 ==> sorted_by_rank((#[trigger] final(self).foundations@[f]).cards@)
                &&& forall|f: int, k: int|
                    0 <= f < 4 && 0 <= k < final(self).foundations@[f].cards@.len()
                        ==> (#[trigger] final(self).foundations@[f].cards@[k]).face_up
                &&& forall|f: int, k: int|
                    0 <= f < 4 && 0 <= k < final(self).foundations@[f].cards@.len()
                        ==> (#[trigger] final(self).foundations@[f].cards@[k]).suit
                        == final(self).foundations@[f].cards@[0].suit
                &&& forall|x: u8|
                    piles_scnt(final(self).foundations@, x) <= game_scnt(*old(self), x)
                &&& (fnd_tops_distinct(*old(self)) ==> forall|x: u8|
                    piles_scnt(final(self).foundations@, x) == game_scnt(*old(self), x))
                &&& final(self).moves == spec_moves_bump(old(self).moves, added % 0x100000000)
                &&& final(self).score == vstd::wrapping::i32_specs::wrapping_add(
                    old(self).score,
                    vstd::wrapping::i32_specs::wrapping_mul(
                        ((added % 0x100000000) as u32) as i32,
                        10,
                    ),
                )
                &&& final(self).draw_mode == old(self).draw_mode
                &&& final(self).rng_seed == old(self).rng_seed
            },
    {
        if self.is_won() {
            return false;
        }
        let ghost g0 = *old(self);

        let mut initial128: u128 = 0;
        let mut fsuits: Vec<Option<Suit>> = Vec::new();
        let mut collected: Vec<Card> = Vec::new();
        let mut f: usize = 0;
        while f < 4
            invariant
                gs_wf(*self),
                f <= 4,
                *old(self) == g0,
                gs_wf(g0),
                fsuits@.len() == f as int,
                forall|j: int| 0 <= j < f ==> #[trigger] fsuits@[j] == spec_fnd_suit(g0, j),
                initial128 == piles_len_sum(g0.foundations@.take(f as int)),
                initial128 <= f as u128 * 0xFFFF_FFFF_FFFF_FFFFu128,
                collected@.len() == piles_len_sum(g0.foundations@.take(f as int)),
                forall|x: u8|
                    scnt(collected@, x) == piles_scnt(g0.foundations@.take(f as int), x),
                self.foundations@.len() == 4,
                forall|j: int|
                    0 <= j < f ==> (#[trigger] self.foundations@[j]).cards@.len() == 0,
                forall|j: int|
                    f <= j < 4 ==> #[trigger] self.foundations@[j] == g0.foundations@[j],
                self.tableaus == g0.tableaus,
                self.stock == g0.stock,
                self.waste == g0.waste,
                self.score == g0.score,
                self.moves == g0.moves,
                self.draw_mode == g0.draw_mode,
                self.rng_seed == g0.rng_seed,
            decreases 4 - f,
        {
            let n = self.foundations[f].cards.len();
            if n > 0 {
                fsuits.push(Some(self.foundations[f].cards[n - 1].suit));
            } else {
                fsuits.push(None);
            }
            initial128 = initial128 + n as u128;
            let ghost pre_col = collected@;
            let ghost pre_f = *self;
            let fp = &mut self.foundations[f];
            collected.append(&mut fp.cards);
            proof {
                assert(g0.foundations@.take(f + 1).drop_last() =~= g0.foundations@.take(f as int));
                assert(self.foundations@ =~= pre_f.foundations@.update(
                    f as int,
                    self.foundations@[f as int],
                ));
                assert forall|x: u8|
                    scnt(collected@, x) == piles_scnt(g0.foundations@.take(f + 1), x) by {
                    lemma_scnt_append(pre_col, g0.foundations@[f as int].cards@, x);
                }
            }
            f += 1;
        }
        proof {
            assert(g0.foundations@.take(4) =~= g0.foundations@);
        }

        let ghost c1 = collected@;
        let ghost pre_s = *self;
        collected.append(&mut self.stock.cards);
        let ghost c2 = collected@;
        collected.append(&mut self.waste.cards);
        proof {
            lemma_scnt_append(c1, g0.stock.cards@, 0);
            lemma_scnt_append(c2, g0.waste.cards@, 0);
            assert forall|x: u8|
                scnt(collected@, x) == piles_scnt(g0.foundations@, x) + scnt(g0.stock.cards@, x)
                    + scnt(g0.waste.cards@, x) by {
                lemma_scnt_append(c1, g0.stock.cards@, x);
                lemma_scnt_append(c2, g0.waste.cards@, x);
            }
        }
        let mut t: usize = 0;
        while t < 7
            invariant
                gs_wf(*self),
                t <= 7,
                *old(self) == g0,
                gs_wf(g0),
                collected@.len() == piles_len_sum(g0.foundations@) + g0.stock.cards@.len()
                    + g0.waste.cards@.len() + piles_len_sum(g0.tableaus@.take(t as int)),
                forall|x: u8|
                    scnt(collected@, x) == piles_scnt(g0.foundations@, x) + scnt(
                        g0.stock.cards@,
                        x,
                    ) + scnt(g0.waste.cards@, x) + piles_scnt(g0.tableaus@.take(t as int), x),
                self.foundations@.len() == 4,
                forall|j: int| 0 <= j < 4 ==> (#[trigger] self.foundations@[j]).cards@.len() == 0,
                self.tableaus@.len() == 7,
                forall|j: int|
                    0 <= j < t ==> (#[trigger] self.tableaus@[j]).cards@.len() == 0,
                forall|j: int| t <= j < 7 ==> #[trigger] self.tableaus@[j] == g0.tableaus@[j],
                self.stock.cards@.len() == 0,
                self.waste.cards@.len() == 0,
                self.score == g0.score,
                self.moves == g0.moves,
                self.draw_mode == g0.draw_mode,
                self.rng_seed == g0.rng_seed,
            decreases 7 - t,
        {
            let ghost pre_col = collected@;
            let ghost pre_t = *self;
            let tp = &mut self.tableaus[t];
            collected.append(&mut tp.cards);
            proof {
                assert(g0.tableaus@.take(t + 1).drop_last() =~= g0.tableaus@.take(t as int));
                assert(self.tableaus@ =~= pre_t.tableaus@.update(
                    t as int,
                    self.tableaus@[t as int],
                ));
                assert forall|x: u8|
                    scnt(collected@, x) == piles_scnt(g0.foundations@, x) + scnt(
                        g0.stock.cards@,
                        x,
                    ) + scnt(g0.waste.cards@, x) + piles_scnt(g0.tableaus@.take(t + 1), x) by {
                    lemma_scnt_append(pre_col, g0.tableaus@[t as int].cards@, x);
                }
            }
            t += 1;
        }
        proof {
            assert(g0.tableaus@.take(7) =~= g0.tableaus@);
        }

        if collected.len() == 0 {
            proof {
                assert(g0.tableaus@.take(7) =~= g0.tableaus@);
                assert forall|x: u8| piles_scnt(self.foundations@, x) == 0 by {
                    reveal_with_fuel(piles_scnt, 6);
                    assert(self.foundations@.drop_last().drop_last().drop_last().drop_last()
                        =~= Seq::<Pile>::empty());
                }
                assert forall|x: u8| piles_scnt(self.foundations@, x) <= game_scnt(g0, x) && (
                fnd_tops_distinct(g0) ==> piles_scnt(self.foundations@, x) == game_scnt(
                    g0,
                    x,
                )) by {
                    assert(piles_scnt(self.foundations@, x) == 0);
                    assert(scnt(collected@, x) == game_scnt(g0, x));
                    assert(collected@ =~= Seq::<Card>::empty());
                }
            }
            return false;
        }
        let total = collected.len();

        let mut s0: Vec<Card> = Vec::new();
        let mut s1: Vec<Card> = Vec::new();
        let mut s2: Vec<Card> = Vec::new();
        let mut s3: Vec<Card> = Vec::new();
        let ghost call = collected@;
        let mut i: usize = 0;
        while i < collected.len()
            invariant
                i <= collected@.len(),
                collected@ == call,
                sorted_by_rank(s0@) && sorted_by_rank(s1@) && sorted_by_rank(s2@) && sorted_by_rank(
                    s3@,
                ),
                forall|k: int|
                    0 <= k < s0@.len() ==> (#[trigger] s0@[k]).face_up && s0@[k].suit
                        == spec_suit_of_index(0),
                forall|k: int|
                    0 <= k < s1@.len() ==> (#[trigger] s1@[k]).face_up && s1@[k].suit
                        == spec_suit_of_index(1),
                forall|k: int|
                    0 <= k < s2@.len() ==> (#[trigger] s2@[k]).face_up && s2@[k].suit
                        == spec_suit_of_index(2),
                forall|k: int|
                    0 <= k < s3@.len() ==> (#[trigger] s3@[k]).face_up && s3@[k].suit
                        == spec_suit_of_index(3),
                s0@.len() + s1@.len() + s2@.len() + s3@.len() == i as int,
                forall|x: u8|
                    scnt(s0@, x) + scnt(s1@, x) + scnt(s2@, x) + scnt(s3@, x) == scnt(
                        call.take(i as int),
                        x,
                    ),
            decreases collected@.len() - i,
        {
            let mut card = collected[i];
            card.face_up = true;
            let row = card.suit.row();
            if row == 0 {
                insert_sorted(&mut s0, card);
            } else if row == 1 {
                insert_sorted(&mut s1, card);
            } else if row == 2 {
                insert_sorted(&mut s2, card);
            } else {
                insert_sorted(&mut s3, card);
            }
            proof {
                assert(call.take(i + 1).drop_last() =~= call.take(i as int));
                assert(call.take(i + 1).last() == call[i as int]);
                assert forall|x: u8|
                    scnt(s0@, x) + scnt(s1@, x) + scnt(s2@, x) + scnt(s3@, x) == scnt(
                        call.take(i + 1),
                        x,
                    ) by {
                    assert(scnt(call.take(i + 1), x) == scnt(call.take(i as int), x) + (
                    if call[i as int].sprite_index == x {
                        1int
                    } else {
                        0int
                    }));
                }
            }
            i += 1;
        }
        proof {
            assert(call.take(call.len() as int) =~= call);
        }

        let mut remaining: Vec<Suit> = Vec::new();
        let mut si: usize = 0;
        while si < 4
            invariant
                si <= 4,
                fsuits@.len() == 4,
                forall|a: int|
                    0 <= a < remaining@.len() ==> !suit_listed(fsuits@, #[trigger] remaining@[a]),
                forall|a: int|
                    0 <= a < remaining@.len() ==> spec_suit_row(#[trigger] remaining@[a]) < si,
                forall|a: int, b: int|
                    0 <= a < b < remaining@.len() ==> spec_suit_row(remaining@[a]) < spec_suit_row(
                        remaining@[b],
                    ),
                remaining@.len() == count_unlisted_upto(fsuits@, si as int),
            decreases 4 - si,
        {
            let su = suit_of_index(si);
            let mut present = false;
            let mut fi: usize = 0;
            while fi < 4
                invariant
                    fi <= 4,
                    fsuits@.len() == 4,
                    su == spec_suit_of_index(si as int),
                    present == exists|f2: int|
                        0 <= f2 < fi && #[trigger] fsuits@[f2] == Option::Some(su),
                decreases 4 - fi,
            {
                let ghost pre_present = present;
                match fsuits[fi] {
                    Some(s) => {
                        if s == su {
                            present = true;
                        }
                    },
                    None => {},
                }
                proof {
                    if present {
                        assert(exists|f2: int|
                            0 <= f2 < fi + 1 && #[trigger] fsuits@[f2] == Option::Some(su)) by {
                            if pre_present {
                                let w = choose|f2: int|
                                    0 <= f2 < fi && #[trigger] fsuits@[f2] == Option::Some(su);
                                assert(fsuits@[w] == Option::Some(su));
                            } else {
                                assert(fsuits@[fi as int] == Option::Some(su));
                            }
                        }
                    }
                }
                fi += 1;
            }
            proof {
                assert(present == suit_listed(fsuits@, su));
            }
            if !present {
                let ghost pre_rem = remaining@;
                remaining.push(su);
                proof {
                    assert(spec_suit_row(spec_suit_of_index(si as int)) == si as int);
                    assert forall|a: int|
                        0 <= a < remaining@.len() implies !suit_listed(
                        fsuits@,
                        #[trigger] remaining@[a],
                    ) by {
                        if a < pre_rem.len() {
                            assert(remaining@[a] == pre_rem[a]);
                        }
                    }
                }
            }
            si += 1;
        }

        proof {
            if fnd_tops_distinct(g0) {
                assert forall|i: int, j: int|
                    0 <= i < j < 4 && #[trigger] fsuits@[i] is Some
                        && #[trigger] fsuits@[j] is Some implies fsuits@[i] != fsuits@[j] by {
                    assert(fsuits@[i] == spec_fnd_suit(g0, i));
                    assert(fsuits@[j] == spec_fnd_suit(g0, j));
                }
                lemma_unlisted_count(fsuits@);
            }
        }
        let ghost mut assigned: Seq<Suit> = Seq::empty();
        let mut idx: usize = 0;
        while idx < 4
            invariant
                idx <= 4,
                fsuits@.len() == 4,
                forall|j: int| 0 <= j < 4 ==> #[trigger] fsuits@[j] == spec_fnd_suit(g0, j),
                fnd_tops_distinct(g0) ==> {
                    &&& assigned.len() == idx
                    &&& forall|a: int, b: int| 0 <= a < b < idx ==> assigned[a] != assigned[b]
                    &&& forall|j: int|
                        0 <= j < idx && fsuits@[j] is Some ==> Option::Some(#[trigger] assigned[j])
                            == fsuits@[j]
                    &&& forall|j: int|
                        0 <= j < idx && fsuits@[j] is None ==> !suit_listed(
                            fsuits@,
                            #[trigger] assigned[j],
                        )
                    &&& forall|a: int|
                        0 <= a < remaining@.len() ==> !suit_listed(
                            fsuits@,
                            #[trigger] remaining@[a],
                        )
                    &&& forall|a: int, b: int|
                        0 <= a < b < remaining@.len() ==> spec_suit_row(remaining@[a])
                            < spec_suit_row(remaining@[b])
                    &&& forall|a: int|
                        0 <= a < remaining@.len() ==> !assigned.contains(#[trigger] remaining@[a])
                    &&& remaining@.len() == count_none(fsuits@, 4) - count_none(
                        fsuits@,
                        idx as int,
                    )
                    &&& (assigned.contains(spec_suit_of_index(0)) ==> s0@.len() == 0)
                    &&& (assigned.contains(spec_suit_of_index(1)) ==> s1@.len() == 0)
                    &&& (assigned.contains(spec_suit_of_index(2)) ==> s2@.len() == 0)
                    &&& (assigned.contains(spec_suit_of_index(3)) ==> s3@.len() == 0)
                },
                self.foundations@.len() == 4,
                self.tableaus@.len() == 7,
                forall|j: int| 0 <= j < 7 ==> (#[trigger] self.tableaus@[j]).cards@.len() == 0,
                self.stock.cards@.len() == 0,
                self.waste.cards@.len() == 0,
                self.score == g0.score,
                self.moves == g0.moves,
                self.draw_mode == g0.draw_mode,
                self.rng_seed == g0.rng_seed,
                *old(self) == g0,
                sorted_by_rank(s0@) && sorted_by_rank(s1@) && sorted_by_rank(s2@) && sorted_by_rank(
                    s3@,
                ),
                forall|k: int|
                    0 <= k < s0@.len() ==> (#[trigger] s0@[k]).face_up && s0@[k].suit
                        == spec_suit_of_index(0),
                forall|k: int|
                    0 <= k < s1@.len() ==> (#[trigger] s1@[k]).face_up && s1@[k].suit
                        == spec_suit_of_index(1),
                forall|k: int|
                    0 <= k < s2@.len() ==> (#[trigger] s2@[k]).face_up && s2@[k].suit
                        == spec_suit_of_index(2),
                forall|k: int|
                    0 <= k < s3@.len() ==> (#[trigger] s3@[k]).face_up && s3@[k].suit
                        == spec_suit_of_index(3),
                forall|j: int|
                    idx <= j < 4 ==> (#[trigger] self.foundations@[j]).cards@.len() == 0,
                forall|j: int|
                    0 <= j < idx ==> sorted_by_rank(
                        (#[trigger] self.foundations@[j]).cards@,
                    ),
                forall|j: int, k: int|
                    0 <= j < idx && 0 <= k < self.foundations@[j].cards@.len()
                        ==> (#[trigger] self.foundations@[j].cards@[k]).face_up,
                forall|j: int, k: int|
                    0 <= j < idx && 0 <= k < self.foundations@[j].cards@.len()
                        ==> (#[trigger] self.foundations@[j].cards@[k]).suit
                        == self.foundations@[j].cards@[0].suit,
                forall|x: u8|
                    scnt(s0@, x) + scnt(s1@, x) + scnt(s2@, x) + scnt(s3@, x) + piles_scnt(
                        self.foundations@.take(idx as int),
                        x,
                    ) == scnt(call, x),
            decreases 4 - idx,
        {
            proof {
                if fnd_tops_distinct(g0) && fsuits@[idx as int] is None {
                    assert(count_none(fsuits@, idx + 1) == count_none(fsuits@, idx as int) + 1);
                    lemma_count_none_mono(fsuits@, idx + 1, 4);
                    assert(remaining@.len() > 0);
                }
            }
            let ghost pre_rem = remaining@;
            let su: Suit = match fsuits[idx] {
                Some(s) => s,
                None => {
                    if remaining.len() > 0 {
                        remaining.remove(0)
                    } else {
                        suit_of_index(idx % 4)
                    }
                },
            };
            let ghost pre_assigned = assigned;
            proof {
                assigned = assigned.push(su);
                if fnd_tops_distinct(g0) {
                    assert forall|a: int| 0 <= a < idx implies pre_assigned[a] != su by {
                        if fsuits@[idx as int] is Some {
                            assert(suit_listed(fsuits@, su)) by {
                                assert(fsuits@[idx as int] == Option::Some(su));
                            }
                            if fsuits@[a] is Some {
                                assert(Option::Some(pre_assigned[a]) == fsuits@[a]);
                            } else {
                                assert(!suit_listed(fsuits@, pre_assigned[a]));
                            }
                        } else {
                            assert(su == pre_rem[0]);
                            assert(!pre_assigned.contains(pre_rem[0]));
                            if pre_assigned[a] == su {
                                assert(pre_assigned.contains(pre_rem[0]));
                            }
                        }
                    }
                    if fsuits@[idx as int] is None {
                        assert(su == pre_rem[0]);
                        assert(remaining@ =~= pre_rem.drop_first());
                        assert(!suit_listed(fsuits@, su));
                        assert forall|a: int|
                            0 <= a < remaining@.len() implies !assigned.contains(
                            #[trigger] remaining@[a],
                        ) by {
                            assert(remaining@[a] == pre_rem[a + 1]);
                            assert(!pre_assigned.contains(pre_rem[a + 1]));
                            assert(spec_suit_row(pre_rem[0]) < spec_suit_row(pre_rem[a + 1]));
                            if assigned.contains(remaining@[a]) {
                                let w = choose|w: int|
                                    0 <= w < assigned.len() && assigned[w] == pre_rem[a + 1];
                                if w < pre_assigned.len() {
                                    assert(pre_assigned[w] == pre_rem[a + 1]);
                                    assert(pre_assigned.contains(pre_rem[a + 1]));
                                } else {
                                    assert(assigned[w] == su);
                                }
                            }
                        }
                    } else {
                        assert forall|a: int|
                            0 <= a < remaining@.len() implies !assigned.contains(
                            #[trigger] remaining@[a],
                        ) by {
                            assert(!pre_assigned.contains(remaining@[a]));
                            assert(suit_listed(fsuits@, su)) by {
                                assert(fsuits@[idx as int] == Option::Some(su));
                            }
                            if assigned.contains(remaining@[a]) {
                                let w = choose|w: int|
                                    0 <= w < assigned.len() && assigned[w] == remaining@[a];
                                if w < pre_assigned.len() {
                                    assert(pre_assigned.contains(remaining@[a]));
                                } else {
                                    assert(remaining@[a] == su);
                                }
                            }
                        }
                        assert(count_none(fsuits@, idx + 1) == count_none(fsuits@, idx as int));
                    }
                }
            }
            let row = su.row();
            proof {
                assert(spec_suit_of_index(spec_suit_row(su) as int) == su);
            }
            let mut cards: Vec<Card> = Vec::new();
            if row == 0 {
                core::mem::swap(&mut cards, &mut s0);
            } else if row == 1 {
                core::mem::swap(&mut cards, &mut s1);
            } else if row == 2 {
                core::mem::swap(&mut cards, &mut s2);
            } else {
                core::mem::swap(&mut cards, &mut s3);
            }
            let ghost pre = *self;
            self.foundations[idx] = Pile { cards };
            proof {
                assert(self.foundations@ =~= pre.foundations@.update(
                    idx as int,
                    self.foundations@[idx as int],
                ));
                assert(self.foundations@.take(idx + 1).drop_last() =~= pre.foundations@.take(
                    idx as int,
                ));
                if fnd_tops_distinct(g0) {
                    assert(spec_suit_row(su) == row as int);
                    if assigned.contains(spec_suit_of_index(0)) && row != 0 {
                        let w = choose|w: int|
                            0 <= w < assigned.len() && assigned[w] == spec_suit_of_index(0);
                        if w == pre_assigned.len() {
                            assert(su == spec_suit_of_index(0));
                        } else {
                            assert(pre_assigned[w] == spec_suit_of_index(0));
                            assert(pre_assigned.contains(spec_suit_of_index(0)));
                        }
                    }
                    if assigned.contains(spec_suit_of_index(1)) && row != 1 {
                        let w = choose|w: int|
                            0 <= w < assigned.len() && assigned[w] == spec_suit_of_index(1);
                        if w == pre_assigned.len() {
                            assert(su == spec_suit_of_index(1));
                        } else {
                            assert(pre_assigned[w] == spec_suit_of_index(1));
                            assert(pre_assigned.contains(spec_suit_of_index(1)));
                        }
                    }
                    if assigned.contains(spec_suit_of_index(2)) && row != 2 {
                        let w = choose|w: int|
                            0 <= w < assigned.len() && assigned[w] == spec_suit_of_index(2);
                        if w == pre_assigned.len() {
                            assert(su == spec_suit_of_index(2));
                        } else {
                            assert(pre_assigned[w] == spec_suit_of_index(2));
                            assert(pre_assigned.contains(spec_suit_of_index(2)));
                        }
                    }
                    if assigned.contains(spec_suit_of_index(3)) && row != 3 {
                        let w = choose|w: int|
                            0 <= w < assigned.len() && assigned[w] == spec_suit_of_index(3);
                        if w == pre_assigned.len() {
                            assert(su == spec_suit_of_index(3));
                        } else {
                            assert(pre_assigned[w] == spec_suit_of_index(3));
                            assert(pre_assigned.contains(spec_suit_of_index(3)));
                        }
                    }
                }
            }
            idx += 1;
        }
        proof {
            assert(self.foundations@.take(4) =~= self.foundations@);
            if fnd_tops_distinct(g0) {
                assert(assigned[0] == Suit::Spades || assigned[0] == Suit::Hearts || assigned[0]
                    == Suit::Diamonds || assigned[0] == Suit::Clubs);
                assert(assigned[1] == Suit::Spades || assigned[1] == Suit::Hearts || assigned[1]
                    == Suit::Diamonds || assigned[1] == Suit::Clubs);
                assert(assigned[2] == Suit::Spades || assigned[2] == Suit::Hearts || assigned[2]
                    == Suit::Diamonds || assigned[2] == Suit::Clubs);
                assert(assigned[3] == Suit::Spades || assigned[3] == Suit::Hearts || assigned[3]
                    == Suit::Diamonds || assigned[3] == Suit::Clubs);
                assert(assigned.contains(spec_suit_of_index(0)) && assigned.contains(
                    spec_suit_of_index(1),
                ) && assigned.contains(spec_suit_of_index(2)) && assigned.contains(
                    spec_suit_of_index(3),
                )) by {
                    assert(assigned[0] != assigned[1] && assigned[0] != assigned[2] && assigned[0]
                        != assigned[3] && assigned[1] != assigned[2] && assigned[1] != assigned[3]
                        && assigned[2] != assigned[3]);
                    if !assigned.contains(Suit::Spades) {
                        assert(assigned[0] != Suit::Spades && assigned[1] != Suit::Spades
                            && assigned[2] != Suit::Spades && assigned[3] != Suit::Spades);
                    }
                    if !assigned.contains(Suit::Hearts) {
                        assert(assigned[0] != Suit::Hearts && assigned[1] != Suit::Hearts
                            && assigned[2] != Suit::Hearts && assigned[3] != Suit::Hearts);
                    }
                    if !assigned.contains(Suit::Diamonds) {
                        assert(assigned[0] != Suit::Diamonds && assigned[1] != Suit::Diamonds
                            && assigned[2] != Suit::Diamonds && assigned[3] != Suit::Diamonds);
                    }
                    if !assigned.contains(Suit::Clubs) {
                        assert(assigned[0] != Suit::Clubs && assigned[1] != Suit::Clubs
                            && assigned[2] != Suit::Clubs && assigned[3] != Suit::Clubs);
                    }
                }
                assert(s0@.len() == 0 && s1@.len() == 0 && s2@.len() == 0 && s3@.len() == 0);
                assert forall|x: u8| piles_scnt(self.foundations@, x) == game_scnt(g0, x) by {
                    assert(scnt(s0@, x) == 0 && scnt(s1@, x) == 0 && scnt(s2@, x) == 0 && scnt(
                        s3@,
                        x,
                    ) == 0);
                    assert(scnt(s0@, x) + scnt(s1@, x) + scnt(s2@, x) + scnt(s3@, x) + piles_scnt(
                        self.foundations@.take(4),
                        x,
                    ) == scnt(call, x));
                    assert(scnt(collected@, x) == piles_scnt(g0.foundations@, x) + scnt(
                        g0.stock.cards@,
                        x,
                    ) + scnt(g0.waste.cards@, x) + piles_scnt(g0.tableaus@.take(7), x));
                }
            }
            assert forall|x: u8| piles_scnt(self.foundations@, x) <= game_scnt(g0, x) by {
                lemma_scnt_nonneg(s0@, x);
                lemma_scnt_nonneg(s1@, x);
                lemma_scnt_nonneg(s2@, x);
                lemma_scnt_nonneg(s3@, x);
                assert(scnt(s0@, x) + scnt(s1@, x) + scnt(s2@, x) + scnt(s3@, x) + piles_scnt(
                    self.foundations@.take(4),
                    x,
                ) == scnt(call, x));
                assert(scnt(collected@, x) == piles_scnt(g0.foundations@, x) + scnt(
                    g0.stock.cards@,
                    x,
                ) + scnt(g0.waste.cards@, x) + piles_scnt(g0.tableaus@.take(7), x));
            }
        }

        proof {
            assert(total as int == total_cards(g0));
            assert(initial128 as int == piles_len_sum(g0.foundations@));
        }
        let added128: u128 = total as u128 - initial128;
        let added_u32: u32 = (added128 % 0x1_0000_0000) as u32;
        let added_i32: i32 = #[verifier::truncate] (added_u32 as i32);
        proof {
            let added = total_cards(g0) - piles_len_sum(g0.foundations@);
            assert(added128 == added);
            assert(added_u32 == added % 0x100000000);
            assert(added_i32 == ((added % 0x100000000) as u32) as i32);
        }
        self.moves = self.moves.saturating_add(added_u32);
        self.score = self.score.wrapping_add(added_i32.wrapping_mul(10));
        true
    }
}

impl Default for GameState {
    /// Same as [`GameState::new`].
    fn default() -> (r: Self)
        ensures
            gs_wf(r),
            r.stock.cards@.len() == 0,
            r.waste.cards@.len() == 0,
            r.draw_mode == DrawMode::DrawOne,
            r.score == 0,
            r.moves == 0,
            r.rng_seed == 0,
    {
        Self::new()
    }
}

} // verus!

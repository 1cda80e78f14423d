//! The iterative depth-first search driver with transposition table.
//!
//! [`solve_deck`] builds the initial deal, normalizes it, and explores the
//! move tree on an explicit stack of frames under a wall-clock deadline,
//! memoizing win/lose results per 64-bit state key. It returns `Winnable`,
//! `Unwinnable`, or `Timeout`.
//!
//! The state key ([`hash_state`]) is a pure function of the state's
//! contents, so equal states always share a key; the search does not verify
//! full equality on a key hit. That 64-bit keys do not collide over the
//! states actually visited is an assumption of the design, which is why the
//! search verdict cannot promise more than the design does: what is
//! verified is that every state handled here stays well-formed and
//! conserves the deal's cards, and that a deal whose normalization fixed
//! point is already won is reported `Winnable` ([`solve_deck`]'s contract,
//! through [`spec_normalize`]).

use std::collections::HashMap;

use vstd::prelude::*;

use crate::clock::{duration_from_secs, instant_checked_add, instant_ge, instant_now};
use crate::kplus::KPlus;
use crate::moves::{apply_move, generate_moves, spec_move_candidate, Move};
use crate::state::{
    cnt, is_normal, lemma_cnt_append, m_won, pile_like, pile_wf, spec_normalize, spec_won,
    state_cnt, state_like, state_model, state_wf, Pile, PileModel, State, StateModel,
};

verus! {

/// The verdict of a solvability search.
#[derive(Clone, Copy, Debug, PartialEq, Eq, Structural)]
pub enum SolveResult {
    /// The deal can be won under perfect play.
    Winnable,
    /// No line of play wins the deal.
    Unwinnable,
    /// The time budget ran out before a definite answer was found.
    Timeout,
}

/// One FNV-style mixing step: xor, then a wrapping multiply.
pub open spec fn spec_mix(h: u64, x: u64) -> u64 {
    vstd::wrapping::u64_specs::wrapping_mul(h ^ x, 0x100000001b3)
}

/// Folding a word sequence into the accumulator, left to right.
pub open spec fn spec_mix_seq(h: u64, s: Seq<u64>) -> u64
    decreases s.len(),
{
    if s.len() == 0 {
        h
    } else {
        spec_mix(spec_mix_seq(h, s.drop_last()), s.last())
    }
}

/// The word mixed for one foundation counter.
pub open spec fn spec_fnd_word(f: i8) -> u64 {
    vstd::wrapping::u64_specs::wrapping_add(f as i64 as u64, 1)
}

/// The words mixed for the foundation counters.
pub open spec fn spec_fnd_words(f: Seq<i8>) -> Seq<u64> {
    Seq::new(f.len(), |i: int| spec_fnd_word(f[i]))
}

/// The words mixed for the stock cards.
pub open spec fn spec_stock_words(st: Seq<u8>) -> Seq<u64> {
    Seq::new(st.len(), |i: int| (st[i] + 0x9e3779b97f4a7c15) as u64)
}

/// The words mixed for one pile's cards.
pub open spec fn spec_card_words(cs: Seq<u8>) -> Seq<u64> {
    Seq::new(cs.len(), |i: int| cs[i] as u64)
}

/// Mixing one pile: a tag, the face-up boundary, the length, the cards.
pub open spec fn spec_pile_mix(h: u64, p: Pile) -> u64 {
    spec_mix_seq(
        spec_mix(spec_mix(spec_mix(h, 0xA3), p.up_from as u64), p.cards@.len() as u64),
        spec_card_words(p.cards@),
    )
}

/// Mixing all piles, left to right.
pub open spec fn spec_piles_mix(h: u64, ps: Seq<Pile>) -> u64
    decreases ps.len(),
{
    if ps.len() == 0 {
        h
    } else {
        spec_pile_mix(spec_piles_mix(h, ps.drop_last()), ps.last())
    }
}

/// The 64-bit key of a state: a deterministic function of the foundation
/// counters, the stock/waste pile with its draw arity and phase, and every
/// pile's face-up boundary and card sequence, in fixed order.
pub open spec fn spec_hash_state(s: State) -> u64 {
    let h1 = spec_mix_seq(0xcbf29ce484222325u64, spec_fnd_words(s.fnd@));
    let h2 = spec_mix(spec_mix(spec_mix(h1, s.k.draw as u64), s.k.phase as u64), s.k.stock@.len() as u64);
    let h3 = spec_mix_seq(h2, spec_stock_words(s.k.stock@));
    spec_piles_mix(h3, s.piles@)
}

/// States with identical contents always hash identically: the key ignores
/// container identity and depends only on the fields in the defined order.
pub proof fn lemma_hash_respects_contents(a: State, b: State)
    requires
        state_like(a, b),
    ensures
        spec_hash_state(a) == spec_hash_state(b),
{
    lemma_piles_mix_like(
        spec_mix_seq(
            spec_mix(
                spec_mix(
                    spec_mix(
                        spec_mix_seq(0xcbf29ce484222325u64, spec_fnd_words(a.fnd@)),
                        a.k.draw as u64,
                    ),
                    a.k.phase as u64,
                ),
                a.k.stock@.len() as u64,
            ),
            spec_stock_words(a.k.stock@),
        ),
        a.piles@,
        b.piles@,
    );
}

/// Piles with equal contents mix equally.
proof fn lemma_piles_mix_like(h: u64, a: Seq<Pile>, b: Seq<Pile>)
    requires
        a.len() == b.len(),
        forall|i: int| 0 <= i < a.len() ==> pile_like(#[trigger] a[i], b[i]),
    ensures
        spec_piles_mix(h, a) == spec_piles_mix(h, b),
    decreases a.len(),
{
    if a.len() > 0 {
        lemma_piles_mix_like(h, a.drop_last(), b.drop_last());
    }
}

/// One mixing step.
fn mix(h: u64, x: u64) -> (r: u64)
    ensures
        r == spec_mix(h, x),
{
    (h ^ x).wrapping_mul(0x100000001b3)
}

/// Collapse a full state to its 64-bit memoization key. The result is
/// exactly [`spec_hash_state`], so two states with identical contents always
/// share a key.
pub fn hash_state(s: &State) -> (r: u64)
    ensures
        r == spec_hash_state(*s),
{
    let mut h: u64 = 0xcbf29ce484222325;
    let mut i: usize = 0;
    while i < s.fnd.len()
        invariant
            i <= s.fnd@.len(),
            h == spec_mix_seq(0xcbf29ce484222325u64, spec_fnd_words(s.fnd@).take(i as int)),
        decreases s.fnd@.len() - i,
    {
        let f = s.fnd[i];
        h = mix(h, (f as i64 as u64).wrapping_add(1));
        proof {
            assert(spec_fnd_words(s.fnd@).take(i + 1).drop_last() =~= spec_fnd_words(
                s.fnd@,
            ).take(i as int));
        }
        i += 1;
    }
    proof {
        assert(spec_fnd_words(s.fnd@).take(s.fnd@.len() as int) =~= spec_fnd_words(s.fnd@));
    }
    h = mix(h, s.k.draw as u64);
    h = mix(h, s.k.phase as u64);
    h = mix(h, s.k.stock.len() as u64);
    let ghost h2 = h;
    let mut j: usize = 0;
    while j < s.k.stock.len()
        invariant
            j <= s.k.stock@.len(),
            h == spec_mix_seq(h2, spec_stock_words(s.k.stock@).take(j as int)),
        decreases s.k.stock@.len() - j,
    {
        let c = s.k.stock[j];
        h = mix(h, c as u64 + 0x9e3779b97f4a7c15);
        proof {
            assert(spec_stock_words(s.k.stock@).take(j + 1).drop_last() =~= spec_stock_words(
                s.k.stock@,
            ).take(j as int));
        }
        j += 1;
    }
    proof {
        assert(spec_stock_words(s.k.stock@).take(s.k.stock@.len() as int) =~= spec_stock_words(
            s.k.stock@,
        ));
    }
    let ghost h3 = h;
    let mut pi: usize = 0;
    while pi < s.piles.len()
        invariant
            pi <= s.piles@.len(),
            h == spec_piles_mix(h3, s.piles@.take(pi as int)),
        decreases s.piles@.len() - pi,
    {
        h = mix(h, 0xA3);
        h = mix(h, s.piles[pi].up_from as u64);
        h = mix(h, s.piles[pi].cards.len() as u64);
        let ghost hc = h;
        let mut ci: usize = 0;
        while ci < s.piles[pi].cards.len()
            invariant
                pi < s.piles@.len(),
                ci <= s.piles@[pi as int].cards@.len(),
                hc == spec_mix(
                    spec_mix(
                        spec_mix(spec_piles_mix(h3, s.piles@.take(pi as int)), 0xA3),
                        s.piles@[pi as int].up_from as u64,
                    ),
                    s.piles@[pi as int].cards@.len() as u64,
                ),
                h == spec_mix_seq(
                    hc,
                    spec_card_words(s.piles@[pi as int].cards@).take(ci as int),
                ),
            decreases s.piles@[pi as int].cards@.len() - ci,
        {
            let c = s.piles[pi].cards[ci];
            h = mix(h, c as u64);
            proof {
                assert(spec_card_words(s.piles@[pi as int].cards@).take(ci + 1).drop_last()
                    =~= spec_card_words(s.piles@[pi as int].cards@).take(ci as int));
            }
            ci += 1;
        }
        proof {
            let cs = s.piles@[pi as int].cards@;
            assert(spec_card_words(cs).take(cs.len() as int) =~= spec_card_words(cs));
            assert(s.piles@.take(pi + 1).drop_last() =~= s.piles@.take(pi as int));
            assert(h == spec_pile_mix(
                spec_piles_mix(h3, s.piles@.take(pi as int)),
                s.piles@[pi as int],
            ));
        }
        pi += 1;
    }
    proof {
        assert(s.piles@.take(s.piles@.len() as int) =~= s.piles@);
    }
    h
}

/// One node of the explicit search stack.
pub struct Frame {
    pub state: State,
    pub key: Option<u64>,
    pub moves: Vec<Move>,
    pub next_child: usize,
    pub initialized: bool,
    pub found_success: bool,
}

impl Frame {
    /// A fresh, unexpanded frame for the given state.
    pub fn new(state: State) -> (r: Frame)
        ensures
            r.state == state,
            r.key is None,
            r.moves@.len() == 0,
            r.next_child == 0,
            !r.initialized,
            !r.found_success,
    {
        Frame {
            state,
            key: None,
            moves: Vec::new(),
            next_child: 0,
            initialized: false,
            found_success: false,
        }
    }
}

/// Whether all four foundation counters are at the King.
fn all_complete(fnd: &Vec<i8>) -> (b: bool)
    requires
        fnd@.len() == 4,
    ensures
        b == (forall|i: int| 0 <= i < 4 ==> fnd@[i] == 12),
{
    fnd[0] == 12 && fnd[1] == 12 && fnd[2] == 12 && fnd[3] == 12
}

/// A frame whose bookkeeping is consistent: a well-formed state, and once
/// expanded, a key and a list of legal moves for that state.
pub open spec fn frame_wf(f: Frame) -> bool {
    &&& state_wf(f.state)
    &&& f.next_child <= f.moves@.len()
    &&& (f.initialized ==> f.key is Some)
    &&& forall|i: int| 0 <= i < f.moves@.len() ==> spec_move_candidate(f.state, #[trigger] f.moves@[i])
}

/// The depth-first driver: explore the move tree from `start` on an
/// explicit stack, memoizing win/lose results per state key in `tt`, until
/// the tree is exhausted or the deadline passes (checked every 1024 nodes).
/// `Some(true)` means a win was found, `Some(false)` that none exists (under
/// the design's key-collision assumption), `None` that time ran out.
///
/// A start state that is already normalized and won is always reported
/// `Some(true)`, before any deadline check.
///
/// An explicit iteration bound (far beyond what any wall-clock budget
/// allows) guarantees the loop terminates even if the clock never reaches
/// the deadline; running into it reports `None` like a timeout.
pub fn dfs(
    start: State,
    tt: &mut HashMap<u64, bool>,
    deadline: std::time::Instant,
    node_counter: &mut u64,
) -> (r: Option<bool>)
    requires
        state_wf(start),
    ensures
        is_normal(start) && spec_won(start) ==> r == Option::Some(true),
{
    let ghost premise = is_normal(start) && spec_won(start);
    let mut stack: Vec<Frame> = Vec::new();
    stack.push(Frame::new(start));
    let mut fuel: u64 = u64::MAX;
    loop
        invariant
            forall|j: int| 0 <= j < stack@.len() ==> frame_wf(#[trigger] stack@[j]),
            premise == (is_normal(start) && spec_won(start)),
            premise ==> stack@.len() == 1 && stack@[0].state == start && !stack@[0].initialized,
            premise ==> fuel >= 1,
        decreases fuel,
    {
        if fuel == 0 {
            return None;
        }
        fuel -= 1;

        if stack.len() == 0 {
            return Some(false);
        }
        let mut frame = stack.pop().unwrap();

        if frame.initialized && frame.found_success {
            let key = frame.key.unwrap();
            tt.insert(key, true);
            if stack.len() == 0 {
                return Some(true);
            }
            let n = stack.len();
            stack[n - 1].found_success = true;
            continue ;
        }

        if !frame.initialized {
            frame.state.normalize();

            if all_complete(&frame.state.fnd) {
                let key = hash_state(&frame.state);
                tt.insert(key, true);
                if stack.len() == 0 {
                    return Some(true);
                }
                let n = stack.len();
                stack[n - 1].found_success = true;
                continue ;
            }

            *node_counter = (*node_counter).wrapping_add(1);
            if (*node_counter & 0x3ff) == 0 {
                let now = instant_now();
                if instant_ge(&now, &deadline) {
                    return None;
                }
            }

            let key = hash_state(&frame.state);
            frame.key = Some(key);

            let mut memo_hit = false;
            let mut memo_val = false;
            match tt.get(&key) {
                Some(res) => {
                    memo_hit = true;
                    memo_val = *res;
                },
                None => {},
            }
            if memo_hit {
                if stack.len() == 0 {
                    return Some(memo_val);
                }
                if memo_val {
                    let n = stack.len();
                    stack[n - 1].found_success = true;
                }
                continue ;
            }

            frame.moves = generate_moves(&frame.state);
            frame.next_child = 0;
            frame.initialized = true;

            if frame.moves.len() == 0 {
                tt.insert(key, false);
                if stack.len() == 0 {
                    return Some(false);
                }
                continue ;
            }
        }

        if frame.next_child < frame.moves.len() {
            let mv = frame.moves[frame.next_child];
            frame.next_child += 1;

            let mut child_state = frame.state.duplicate();
            proof {
                lemma_state_like_transfers(frame.state, child_state, mv);
            }
            apply_move(&mut child_state, mv);
            stack.push(frame);
            stack.push(Frame::new(child_state));
            continue ;
        }

        let key = frame.key.unwrap();
        let result = frame.found_success;
        tt.insert(key, result);
        if stack.len() == 0 {
            return Some(result);
        }
        if result {
            let n = stack.len();
            stack[n - 1].found_success = true;
        }
    }
}

/// Offset of pile `i` within the deal order: piles 0..i take 1, 2, ..., i
/// cards before it.
pub open spec fn pile_off(i: int) -> int
    decreases i,
{
    if i <= 0 {
        0
    } else {
        pile_off(i - 1) + i
    }
}

/// The deal offset grows with the pile index.
pub(crate) proof fn lemma_pile_off_le(a: int, b: int)
    requires
        0 <= a <= b,
    ensures
        pile_off(a) <= pile_off(b),
    decreases b,
{
    if a < b {
        lemma_pile_off_le(a, b - 1);
    }
}

/// Deal a 52-card deck: pile `i` receives cards `pile_off(i)..pile_off(i)+i+1`
/// with only the top card face up, the remaining 24 cards form the stock,
/// and the foundations start empty. The dealt state holds exactly the cards
/// of the deck.
pub fn initial_state(deck: &[u8], draw_size: u8) -> (s: State)
    requires
        draw_size == 1 || draw_size == 3,
        deck@.len() == 52,
        forall|i: int| 0 <= i < 52 ==> #[trigger] deck@[i] < 52,
    ensures
        state_wf(s),
        forall|c: u8| state_cnt(s, c) == cnt(deck@, c),
        s.k.draw == draw_size,
        s.k.phase == draw_size - 1,
        s.k.stock@ == deck@.subrange(28, 52),
        s.piles@.len() == 7,
        forall|i: int|
            0 <= i < 7 ==> (#[trigger] s.piles@[i]).cards@ == deck@.subrange(
                pile_off(i),
                pile_off(i) + i + 1,
            ) && s.piles@[i].up_from == i,
        forall|i: int| 0 <= i < 4 ==> s.fnd@[i] == -1,
{
    let mut piles: Vec<Pile> = Vec::new();
    let mut it: usize = 0;
    let mut i: usize = 0;
    while i < 7
        invariant
            deck@.len() == 52,
            i <= 7,
            piles@.len() == i as int,
            it == pile_off(i as int),
            0 <= it <= 28,
            forall|i2: int| 0 <= i2 < 52 ==> #[trigger] deck@[i2] < 52,
            forall|j: int|
                0 <= j < i ==> (#[trigger] piles@[j]).cards@ == deck@.subrange(
                    pile_off(j),
                    pile_off(j) + j + 1,
                ) && piles@[j].up_from == j,
            forall|j: int| 0 <= j < i ==> pile_wf(#[trigger] piles@[j]),
            forall|c: u8|
                crate::state::piles_cnt(piles@, c) == cnt(deck@.take(it as int), c),
        decreases 7 - i,
    {
        let count = i + 1;
        let mut cards: Vec<u8> = Vec::new();
        let mut j: usize = 0;
        proof {
            assert(pile_off(i + 1) == pile_off(i as int) + i + 1);
            lemma_pile_off_le(i + 1, 7);
            reveal_with_fuel(pile_off, 8);
            assert(pile_off(7) == 28);
        }
        while j < count
            invariant
                deck@.len() == 52,
                j <= count,
                count == i + 1,
                i < 7,
                it == pile_off(i as int),
                0 <= it,
                it + count <= 28,
                forall|i2: int| 0 <= i2 < 52 ==> #[trigger] deck@[i2] < 52,
                cards@ == deck@.subrange(it as int, it + j),
            decreases count - j,
        {
            cards.push(deck[it + j]);
            proof {
                assert(cards@ =~= deck@.subrange(it as int, it + j + 1));
            }
            j += 1;
        }
        let ghost pre_piles = piles@;
        piles.push(Pile { cards, up_from: i });
        proof {
            assert(piles@.drop_last() =~= pre_piles);
            assert(deck@.take(it + count) =~= deck@.take(it as int) + deck@.subrange(
                it as int,
                it + count,
            ));
            assert forall|c: u8|
                crate::state::piles_cnt(piles@, c) == cnt(deck@.take(it + count), c) by {
                assert(crate::state::piles_cnt(pre_piles, c) == cnt(deck@.take(it as int), c));
                assert(piles@.last().cards@ == deck@.subrange(it as int, it + count));
                lemma_cnt_append(
                    deck@.take(it as int),
                    deck@.subrange(it as int, it + count),
                    c,
                );
            }
        }
        it += count;
        i += 1;
    }
    let mut stock: Vec<u8> = Vec::new();
    let mut j: usize = 28;
    while j < 52
        invariant
            deck@.len() == 52,
            28 <= j <= 52,
            forall|i2: int| 0 <= i2 < 52 ==> #[trigger] deck@[i2] < 52,
            stock@ == deck@.subrange(28, j as int),
        decreases 52 - j,
    {
        stock.push(deck[j]);
        proof {
            assert(stock@ =~= deck@.subrange(28, j + 1));
        }
        j += 1;
    }
    let mut fnd: Vec<i8> = Vec::new();
    fnd.push(-1);
    fnd.push(-1);
    fnd.push(-1);
    fnd.push(-1);
    let phase = draw_size - 1;
    let s = State { piles, fnd, k: KPlus { stock, draw: draw_size, phase } };
    proof {
        reveal_with_fuel(pile_off, 8);
        assert(pile_off(7) == 28);
        assert(deck@.take(28) =~= deck@.subrange(0, 28));
        assert(deck@ =~= deck@.take(28) + deck@.subrange(28, 52));
        assert forall|c: u8| state_cnt(s, c) == cnt(deck@, c) by {
            assert(crate::state::piles_cnt(s.piles@, c) == cnt(deck@.take(28), c));
            lemma_cnt_append(deck@.take(28), deck@.subrange(28, 52), c);
        }
    }
    s
}

/// The shape of the state dealt from `deck` under the given draw arity:
/// pile `i` holds `deck[pile_off(i)..pile_off(i)+i+1]` with only its top
/// face up, the rest is the stock, and the foundations start empty.
pub open spec fn spec_deal_model(deck: Seq<u8>, draw: u8) -> StateModel {
    StateModel {
        piles: Seq::new(
            7,
            |i: int|
                PileModel {
                    cards: deck.subrange(pile_off(i), pile_off(i) + i + 1),
                    up: i as nat,
                },
        ),
        fnd: seq![-1i8, -1i8, -1i8, -1i8],
        stock: deck.subrange(28, 52),
        draw: draw,
        phase: (draw - 1) as u8,
    }
}

/// Decide whether the deal can be won under perfect play, within the given
/// time budget.
///
/// The deck must hold 52 distinct card codes in deal order and the draw
/// arity must be 1 or 3; these are caller-controlled constants, so a
/// violation is a programming error, not a recoverable result. `Timeout` is
/// a first-class outcome: the deadline is `now + time_budget`, polled every
/// 1024 expanded nodes.
///
/// The `ensures` pins down what no clock reading can change: a deal whose
/// dealt state normalizes to completed foundations ([`spec_normalize`] on
/// [`spec_deal_model`]) is reported `Winnable`, before any deadline poll.
/// The deeper verdicts rest on the design's assumption that 64-bit state
/// keys do not collide over the states visited, so they carry no formal
/// contract; what is verified there lives in the contracts of the deal,
/// normalization, move generation and application, and the driver, which
/// together conserve the deck's cards through every state the search
/// touches.
pub fn solve_deck(deck: &[u8], draw_size: u8, time_budget: core::time::Duration) -> (r:
    SolveResult)
    requires
        draw_size == 1 || draw_size == 3,
        deck@.len() == 52,
        forall|i: int| 0 <= i < 52 ==> #[trigger] deck@[i] < 52,
        forall|i: int, j: int| 0 <= i < j < 52 ==> deck@[i] != deck@[j],
    ensures
        m_won(spec_normalize(spec_deal_model(deck@, draw_size))) ==> r == SolveResult::Winnable,
{
    let mut s = initial_state(deck, draw_size);
    let ghost dm = spec_deal_model(deck@, draw_size);
    proof {
        assert(state_model(s) =~~= dm);
        assert(state_model(s) == dm);
    }
    s.normalize();
    proof {
        assert(state_model(s) == spec_normalize(dm));
        if m_won(spec_normalize(dm)) {
            assert(m_won(state_model(s)));
            assert(state_model(s).fnd == s.fnd@);
            assert forall|i: int| 0 <= i < 4 implies s.fnd@[i] == 12 by {
                assert(state_model(s).fnd[i] == 12);
            }
            assert(spec_won(s));
        }
    }

    let start = instant_now();
    let deadline = match instant_checked_add(&start, &time_budget) {
        Some(d) => d,
        None => {
            match instant_checked_add(&start, &duration_from_secs(5)) {
                Some(d) => d,
                None => start,
            }
        },
    };
    let mut tt: HashMap<u64, bool> = HashMap::with_capacity(1 << 16);
    let mut nodes: u64 = 0;
    match dfs(s, &mut tt, deadline, &mut nodes) {
        Some(true) => SolveResult::Winnable,
        Some(false) => SolveResult::Unwinnable,
        None => SolveResult::Timeout,
    }
}

/// Well-formedness and move legality carry over to an identical copy of a
/// state.
proof fn lemma_state_like_transfers(a: State, b: State, m: Move)
    requires
        state_like(b, a),
        state_wf(a),
        spec_move_candidate(a, m),
    ensures
        state_wf(b),
        spec_move_candidate(b, m),
{
    assert forall|i: int| 0 <= i < 7 implies pile_wf(#[trigger] b.piles@[i]) by {
        assert(pile_like(b.piles@[i], a.piles@[i]));
    }
    assert forall|i: int| 0 <= i < b.piles@.len() implies (#[trigger] b.piles@[i]).cards@
        == a.piles@[i].cards@ && b.piles@[i].up_from == a.piles@[i].up_from by {
        assert(pile_like(b.piles@[i], a.piles@[i]));
    }
}

} // verus!

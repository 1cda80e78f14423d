//! Move generation and application for the solver.
//!
//! From a normalized, non-terminal state, [`generate_moves`] enumerates every
//! legal move, ordered so that moves which expose a new face-down tableau
//! card come first, then waste-to-tableau, waste-to-foundation,
//! tableau-to-foundation together with non-exposing tableau-to-tableau, and
//! foundation-to-tableau reversals last. The ordering is a search heuristic
//! only; the contract pins down exactly which moves appear
//! ([`spec_move_candidate`]) and that the emitted list is sorted by that key.

use vstd::prelude::*;

use crate::cards::{
    can_build_onto, is_king, rank, safe_to_foundation, spec_can_build_onto, spec_is_king,
    spec_rank, spec_safe_to_foundation, spec_suit, suit,
};
use crate::kplus::spec_playable;
use crate::state::{
    cnt, conserves, lemma_cnt_append, lemma_cnt_push, lemma_cnt_remove, lemma_code_decomp,
    lemma_piles_cnt_update, pile_wf, state_cnt, state_wf, stock_promotable, tableau_promotable,
    Pile, State,
};

verus! {

/// One legal move of the solver's state.
#[derive(Clone, Copy)]
pub enum Move {
    /// Pop the top card of pile `src` onto its foundation.
    TableauToFoundation { src: usize },
    /// Transfer the suffix run starting at `start_idx` from pile `src` onto
    /// pile `dst`.
    TableauToTableau { src: usize, start_idx: usize, dst: usize },
    /// Take the playable stock card at `idx_in_k` onto its foundation.
    WasteToFoundation { idx_in_k: usize },
    /// Take the playable stock card at `idx_in_k` onto pile `dst`.
    WasteToTableau { idx_in_k: usize, dst: usize },
    /// Pull the top card of foundation `suit` back onto pile `dst`.
    FoundationToTableau { suit: usize, dst: usize },
}

/// The suffix of `cards` starting at `start` is a valid alternating-color,
/// descending-by-one run.
pub open spec fn chain_from(cards: Seq<u8>, start: int) -> bool {
    forall|t: int|
        start <= t < cards.len() - 1 ==> spec_can_build_onto(cards[t], #[trigger] cards[t + 1])
}

/// One step of a valid run.
pub proof fn lemma_chain_step(cards: Seq<u8>, a: int, j: int)
    requires
        chain_from(cards, a),
        a <= j < cards.len() - 1,
    ensures
        spec_can_build_onto(cards[j], cards[j + 1]),
{
}

/// A valid run stays valid when shortened from the bottom.
pub proof fn lemma_chain_mono(cards: Seq<u8>, a: int, b: int)
    requires
        chain_from(cards, a),
        a <= b,
    ensures
        chain_from(cards, b),
{
    assert forall|t: int| b <= t < cards.len() - 1 implies spec_can_build_onto(
        cards[t],
        #[trigger] cards[t + 1],
    ) by {
        lemma_chain_step(cards, a, t);
    }
}

/// Pile `d` is the first empty pile of the state.
pub open spec fn is_first_empty(s: State, d: int) -> bool {
    &&& 0 <= d < 7
    &&& s.piles@[d].cards@.len() == 0
    &&& forall|e: int| 0 <= e < d ==> (#[trigger] s.piles@[e]).cards@.len() > 0
}

/// A single card `c` may land on tableau pile `dst`: either the pile's top
/// card accepts it, or the pile is the first empty pile and `c` is a King.
pub open spec fn tableau_target_ok(s: State, dst: int, c: u8) -> bool {
    &&& 0 <= dst < 7
    &&& if s.piles@[dst].cards@.len() > 0 {
        spec_can_build_onto(c, s.piles@[dst].cards@.last())
    } else {
        spec_is_king(c) && is_first_empty(s, dst)
    }
}

/// The card code currently on top of foundation `su`.
pub open spec fn fnd_top_code(s: State, su: int) -> u8 {
    (su * 13 + s.fnd@[su]) as u8
}

/// Exactly the moves the generator enumerates from state `s`.
pub open spec fn spec_move_candidate(s: State, m: Move) -> bool {
    match m {
        Move::TableauToFoundation { src } => tableau_promotable(s, src as int),
        Move::TableauToTableau { src, start_idx, dst } => {
            &&& src < 7
            &&& dst != src
            &&& s.piles@[src as int].up_from <= start_idx < s.piles@[src as int].cards@.len()
            &&& chain_from(s.piles@[src as int].cards@, start_idx as int)
            &&& tableau_target_ok(s, dst as int, s.piles@[src as int].cards@[start_idx as int])
        },
        Move::WasteToFoundation { idx_in_k } => stock_promotable(s, idx_in_k),
        Move::WasteToTableau { idx_in_k, dst } => {
            &&& spec_playable(s.k, idx_in_k)
            &&& tableau_target_ok(s, dst as int, s.k.stock@[idx_in_k as int])
        },
        Move::FoundationToTableau { suit, dst } => {
            &&& suit < 4
            &&& s.fnd@[suit as int] >= 0
            &&& !spec_safe_to_foundation(
                fnd_top_code(s, suit as int),
                s.fnd@.update(suit as int, (s.fnd@[suit as int] - 1) as i8),
            )
            &&& tableau_target_ok(s, dst as int, fnd_top_code(s, suit as int))
        },
    }
}

/// The ordering key of the move heuristic: exposing tableau runs first,
/// foundation reversals last.
pub open spec fn spec_move_key(s: State, m: Move) -> int {
    match m {
        Move::TableauToTableau { src, start_idx, dst } => {
            if start_idx == s.piles@[src as int].up_from && start_idx < s.piles@[
                src as int
            ].cards@.len() {
                0
            } else {
                3
            }
        },
        Move::WasteToTableau { .. } => 1,
        Move::WasteToFoundation { .. } => 2,
        Move::TableauToFoundation { .. } => 3,
        Move::FoundationToTableau { .. } => 4,
    }
}

/// Pushing keeps every element of a sequence, and adds the new one.
proof fn lemma_push_contains<T>(s: Seq<T>, x: T)
    ensures
        forall|m: T| s.contains(m) ==> #[trigger] s.push(x).contains(m),
        s.push(x).contains(x),
{
    assert(s.push(x)[s.len() as int] == x);
    assert forall|m: T| s.contains(m) implies #[trigger] s.push(x).contains(m) by {
        let j = choose|j: int| 0 <= j < s.len() && s[j] == m;
        assert(s.push(x)[j] == m);
    }
}

/// If every element of the region `[n0, len)` satisfies `p` and the pushed
/// element does too, the region of the extended sequence satisfies `p`.
proof fn lemma_push_region(pre: Seq<Move>, x: Move, n0: int, post: Seq<Move>, p: spec_fn(Move) -> bool)
    requires
        post == pre.push(x),
        0 <= n0 <= pre.len(),
        forall|j: int| n0 <= j < pre.len() ==> p(#[trigger] pre[j]),
        p(x),
    ensures
        forall|j: int| n0 <= j < post.len() ==> p(#[trigger] post[j]),
        forall|j: int| 0 <= j < pre.len() ==> post[j] == pre[j],
{
    assert forall|j: int| n0 <= j < post.len() implies p(#[trigger] post[j]) by {
        if j < pre.len() {
            assert(post[j] == pre[j]);
        } else {
            assert(post[j] == x);
        }
    }
}

/// The first empty pile, if any.
fn first_empty_pile(s: &State) -> (r: Option<usize>)
    requires
        state_wf(*s),
    ensures
        match r {
            Option::Some(d) => is_first_empty(*s, d as int),
            Option::None => forall|d: int| !is_first_empty(*s, d),
        },
{
    let mut d: usize = 0;
    while d < 7
        invariant
            state_wf(*s),
            d <= 7,
            forall|e: int| 0 <= e < d ==> (#[trigger] s.piles@[e]).cards@.len() > 0,
        decreases 7 - d,
    {
        if s.piles[d].cards.len() == 0 {
            return Some(d);
        }
        d += 1;
    }
    None
}

/// The lowest index from which the face-up suffix of the pile forms a valid
/// movable run.
fn run_start(p: &Pile) -> (jmin: usize)
    requires
        pile_wf(*p),
        p.up_from < p.cards@.len(),
    ensures
        p.up_from <= jmin < p.cards@.len(),
        chain_from(p.cards@, jmin as int),
        jmin > p.up_from ==> !spec_can_build_onto(p.cards@[jmin - 1], p.cards@[jmin as int]),
{
    let mut j = p.cards.len() - 1;
    while j > p.up_from && can_build_onto(p.cards[j - 1], p.cards[j])
        invariant
            pile_wf(*p),
            p.up_from <= j < p.cards@.len(),
            chain_from(p.cards@, j as int),
        decreases j,
    {
        j -= 1;
    }
    j
}

/// The move is a tableau-to-tableau transfer whose exposing status (the run
/// starts exactly at the face-up boundary) matches `exposing`.
pub open spec fn is_t2t_class(s: State, m: Move, exposing: bool) -> bool {
    match m {
        Move::TableauToTableau { src, start_idx, dst } => (start_idx == s.piles@[
            src as int
        ].up_from) == exposing,
        _ => false,
    }
}

/// Append every tableau-to-tableau candidate of the given exposing class.
fn gen_t2t(s: &State, exposing: bool, moves: &mut Vec<Move>)
    requires
        state_wf(*s),
    ensures
        final(moves)@.len() >= old(moves)@.len(),
        forall|j: int| 0 <= j < old(moves)@.len() ==> final(moves)@[j] == old(moves)@[j],
        forall|j: int|
            old(moves)@.len() <= j < final(moves)@.len() ==> spec_move_candidate(
                *s,
                #[trigger] final(moves)@[j],
            ) && is_t2t_class(*s, final(moves)@[j], exposing),
        forall|m: Move|
            spec_move_candidate(*s, m) && is_t2t_class(*s, m, exposing)
                ==> final(moves)@.contains(m),
{
    let ghost n0 = moves@.len() as int;
    let fe = first_empty_pile(s);
    let mut src: usize = 0;
    while src < 7
        invariant
            state_wf(*s),
            src <= 7,
            match fe {
                Option::Some(d) => is_first_empty(*s, d as int),
                Option::None => forall|d: int| !is_first_empty(*s, d),
            },
            0 <= n0 <= moves@.len(),
            forall|j: int| 0 <= j < n0 ==> moves@[j] == old(moves)@[j],
            forall|j: int|
                n0 <= j < moves@.len() ==> spec_move_candidate(*s, #[trigger] moves@[j])
                    && is_t2t_class(*s, moves@[j], exposing),
            forall|m: Move|
                spec_move_candidate(*s, m) && is_t2t_class(*s, m, exposing) && (match m {
                    Move::TableauToTableau { src: ms, .. } => ms < src,
                    _ => false,
                }) ==> moves@.contains(m),
        decreases 7 - src,
    {
        let p_len = s.piles[src].cards.len();
        let uf = s.piles[src].up_from;
        if uf < p_len {
            let jmin = run_start(&s.piles[src]);
            proof {
                let cards = s.piles@[src as int].cards@;
                assert forall|si: int|
                    (#[trigger] chain_from(cards, si)) && uf <= si < p_len implies si
                    >= jmin by {
                    if si < jmin {
                        lemma_chain_step(cards, si, jmin - 1);
                    }
                }
            }
            let mut start = jmin;
            while start < p_len
                invariant
                    state_wf(*s),
                    src < 7,
                    p_len == s.piles@[src as int].cards@.len(),
                    uf == s.piles@[src as int].up_from,
                    uf <= jmin <= start <= p_len,
                    chain_from(s.piles@[src as int].cards@, jmin as int),
                    match fe {
                        Option::Some(d) => is_first_empty(*s, d as int),
                        Option::None => forall|d: int| !is_first_empty(*s, d),
                    },
                    forall|si: int|
                        (#[trigger] chain_from(s.piles@[src as int].cards@, si)) && uf <= si
                            < p_len ==> si >= jmin,
                    0 <= n0 <= moves@.len(),
                    forall|j: int| 0 <= j < n0 ==> moves@[j] == old(moves)@[j],
                    forall|j: int|
                        n0 <= j < moves@.len() ==> spec_move_candidate(*s, #[trigger] moves@[j])
                            && is_t2t_class(*s, moves@[j], exposing),
                    forall|m: Move|
                        spec_move_candidate(*s, m) && is_t2t_class(*s, m, exposing) && (match m {
                            Move::TableauToTableau { src: ms, start_idx: mst, .. } => ms < src || (
                            ms == src && mst < start),
                            _ => false,
                        }) ==> moves@.contains(m),
                decreases p_len - start,
            {
                let cls = start == uf;
                if cls == exposing {
                    proof {
                        lemma_chain_mono(s.piles@[src as int].cards@, jmin as int, start as int);
                    }
                    let bottom = s.piles[src].cards[start];
                    let mut dst: usize = 0;
                    while dst < 7
                        invariant
                            state_wf(*s),
                            src < 7,
                            start < s.piles@[src as int].cards@.len(),
                            uf == s.piles@[src as int].up_from,
                            uf <= start,
                            chain_from(s.piles@[src as int].cards@, start as int),
                            (start == uf) == exposing,
                            bottom == s.piles@[src as int].cards@[start as int],
                            dst <= 7,
                            match fe {
                                Option::Some(d) => is_first_empty(*s, d as int),
                                Option::None => forall|d: int| !is_first_empty(*s, d),
                            },
                            0 <= n0 <= moves@.len(),
                            forall|j: int| 0 <= j < n0 ==> moves@[j] == old(moves)@[j],
                            forall|j: int|
                                n0 <= j < moves@.len() ==> spec_move_candidate(
                                    *s,
                                    #[trigger] moves@[j],
                                ) && is_t2t_class(*s, moves@[j], exposing),
                            forall|m: Move|
                                spec_move_candidate(*s, m) && is_t2t_class(*s, m, exposing) && (
                                match m {
                                    Move::TableauToTableau { src: ms, start_idx: mst, dst: md } => {
                                        ||| ms < src
                                        ||| (ms == src && mst < start)
                                        ||| (ms == src && mst == start && md < dst
                                            && s.piles@[md as int].cards@.len() > 0)
                                    },
                                    _ => false,
                                }) ==> moves@.contains(m),
                        decreases 7 - dst,
                    {
                        if dst != src && s.piles[dst].cards.len() > 0 {
                            let t = s.piles[dst].cards[s.piles[dst].cards.len() - 1];
                            if can_build_onto(bottom, t) {
                                let ghost pre = moves@;
                                moves.push(
                                    Move::TableauToTableau { src, start_idx: start, dst },
                                );
                                proof {
                                    lemma_push_contains(
                                        pre,
                                        Move::TableauToTableau { src, start_idx: start, dst },
                                    );
                                    lemma_push_region(
                                        pre,
                                        Move::TableauToTableau { src, start_idx: start, dst },
                                        n0,
                                        moves@,
                                        |m: Move|
                                            spec_move_candidate(*s, m) && is_t2t_class(
                                                *s,
                                                m,
                                                exposing,
                                            ),
                                    );
                                }
                            }
                        }
                        dst += 1;
                    }
                    if is_king(bottom) {
                        if let Some(d) = fe {
                            if d != src {
                                let ghost pre = moves@;
                                moves.push(
                                    Move::TableauToTableau { src, start_idx: start, dst: d },
                                );
                                proof {
                                    lemma_push_contains(
                                        pre,
                                        Move::TableauToTableau { src, start_idx: start, dst: d },
                                    );
                                    lemma_push_region(
                                        pre,
                                        Move::TableauToTableau { src, start_idx: start, dst: d },
                                        n0,
                                        moves@,
                                        |m: Move|
                                            spec_move_candidate(*s, m) && is_t2t_class(
                                                *s,
                                                m,
                                                exposing,
                                            ),
                                    );
                                }
                            }
                        }
                    }
                }
                start += 1;
            }
        }
        src += 1;
    }
}

/// If the longer sequence extends the shorter one, containment carries over.
proof fn lemma_prefix_contains(pre: Seq<Move>, post: Seq<Move>)
    requires
        post.len() >= pre.len(),
        forall|j: int| 0 <= j < pre.len() ==> post[j] == #[trigger] pre[j],
    ensures
        forall|m: Move| pre.contains(m) ==> #[trigger] post.contains(m),
{
    assert forall|m: Move| pre.contains(m) implies #[trigger] post.contains(m) by {
        let j = choose|j: int| 0 <= j < pre.len() && pre[j] == m;
        assert(post[j] == m);
    }
}

/// Append every waste-to-tableau candidate, in ascending stock order.
fn gen_w2t(s: &State, moves: &mut Vec<Move>)
    requires
        state_wf(*s),
    ensures
        final(moves)@.len() >= old(moves)@.len(),
        forall|j: int| 0 <= j < old(moves)@.len() ==> final(moves)@[j] == old(moves)@[j],
        forall|j: int|
            old(moves)@.len() <= j < final(moves)@.len() ==> spec_move_candidate(
                *s,
                #[trigger] final(moves)@[j],
            ) && final(moves)@[j] is WasteToTableau,
        forall|m: Move|
            spec_move_candidate(*s, m) && m is WasteToTableau ==> final(moves)@.contains(m),
{
    let ghost n0 = moves@.len() as int;
    let fe = first_empty_pile(s);
    let d = s.k.draw as usize;
    let ph = s.k.phase as usize;
    let mut idx: usize = 0;
    while idx < s.k.stock.len()
        invariant
            state_wf(*s),
            d == s.k.draw as int,
            ph == s.k.phase as int,
            idx <= s.k.stock@.len(),
            match fe {
                Option::Some(e) => is_first_empty(*s, e as int),
                Option::None => forall|e: int| !is_first_empty(*s, e),
            },
            0 <= n0 <= moves@.len(),
            forall|j: int| 0 <= j < n0 ==> moves@[j] == old(moves)@[j],
            forall|j: int|
                n0 <= j < moves@.len() ==> spec_move_candidate(*s, #[trigger] moves@[j])
                    && moves@[j] is WasteToTableau,
            forall|m: Move|
                spec_move_candidate(*s, m) && (match m {
                    Move::WasteToTableau { idx_in_k, .. } => idx_in_k < idx,
                    _ => false,
                }) ==> moves@.contains(m),
        decreases s.k.stock@.len() - idx,
    {
        if idx % d == ph {
            let c = s.k.stock[idx];
            let mut dst: usize = 0;
            while dst < 7
                invariant
                    state_wf(*s),
                    idx < s.k.stock@.len(),
                    idx as int % s.k.draw as int == s.k.phase as int,
                    c == s.k.stock@[idx as int],
                    dst <= 7,
                    match fe {
                        Option::Some(e) => is_first_empty(*s, e as int),
                        Option::None => forall|e: int| !is_first_empty(*s, e),
                    },
                    0 <= n0 <= moves@.len(),
                    forall|j: int| 0 <= j < n0 ==> moves@[j] == old(moves)@[j],
                    forall|j: int|
                        n0 <= j < moves@.len() ==> spec_move_candidate(*s, #[trigger] moves@[j])
                            && moves@[j] is WasteToTableau,
                    forall|m: Move|
                        spec_move_candidate(*s, m) && (match m {
                            Move::WasteToTableau { idx_in_k, dst: md } => idx_in_k < idx || (
                            idx_in_k == idx && md < dst),
                            _ => false,
                        }) ==> moves@.contains(m),
                decreases 7 - dst,
            {
                let pl = s.piles[dst].cards.len();
                let mut push_it = false;
                if pl > 0 {
                    let t = s.piles[dst].cards[pl - 1];
                    if can_build_onto(c, t) {
                        push_it = true;
                    }
                } else {
                    if is_king(c) {
                        if let Some(e) = fe {
                            if e == dst {
                                push_it = true;
                            }
                        }
                    }
                }
                if push_it {
                    let ghost pre = moves@;
                    moves.push(Move::WasteToTableau { idx_in_k: idx, dst });
                    proof {
                        lemma_push_contains(pre, Move::WasteToTableau { idx_in_k: idx, dst });
                        lemma_push_region(
                            pre,
                            Move::WasteToTableau { idx_in_k: idx, dst },
                            n0,
                            moves@,
                            |m: Move|
                                spec_move_candidate(*s, m) && m is WasteToTableau,
                        );
                    }
                }
                dst += 1;
            }
        }
        idx += 1;
    }
}

/// Append every waste-to-foundation candidate, in ascending stock order.
fn gen_w2f(s: &State, moves: &mut Vec<Move>)
    requires
        state_wf(*s),
    ensures
        final(moves)@.len() >= old(moves)@.len(),
        forall|j: int| 0 <= j < old(moves)@.len() ==> final(moves)@[j] == old(moves)@[j],
        forall|j: int|
            old(moves)@.len() <= j < final(moves)@.len() ==> spec_move_candidate(
                *s,
                #[trigger] final(moves)@[j],
            ) && final(moves)@[j] is WasteToFoundation,
        forall|m: Move|
            spec_move_candidate(*s, m) && m is WasteToFoundation ==> final(moves)@.contains(m),
{
    let ghost n0 = moves@.len() as int;
    let d = s.k.draw as usize;
    let ph = s.k.phase as usize;
    let mut idx: usize = 0;
    while idx < s.k.stock.len()
        invariant
            state_wf(*s),
            d == s.k.draw as int,
            ph == s.k.phase as int,
            idx <= s.k.stock@.len(),
            0 <= n0 <= moves@.len(),
            forall|j: int| 0 <= j < n0 ==> moves@[j] == old(moves)@[j],
            forall|j: int|
                n0 <= j < moves@.len() ==> spec_move_candidate(*s, #[trigger] moves@[j])
                    && moves@[j] is WasteToFoundation,
            forall|m: Move|
                spec_move_candidate(*s, m) && (match m {
                    Move::WasteToFoundation { idx_in_k } => idx_in_k < idx,
                    _ => false,
                }) ==> moves@.contains(m),
        decreases s.k.stock@.len() - idx,
    {
        if idx % d == ph {
            let c = s.k.stock[idx];
            let su = suit(c) as usize;
            let f = s.fnd[su];
            if f + 1 == rank(c) as i8 {
                let ghost pre = moves@;
                moves.push(Move::WasteToFoundation { idx_in_k: idx });
                proof {
                    lemma_push_contains(pre, Move::WasteToFoundation { idx_in_k: idx });
                    lemma_push_region(
                        pre,
                        Move::WasteToFoundation { idx_in_k: idx },
                        n0,
                        moves@,
                        |m: Move|
                            spec_move_candidate(*s, m) && m is WasteToFoundation,
                    );
                }
            }
        }
        idx += 1;
    }
}

/// Append every tableau-to-foundation candidate, in pile order.
fn gen_t2f(s: &State, moves: &mut Vec<Move>)
    requires
        state_wf(*s),
    ensures
        final(moves)@.len() >= old(moves)@.len(),
        forall|j: int| 0 <= j < old(moves)@.len() ==> final(moves)@[j] == old(moves)@[j],
        forall|j: int|
            old(moves)@.len() <= j < final(moves)@.len() ==> spec_move_candidate(
                *s,
                #[trigger] final(moves)@[j],
            ) && final(moves)@[j] is TableauToFoundation,
        forall|m: Move|
            spec_move_candidate(*s, m) && m is TableauToFoundation ==> final(moves)@.contains(m),
{
    let ghost n0 = moves@.len() as int;
    let mut src: usize = 0;
    while src < 7
        invariant
            state_wf(*s),
            src <= 7,
            0 <= n0 <= moves@.len(),
            forall|j: int| 0 <= j < n0 ==> moves@[j] == old(moves)@[j],
            forall|j: int|
                n0 <= j < moves@.len() ==> spec_move_candidate(*s, #[trigger] moves@[j])
                    && moves@[j] is TableauToFoundation,
            forall|m: Move|
                spec_move_candidate(*s, m) && (match m {
                    Move::TableauToFoundation { src: ms } => ms < src,
                    _ => false,
                }) ==> moves@.contains(m),
        decreases 7 - src,
    {
        let n = s.piles[src].cards.len();
        if n > 0 {
            let top = s.piles[src].cards[n - 1];
            let su = suit(top) as usize;
            let f = s.fnd[su];
            if f + 1 == rank(top) as i8 {
                let ghost pre = moves@;
                moves.push(Move::TableauToFoundation { src });
                proof {
                    lemma_push_contains(pre, Move::TableauToFoundation { src });
                    lemma_push_region(
                        pre,
                        Move::TableauToFoundation { src },
                        n0,
                        moves@,
                        |m: Move|
                            spec_move_candidate(*s, m) && m is TableauToFoundation,
                    );
                }
            }
        }
        src += 1;
    }
}

/// Append every foundation-to-tableau reversal candidate: the foundation top
/// may be pulled back only where leaving it promoted would not have counted
/// as safe.
fn gen_f2t(s: &State, moves: &mut Vec<Move>)
    requires
        state_wf(*s),
    ensures
        final(moves)@.len() >= old(moves)@.len(),
        forall|j: int| 0 <= j < old(moves)@.len() ==> final(moves)@[j] == old(moves)@[j],
        forall|j: int|
            old(moves)@.len() <= j < final(moves)@.len() ==> spec_move_candidate(
                *s,
                #[trigger] final(moves)@[j],
            ) && final(moves)@[j] is FoundationToTableau,
        forall|m: Move|
            spec_move_candidate(*s, m) && m is FoundationToTableau ==> final(moves)@.contains(m),
{
    let ghost n0 = moves@.len() as int;
    let fe = first_empty_pile(s);
    let mut su: usize = 0;
    while su < 4
        invariant
            state_wf(*s),
            su <= 4,
            match fe {
                Option::Some(e) => is_first_empty(*s, e as int),
                Option::None => forall|e: int| !is_first_empty(*s, e),
            },
            0 <= n0 <= moves@.len(),
            forall|j: int| 0 <= j < n0 ==> moves@[j] == old(moves)@[j],
            forall|j: int|
                n0 <= j < moves@.len() ==> spec_move_candidate(*s, #[trigger] moves@[j])
                    && moves@[j] is FoundationToTableau,
            forall|m: Move|
                spec_move_candidate(*s, m) && (match m {
                    Move::FoundationToTableau { suit: ms, .. } => ms < su,
                    _ => false,
                }) ==> moves@.contains(m),
        decreases 4 - su,
    {
        let f = s.fnd[su];
        if f >= 0 {
            let c: u8 = (su as u8) * 13 + (f as u8);
            let mut nf: Vec<i8> = Vec::new();
            let mut t: usize = 0;
            while t < 4
                invariant
                    state_wf(*s),
                    su < 4,
                    f == s.fnd@[su as int],
                    f >= 0,
                    t <= 4,
                    nf@.len() == t as int,
                    forall|e: int|
                        0 <= e < t ==> #[trigger] nf@[e] == (if e == su {
                            (s.fnd@[e] - 1) as i8
                        } else {
                            s.fnd@[e]
                        }),
                decreases 4 - t,
            {
                let v = s.fnd[t];
                if t == su {
                    nf.push(v - 1);
                } else {
                    nf.push(v);
                }
                t += 1;
            }
            proof {
                assert(nf@ =~= s.fnd@.update(su as int, (s.fnd@[su as int] - 1) as i8));
            }
            if !safe_to_foundation(c, &nf) {
                let mut dst: usize = 0;
                while dst < 7
                    invariant
                        state_wf(*s),
                        su < 4,
                        f == s.fnd@[su as int],
                        f >= 0,
                        c == fnd_top_code(*s, su as int),
                        !spec_safe_to_foundation(
                            fnd_top_code(*s, su as int),
                            s.fnd@.update(su as int, (s.fnd@[su as int] - 1) as i8),
                        ),
                        dst <= 7,
                        match fe {
                            Option::Some(e) => is_first_empty(*s, e as int),
                            Option::None => forall|e: int| !is_first_empty(*s, e),
                        },
                        0 <= n0 <= moves@.len(),
                        forall|j: int| 0 <= j < n0 ==> moves@[j] == old(moves)@[j],
                        forall|j: int|
                            n0 <= j < moves@.len() ==> spec_move_candidate(
                                *s,
                                #[trigger] moves@[j],
                            ) && moves@[j] is FoundationToTableau,
                        forall|m: Move|
                            spec_move_candidate(*s, m) && (match m {
                                Move::FoundationToTableau { suit: ms, dst: md } => ms < su || (ms
                                    == su && md < dst),
                                _ => false,
                            }) ==> moves@.contains(m),
                    decreases 7 - dst,
                {
                    let pl = s.piles[dst].cards.len();
                    let mut push_it = false;
                    if pl > 0 {
                        let tt = s.piles[dst].cards[pl - 1];
                        if can_build_onto(c, tt) {
                            push_it = true;
                        }
                    } else {
                        if is_king(c) {
                            if let Some(e) = fe {
                                if e == dst {
                                    push_it = true;
                                }
                            }
                        }
                    }
                    if push_it {
                        let ghost pre = moves@;
                        moves.push(Move::FoundationToTableau { suit: su, dst });
                        proof {
                            lemma_push_contains(pre, Move::FoundationToTableau { suit: su, dst });
                            lemma_push_region(
                                pre,
                                Move::FoundationToTableau { suit: su, dst },
                                n0,
                                moves@,
                                |m: Move|
                                    spec_move_candidate(*s, m) && m is FoundationToTableau,
                            );
                        }
                    }
                    dst += 1;
                }
            }
        }
        su += 1;
    }
}

/// Enumerate every legal move of the state, sorted by the search heuristic.
///
/// The contract pins the result down: a move appears in the list if and only
/// if it is a candidate of [`spec_move_candidate`], and the list is sorted by
/// [`spec_move_key`] -- exposing tableau transfers first, then
/// waste-to-tableau, waste-to-foundation, foundation moves, and reversals
/// last.
pub fn generate_moves(s: &State) -> (r: Vec<Move>)
    requires
        state_wf(*s),
    ensures
        forall|j: int| 0 <= j < r@.len() ==> spec_move_candidate(*s, #[trigger] r@[j]),
        forall|m: Move| spec_move_candidate(*s, m) ==> r@.contains(m),
        forall|j1: int, j2: int|
            0 <= j1 < j2 < r@.len() ==> spec_move_key(*s, r@[j1]) <= spec_move_key(*s, r@[j2]),
{
    let mut moves: Vec<Move> = Vec::new();
    gen_t2t(s, true, &mut moves);
    let ghost g1 = moves@;
    gen_w2t(s, &mut moves);
    let ghost g2 = moves@;
    proof {
        lemma_prefix_contains(g1, g2);
    }
    gen_w2f(s, &mut moves);
    let ghost g3 = moves@;
    proof {
        lemma_prefix_contains(g2, g3);
    }
    gen_t2f(s, &mut moves);
    let ghost g4 = moves@;
    proof {
        lemma_prefix_contains(g3, g4);
    }
    gen_t2t(s, false, &mut moves);
    let ghost g5 = moves@;
    proof {
        lemma_prefix_contains(g4, g5);
    }
    gen_f2t(s, &mut moves);
    let ghost g6 = moves@;
    proof {
        lemma_prefix_contains(g5, g6);
        assert forall|m: Move| spec_move_candidate(*s, m) implies g6.contains(m) by {
            match m {
                Move::TableauToFoundation { .. } => {
                    assert(g4.contains(m));
                    assert(g5.contains(m));
                },
                Move::TableauToTableau { src, start_idx, .. } => {
                    if start_idx == s.piles@[src as int].up_from {
                        assert(is_t2t_class(*s, m, true));
                        assert(g1.contains(m));
                        assert(g2.contains(m));
                        assert(g3.contains(m));
                        assert(g4.contains(m));
                        assert(g5.contains(m));
                    } else {
                        assert(is_t2t_class(*s, m, false));
                        assert(g5.contains(m));
                    }
                },
                Move::WasteToFoundation { .. } => {
                    assert(g3.contains(m));
                    assert(g4.contains(m));
                    assert(g5.contains(m));
                },
                Move::WasteToTableau { .. } => {
                    assert(g2.contains(m));
                    assert(g3.contains(m));
                    assert(g4.contains(m));
                    assert(g5.contains(m));
                },
                Move::FoundationToTableau { .. } => {},
            }
        }
        assert forall|j: int| 0 <= j < g6.len() implies spec_move_key(*s, g6[j]) == (if j
            < g1.len() {
            0int
        } else if j < g2.len() {
            1int
        } else if j < g3.len() {
            2int
        } else if j < g5.len() {
            3int
        } else {
            4int
        }) by {
            if j < g5.len() {
                assert(g6[j] == g5[j]);
            }
            if j < g4.len() {
                assert(g5[j] == g4[j]);
            }
            if j < g3.len() {
                assert(g4[j] == g3[j]);
            }
            if j < g2.len() {
                assert(g3[j] == g2[j]);
            }
            if j < g1.len() {
                assert(g2[j] == g1[j]);
            }
        }
    }
    moves
}

/// Exactly how [`apply_move`] transforms the state, move by move.
pub open spec fn spec_apply_rel(pre: State, post: State, m: Move) -> bool {
    match m {
        Move::TableauToFoundation { src } => {
            &&& post.k == pre.k
            &&& post.piles@.len() == pre.piles@.len()
            &&& forall|j: int|
                0 <= j < pre.piles@.len() && j != src ==> post.piles@[j] == pre.piles@[j]
            &&& post.piles@[src as int].cards@ == pre.piles@[src as int].cards@.drop_last()
            &&& post.piles@[src as int].up_from == (if pre.piles@[src as int].up_from > pre.piles@[
                src as int
            ].cards@.len() - 1 {
                pre.piles@[src as int].cards@.len() - 1
            } else {
                pre.piles@[src as int].up_from as int
            })
            &&& post.fnd@ == pre.fnd@.update(
                spec_suit(pre.piles@[src as int].cards@.last()) as int,
                (pre.fnd@[spec_suit(pre.piles@[src as int].cards@.last()) as int] + 1) as i8,
            )
        },
        Move::TableauToTableau { src, start_idx, dst } => {
            &&& post.k == pre.k
            &&& post.fnd == pre.fnd
            &&& post.piles@.len() == pre.piles@.len()
            &&& forall|j: int|
                0 <= j < pre.piles@.len() && j != src && j != dst ==> post.piles@[j]
                    == pre.piles@[j]
            &&& post.piles@[src as int].cards@ == pre.piles@[src as int].cards@.take(
                start_idx as int,
            )
            &&& post.piles@[src as int].up_from == (if pre.piles@[src as int].up_from > start_idx {
                start_idx as int
            } else {
                pre.piles@[src as int].up_from as int
            })
            &&& post.piles@[dst as int].cards@ == pre.piles@[dst as int].cards@ + pre.piles@[
                src as int
            ].cards@.subrange(start_idx as int, pre.piles@[src as int].cards@.len() as int)
            &&& post.piles@[dst as int].up_from == pre.piles@[dst as int].up_from
        },
        Move::WasteToFoundation { idx_in_k } => {
            &&& post.piles == pre.piles
            &&& post.k.stock@ == pre.k.stock@.remove(idx_in_k as int)
            &&& post.k.draw == pre.k.draw
            &&& post.k.phase == (if pre.k.draw > 1 {
                ((pre.k.phase + pre.k.draw - 1) % (pre.k.draw as int)) as u8
            } else {
                pre.k.phase
            })
            &&& post.fnd@ == pre.fnd@.update(
                spec_suit(pre.k.stock@[idx_in_k as int]) as int,
                (pre.fnd@[spec_suit(pre.k.stock@[idx_in_k as int]) as int] + 1) as i8,
            )
        },
        Move::WasteToTableau { idx_in_k, dst } => {
            &&& post.fnd == pre.fnd
            &&& post.k.stock@ == pre.k.stock@.remove(idx_in_k as int)
            &&& post.k.draw == pre.k.draw
            &&& post.k.phase == (if pre.k.draw > 1 {
                ((pre.k.phase + pre.k.draw - 1) % (pre.k.draw as int)) as u8
            } else {
                pre.k.phase
            })
            &&& post.piles@.len() == pre.piles@.len()
            &&& forall|j: int|
                0 <= j < pre.piles@.len() && j != dst ==> post.piles@[j] == pre.piles@[j]
            &&& post.piles@[dst as int].cards@ == pre.piles@[dst as int].cards@.push(
                pre.k.stock@[idx_in_k as int],
            )
            &&& post.piles@[dst as int].up_from == pre.piles@[dst as int].up_from
        },
        Move::FoundationToTableau { suit, dst } => {
            &&& post.k == pre.k
            &&& post.fnd@ == pre.fnd@.update(suit as int, (pre.fnd@[suit as int] - 1) as i8)
            &&& post.piles@.len() == pre.piles@.len()
            &&& forall|j: int|
                0 <= j < pre.piles@.len() && j != dst ==> post.piles@[j] == pre.piles@[j]
            &&& post.piles@[dst as int].cards@ == pre.piles@[dst as int].cards@.push(
                fnd_top_code(pre, suit as int),
            )
            &&& post.piles@[dst as int].up_from == pre.piles@[dst as int].up_from
        },
    }
}

/// Produce the successor state for a legal move, in place.
///
/// Beside the exact transformation ([`spec_apply_rel`]), the contract
/// carries the conservation law: applying a move never adds or removes a
/// card.
pub fn apply_move(st: &mut State, mv: Move)
    requires
        state_wf(*old(st)),
        spec_move_candidate(*old(st), mv),
    ensures
        state_wf(*final(st)),
        conserves(*final(st), *old(st)),
        spec_apply_rel(*old(st), *final(st), mv),
{
    match mv {
        Move::TableauToFoundation { src } => {
            st.promote_from_tableau(src);
        },
        Move::TableauToTableau { src, start_idx, dst } => {
            let mut moving = st.piles[src].cards.split_off(start_idx);
            st.piles[dst].cards.append(&mut moving);
            let ul = st.piles[src].up_from;
            if ul > start_idx {
                st.piles[src].up_from = start_idx;
            }
            proof {
                let prepiles = old(st).piles@;
                let pre_src = prepiles[src as int];
                let pre_dst = prepiles[dst as int];
                let moved = pre_src.cards@.subrange(
                    start_idx as int,
                    pre_src.cards@.len() as int,
                );
                assert(pre_src.cards@ =~= pre_src.cards@.take(start_idx as int) + moved);
                assert(st.piles@ =~= prepiles.update(src as int, st.piles@[src as int]).update(
                    dst as int,
                    st.piles@[dst as int],
                ));
                assert forall|c: u8| state_cnt(*st, c) == state_cnt(*old(st), c) by {
                    lemma_cnt_append(pre_src.cards@.take(start_idx as int), moved, c);
                    lemma_cnt_append(pre_dst.cards@, moved, c);
                    lemma_piles_cnt_update(prepiles, src as int, st.piles@[src as int], c);
                    lemma_piles_cnt_update(
                        prepiles.update(src as int, st.piles@[src as int]),
                        dst as int,
                        st.piles@[dst as int],
                        c,
                    );
                }
            }
        },
        Move::WasteToFoundation { idx_in_k } => {
            st.promote_from_stock(idx_in_k);
        },
        Move::WasteToTableau { idx_in_k, dst } => {
            let c = st.k.take_at(idx_in_k);
            st.piles[dst].cards.push(c);
            proof {
                assert(st.piles@ =~= old(st).piles@.update(dst as int, st.piles@[dst as int]));
                assert forall|cc: u8| state_cnt(*st, cc) == state_cnt(*old(st), cc) by {
                    lemma_cnt_remove(old(st).k.stock@, idx_in_k as int, cc);
                    lemma_cnt_push(old(st).piles@[dst as int].cards@, c, cc);
                    lemma_piles_cnt_update(old(st).piles@, dst as int, st.piles@[dst as int], cc);
                }
            }
        },
        Move::FoundationToTableau { suit, dst } => {
            let f = st.fnd[suit];
            let c: u8 = (suit as u8) * 13 + (f as u8);
            st.fnd[suit] = f - 1;
            st.piles[dst].cards.push(c);
            proof {
                assert(st.piles@ =~= old(st).piles@.update(dst as int, st.piles@[dst as int]));
                vstd::arithmetic::div_mod::lemma_fundamental_div_mod(c as int, 13);
                lemma_code_decomp(suit as int, f as int);
                assert forall|cc: u8| state_cnt(*st, cc) == state_cnt(*old(st), cc) by {
                    lemma_cnt_push(old(st).piles@[dst as int].cards@, c, cc);
                    lemma_piles_cnt_update(old(st).piles@, dst as int, st.piles@[dst as int], cc);
                }
            }
        },
    }
}

} // verus!

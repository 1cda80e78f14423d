//! The solver's game state and its normalization (auto-play) pass.
//!
//! A state is seven tableau piles (each with a face-up boundary), four
//! foundation counters (`-1` = empty, `12` = King placed, suit complete), and
//! one compressed stock/waste pile. The conservation invariant -- every card
//! of the original deal present exactly once across piles, foundations, and
//! stock -- is stated with the counting functions below and is an `ensures`
//! of every state transformation.

use vstd::prelude::*;

use crate::cards::{
    foundations_wf, rank, safe_to_foundation, spec_rank, spec_safe_to_foundation, spec_suit, suit,
};
use crate::kplus::{kplus_wf, spec_playable, KPlus};

verus! {

/// A tableau pile: `cards` is bottom-to-top; cards at index `up_from` and
/// above are face up, those below are face down and inert.
pub struct Pile {
    pub cards: Vec<u8>,
    pub up_from: usize,
}

impl Pile {
    /// The top card, if any.
    pub fn top(&self) -> (r: Option<u8>)
        ensures
            r == if self.cards@.len() == 0 {
                Option::<u8>::None
            } else {
                Option::Some(self.cards@.last())
            },
    {
        if self.cards.len() == 0 {
            None
        } else {
            Some(self.cards[self.cards.len() - 1])
        }
    }

    /// Whether the pile holds no cards.
    pub fn is_empty(&self) -> (r: bool)
        ensures
            r == (self.cards@.len() == 0),
    {
        self.cards.len() == 0
    }
}

/// Well-formedness of a pile: the face-up boundary is within bounds and
/// every card is a valid card code.
pub open spec fn pile_wf(p: Pile) -> bool {
    &&& p.up_from <= p.cards@.len()
    &&& forall|i: int| 0 <= i < p.cards@.len() ==> #[trigger] p.cards@[i] < 52
}

/// The solver's full game state.
pub struct State {
    pub piles: Vec<Pile>,
    pub fnd: Vec<i8>,
    pub k: KPlus,
}

/// Well-formedness of a state: exactly seven well-formed piles, four
/// foundation counters in range, and a well-formed stock/waste pile.
pub open spec fn state_wf(s: State) -> bool {
    &&& s.piles@.len() == 7
    &&& forall|i: int| 0 <= i < 7 ==> pile_wf(#[trigger] s.piles@[i])
    &&& foundations_wf(s.fnd@)
    &&& kplus_wf(s.k)
}

/// How many times card `c` occurs in the sequence `s`.
pub open spec fn cnt(s: Seq<u8>, c: u8) -> int
    decreases s.len(),
{
    if s.len() == 0 {
        0
    } else {
        cnt(s.drop_last(), c) + if s.last() == c {
            1int
        } else {
            0int
        }
    }
}

/// How many times card `c` occurs across the cards of all piles in `ps`.
pub open spec fn piles_cnt(ps: Seq<Pile>, c: u8) -> int
    decreases ps.len(),
{
    if ps.len() == 0 {
        0
    } else {
        piles_cnt(ps.drop_last(), c) + cnt(ps.last().cards@, c)
    }
}

/// How many times card `c` sits on the foundation of suit `su` whose counter
/// is `top`: once if `c` is of that suit with rank at most `top`.
pub open spec fn fnd_cnt_one(top: i8, su: int, c: u8) -> int {
    if c / 13 == su && c % 13 <= top {
        1
    } else {
        0
    }
}

/// How many times card `c` occurs across all four foundations.
pub open spec fn fnds_cnt(f: Seq<i8>, c: u8) -> int {
    fnd_cnt_one(f[0], 0, c) + fnd_cnt_one(f[1], 1, c) + fnd_cnt_one(f[2], 2, c) + fnd_cnt_one(
        f[3],
        3,
        c,
    )
}

/// How many times card `c` occurs in the whole state.
pub open spec fn state_cnt(s: State, c: u8) -> int {
    piles_cnt(s.piles@, c) + cnt(s.k.stock@, c) + fnds_cnt(s.fnd@, c)
}

/// The two states hold exactly the same multiset of cards.
pub open spec fn conserves(a: State, b: State) -> bool {
    forall|c: u8| state_cnt(a, c) == state_cnt(b, c)
}

/// The state holds each of the 52 cards exactly once and nothing else.
pub open spec fn full_deck(s: State) -> bool {
    forall|c: u8| state_cnt(s, c) == if c < 52 {
        1int
    } else {
        0int
    }
}

/// Removing element `i` lowers the count of the removed card by one.
pub proof fn lemma_cnt_remove(s: Seq<u8>, i: int, c: u8)
    requires
        0 <= i < s.len(),
    ensures
        cnt(s.remove(i), c) == cnt(s, c) - if s[i] == c {
            1int
        } else {
            0int
        },
    decreases s.len(),
{
    if i == s.len() - 1 {
        assert(s.remove(i) =~= s.drop_last());
    } else {
        assert(s.remove(i).drop_last() =~= s.drop_last().remove(i));
        assert(s.remove(i).last() == s.last());
        lemma_cnt_remove(s.drop_last(), i, c);
    }
}

/// Appending sequences adds their counts.
pub proof fn lemma_cnt_append(a: Seq<u8>, b: Seq<u8>, c: u8)
    ensures
        cnt(a + b, c) == cnt(a, c) + cnt(b, c),
    decreases b.len(),
{
    if b.len() == 0 {
        assert(a + b =~= a);
    } else {
        assert((a + b).drop_last() =~= a + b.drop_last());
        assert((a + b).last() == b.last());
        lemma_cnt_append(a, b.drop_last(), c);
    }
}

/// Pushing a card raises its count by one.
pub proof fn lemma_cnt_push(s: Seq<u8>, x: u8, c: u8)
    ensures
        cnt(s.push(x), c) == cnt(s, c) + if x == c {
            1int
        } else {
            0int
        },
{
    assert(s.push(x).drop_last() =~= s);
    assert(s.push(x).last() == x);
}

/// Replacing pile `i` changes the total count by the difference between the
/// new and the old pile.
pub proof fn lemma_piles_cnt_update(ps: Seq<Pile>, i: int, p: Pile, c: u8)
    requires
        0 <= i < ps.len(),
    ensures
        piles_cnt(ps.update(i, p), c) == piles_cnt(ps, c) - cnt(ps[i].cards@, c) + cnt(p.cards@, c),
    decreases ps.len(),
{
    if i == ps.len() - 1 {
        assert(ps.update(i, p).drop_last() =~= ps.drop_last());
        assert(ps.update(i, p).last() == p);
    } else {
        assert(ps.update(i, p).drop_last() =~= ps.drop_last().update(i, p));
        assert(ps.update(i, p).last() == ps.last());
        lemma_piles_cnt_update(ps.drop_last(), i, p, c);
    }
}

/// A valid card code equals `suit * 13 + rank`.
pub proof fn lemma_code_decomp(su: int, r: int)
    by (nonlinear_arith)
    requires
        0 <= su < 4,
        0 <= r < 13,
    ensures
        (su * 13 + r) / 13 == su,
        (su * 13 + r) % 13 == r,
{
}

/// The piles hold the same cards in the same order, with the same face-up
/// boundaries.
pub open spec fn pile_like(a: Pile, b: Pile) -> bool {
    a.cards@ == b.cards@ && a.up_from == b.up_from
}

/// The two states agree field by field (up to container identity).
pub open spec fn state_like(a: State, b: State) -> bool {
    &&& a.piles@.len() == b.piles@.len()
    &&& forall|i: int| 0 <= i < a.piles@.len() ==> pile_like(#[trigger] a.piles@[i], b.piles@[i])
    &&& a.fnd@ == b.fnd@
    &&& a.k.stock@ == b.k.stock@
    &&& a.k.draw == b.k.draw
    &&& a.k.phase == b.k.phase
}

/// All four foundations are complete (each counter at the King).
pub open spec fn spec_won(s: State) -> bool {
    forall|i: int| 0 <= i < 4 ==> s.fnd@[i] == 12
}

/// The expose rule applies: the pile is nonempty but every card is face
/// down (its top card was just removed), so the new top must be flipped.
pub open spec fn expose_applies(p: Pile) -> bool {
    p.up_from == p.cards@.len() && p.up_from > 0
}

/// No pile of the state needs its top card flipped.
pub open spec fn no_expose(s: State) -> bool {
    forall|i: int| 0 <= i < s.piles@.len() ==> !expose_applies(#[trigger] s.piles@[i])
}

/// The top card of pile `i` is exactly one rank above its suit's foundation
/// counter (regardless of the safety heuristic).
pub open spec fn tableau_promotable(s: State, i: int) -> bool {
    &&& 0 <= i < s.piles@.len()
    &&& s.piles@[i].cards@.len() > 0
    &&& (s.fnd@[spec_suit(s.piles@[i].cards@.last()) as int] as int) + 1 == spec_rank(
        s.piles@[i].cards@.last(),
    ) as int
}

/// The playable stock card at index `i` is exactly one rank above its
/// suit's foundation counter (regardless of the safety heuristic).
pub open spec fn stock_promotable(s: State, i: usize) -> bool {
    &&& spec_playable(s.k, i)
    &&& (s.fnd@[spec_suit(s.k.stock@[i as int]) as int] as int) + 1 == spec_rank(
        s.k.stock@[i as int],
    ) as int
}

/// The top card of pile `i` is exactly one rank above its suit's foundation
/// counter and passes the safe-to-foundation test.
pub open spec fn tableau_promotion(s: State, i: int) -> bool {
    &&& tableau_promotable(s, i)
    &&& spec_safe_to_foundation(s.piles@[i].cards@.last(), s.fnd@)
}

/// The playable stock card at index `i` is exactly one rank above its
/// suit's foundation counter and passes the safe-to-foundation test.
pub open spec fn stock_promotion(s: State, i: usize) -> bool {
    &&& stock_promotable(s, i)
    &&& spec_safe_to_foundation(s.k.stock@[i as int], s.fnd@)
}

/// A normalized state: no forced, cost-free move applies -- nothing to
/// expose and nothing safely promotable from the tableaus or the stock.
pub open spec fn is_normal(s: State) -> bool {
    &&& no_expose(s)
    &&& forall|i: int| !(#[trigger] tableau_promotion(s, i))
    &&& forall|i: usize| !(#[trigger] stock_promotion(s, i))
}

/// Sum of the face-up boundaries of all piles; normalization never raises
/// it, and the expose rule strictly lowers it.
pub open spec fn up_total(ps: Seq<Pile>) -> nat
    decreases ps.len(),
{
    if ps.len() == 0 {
        0
    } else {
        (up_total(ps.drop_last()) + ps.last().up_from) as nat
    }
}

/// Sum of the four foundation counters; promotions strictly raise it, and
/// it can never exceed 48.
pub open spec fn fnd_total(f: Seq<i8>) -> int {
    f[0] + f[1] + f[2] + f[3]
}

/// Replacing pile `i` changes the boundary sum by the difference of the
/// boundaries.
pub proof fn lemma_up_total_update(ps: Seq<Pile>, i: int, p: Pile)
    requires
        0 <= i < ps.len(),
    ensures
        up_total(ps.update(i, p)) == up_total(ps) - ps[i].up_from + p.up_from,
    decreases ps.len(),
{
    if i == ps.len() - 1 {
        assert(ps.update(i, p).drop_last() =~= ps.drop_last());
        assert(ps.update(i, p).last() == p);
    } else {
        assert(ps.update(i, p).drop_last() =~= ps.drop_last().update(i, p));
        assert(ps.update(i, p).last() == ps.last());
        lemma_up_total_update(ps.drop_last(), i, p);
    }
}

/// The mathematical shape of one pile: its cards and face-up boundary.
#[verifier::ext_equal]
pub struct PileModel {
    pub cards: Seq<u8>,
    pub up: nat,
}

/// The mathematical shape of a whole state, over which normalization can be
/// written as a recursive spec function.
#[verifier::ext_equal]
pub struct StateModel {
    pub piles: Seq<PileModel>,
    pub fnd: Seq<i8>,
    pub stock: Seq<u8>,
    pub draw: u8,
    pub phase: u8,
}

/// The shape of a pile value.
pub open spec fn pile_model(p: Pile) -> PileModel {
    PileModel { cards: p.cards@, up: p.up_from as nat }
}

/// The shape of a state value.
pub open spec fn state_model(s: State) -> StateModel {
    StateModel {
        piles: Seq::new(s.piles@.len(), |i: int| pile_model(s.piles@[i])),
        fnd: s.fnd@,
        stock: s.k.stock@,
        draw: s.k.draw,
        phase: s.k.phase,
    }
}

/// Well-formedness of a pile shape.
pub open spec fn pm_wf(p: PileModel) -> bool {
    p.up <= p.cards.len() && forall|j: int| 0 <= j < p.cards.len() ==> #[trigger] p.cards[j] < 52
}

/// Well-formedness of a state shape; mirrors [`state_wf`].
pub open spec fn m_wf(m: StateModel) -> bool {
    &&& m.piles.len() == 7
    &&& forall|i: int| 0 <= i < 7 ==> pm_wf(#[trigger] m.piles[i])
    &&& foundations_wf(m.fnd)
    &&& (m.draw == 1 || m.draw == 3)
    &&& m.phase < m.draw
    &&& forall|i: int| 0 <= i < m.stock.len() ==> #[trigger] m.stock[i] < 52
}

/// A well-formed state has a well-formed shape.
pub proof fn lemma_state_model_wf(s: State)
    requires
        state_wf(s),
    ensures
        m_wf(state_model(s)),
{
    assert forall|i: int| 0 <= i < 7 implies pm_wf(#[trigger] state_model(s).piles[i]) by {
        assert(pile_wf(s.piles@[i]));
    }
}

/// The expose rule on one pile shape.
pub open spec fn m_expose_pile(p: PileModel) -> PileModel {
    if p.up == p.cards.len() && p.up > 0 {
        PileModel { cards: p.cards, up: (p.up - 1) as nat }
    } else {
        p
    }
}

/// One expose sweep over all piles.
pub open spec fn m_expose_all(m: StateModel) -> StateModel {
    StateModel { piles: Seq::new(m.piles.len(), |i: int| m_expose_pile(m.piles[i])), ..m }
}

/// The safe-promotion condition on pile `i` of a shape.
pub open spec fn m_t_promo(m: StateModel, i: int) -> bool {
    &&& 0 <= i < m.piles.len()
    &&& m.piles[i].cards.len() > 0
    &&& (m.fnd[spec_suit(m.piles[i].cards.last()) as int] as int) + 1 == spec_rank(
        m.piles[i].cards.last(),
    ) as int
    &&& spec_safe_to_foundation(m.piles[i].cards.last(), m.fnd)
}

/// The safe-promotion condition on stock index `i` of a shape.
pub open spec fn m_s_promo(m: StateModel, i: int) -> bool {
    &&& 0 <= i < m.stock.len()
    &&& i % (m.draw as int) == m.phase as int
    &&& (m.fnd[spec_suit(m.stock[i]) as int] as int) + 1 == spec_rank(m.stock[i]) as int
    &&& spec_safe_to_foundation(m.stock[i], m.fnd)
}

/// Promoting the top of pile `i` to its foundation, on shapes.
pub open spec fn m_promote_t(m: StateModel, i: int) -> StateModel {
    let top = m.piles[i].cards.last();
    let su = spec_suit(top) as int;
    let newp = PileModel {
        cards: m.piles[i].cards.drop_last(),
        up: if m.piles[i].up > m.piles[i].cards.len() - 1 {
            (m.piles[i].cards.len() - 1) as nat
        } else {
            m.piles[i].up
        },
    };
    StateModel { piles: m.piles.update(i, newp), fnd: m.fnd.update(su, (m.fnd[su] + 1) as i8), ..m }
}

/// Promoting the playable stock card at `i` to its foundation, on shapes.
pub open spec fn m_promote_s(m: StateModel, i: int) -> StateModel {
    let c = m.stock[i];
    let su = spec_suit(c) as int;
    StateModel {
        stock: m.stock.remove(i),
        fnd: m.fnd.update(su, (m.fnd[su] + 1) as i8),
        phase: if m.draw > 1 {
            ((m.phase + m.draw - 1) % (m.draw as int)) as u8
        } else {
            m.phase
        },
        ..m
    }
}

/// The first pile index at or after `i` whose top may be safely promoted.
pub open spec fn m_first_t(m: StateModel, i: int) -> Option<int>
    decreases 7 - i,
{
    if i < 0 || i >= 7 {
        Option::None
    } else if m_t_promo(m, i) {
        Option::Some(i)
    } else {
        m_first_t(m, i + 1)
    }
}

/// The first stock index at or after `i` holding a safely promotable
/// playable card.
pub open spec fn m_first_s(m: StateModel, i: int) -> Option<int>
    decreases m.stock.len() - i,
{
    if i < 0 || i >= m.stock.len() {
        Option::None
    } else if m_s_promo(m, i) {
        Option::Some(i)
    } else {
        m_first_s(m, i + 1)
    }
}

/// `m_first_t` finds exactly the first promotable pile.
pub proof fn lemma_first_t_char(m: StateModel, k: int, i: int)
    requires
        0 <= k <= i <= 7,
        forall|j: int| k <= j < i ==> !(#[trigger] m_t_promo(m, j)),
        i == 7 || m_t_promo(m, i),
    ensures
        m_first_t(m, k) == if i == 7 {
            Option::<int>::None
        } else {
            Option::Some(i)
        },
    decreases i - k,
{
    if k < i {
        lemma_first_t_char(m, k + 1, i);
    }
}

/// `m_first_s` finds exactly the first promotable stock index.
pub proof fn lemma_first_s_char(m: StateModel, k: int, i: int)
    requires
        0 <= k <= i <= m.stock.len(),
        forall|j: int| k <= j < i ==> !(#[trigger] m_s_promo(m, j)),
        i == m.stock.len() || m_s_promo(m, i),
    ensures
        m_first_s(m, k) == if i == m.stock.len() {
            Option::<int>::None
        } else {
            Option::Some(i)
        },
    decreases i - k,
{
    if k < i {
        lemma_first_s_char(m, k + 1, i);
    }
}

/// A found pile promotion really is one.
pub proof fn lemma_first_t_sound(m: StateModel, k: int, i: int)
    requires
        0 <= k,
        m_first_t(m, k) == Option::Some(i),
    ensures
        k <= i < 7,
        m_t_promo(m, i),
    decreases 7 - k,
{
    if k < 7 && !m_t_promo(m, k) {
        lemma_first_t_sound(m, k + 1, i);
    }
}

/// A found stock promotion really is one.
pub proof fn lemma_first_s_sound(m: StateModel, k: int, i: int)
    requires
        0 <= k,
        m_first_s(m, k) == Option::Some(i),
    ensures
        k <= i < m.stock.len(),
        m_s_promo(m, i),
    decreases m.stock.len() - k,
{
    if k < m.stock.len() && !m_s_promo(m, k) {
        lemma_first_s_sound(m, k + 1, i);
    }
}

/// Sum of the face-up boundaries of a pile-shape sequence.
pub open spec fn up_total_m(ps: Seq<PileModel>) -> nat
    decreases ps.len(),
{
    if ps.len() == 0 {
        0
    } else {
        (up_total_m(ps.drop_last()) + ps.last().up) as nat
    }
}

/// Replacing one pile shape changes the boundary sum by the difference.
pub proof fn lemma_up_total_m_update(ps: Seq<PileModel>, i: int, p: PileModel)
    requires
        0 <= i < ps.len(),
    ensures
        up_total_m(ps.update(i, p)) == up_total_m(ps) - ps[i].up + p.up,
    decreases ps.len(),
{
    if i == ps.len() - 1 {
        assert(ps.update(i, p).drop_last() =~= ps.drop_last());
        assert(ps.update(i, p).last() == p);
    } else {
        assert(ps.update(i, p).drop_last() =~= ps.drop_last().update(i, p));
        assert(ps.update(i, p).last() == ps.last());
        lemma_up_total_m_update(ps.drop_last(), i, p);
    }
}

/// Pointwise bounds on boundaries bound the sum, strictly if some boundary
/// strictly drops.
pub proof fn lemma_up_total_m_pointwise(a: Seq<PileModel>, b: Seq<PileModel>)
    requires
        a.len() == b.len(),
        forall|i: int| 0 <= i < a.len() ==> (#[trigger] b[i]).up <= a[i].up,
    ensures
        up_total_m(b) <= up_total_m(a),
        (exists|i: int| 0 <= i < a.len() && (#[trigger] b[i]).up < a[i].up) ==> up_total_m(b)
            < up_total_m(a),
    decreases a.len(),
{
    if a.len() > 0 {
        lemma_up_total_m_pointwise(a.drop_last(), b.drop_last());
        if exists|i: int| 0 <= i < a.len() && (#[trigger] b[i]).up < a[i].up {
            let i = choose|i: int| 0 <= i < a.len() && (#[trigger] b[i]).up < a[i].up;
            if i < a.len() - 1 {
                assert(b.drop_last()[i].up < a.drop_last()[i].up);
            }
        }
    }
}

/// Promoting from a pile keeps the shape well formed, raises the foundation
/// sum by one, and never raises the boundary sum.
pub proof fn lemma_m_promote_t_props(m: StateModel, i: int)
    requires
        m_wf(m),
        m_t_promo(m, i),
    ensures
        m_wf(m_promote_t(m, i)),
        fnd_total(m_promote_t(m, i).fnd) == fnd_total(m.fnd) + 1,
        up_total_m(m_promote_t(m, i).piles) <= up_total_m(m.piles),
{
    let m2 = m_promote_t(m, i);
    assert(pm_wf(m.piles[i]));
    assert forall|j: int| 0 <= j < 7 implies pm_wf(#[trigger] m2.piles[j]) by {
        assert(pm_wf(m.piles[j]));
    }
    lemma_up_total_m_update(m.piles, i, m2.piles[i]);
}

/// Promoting from the stock keeps the shape well formed and raises the
/// foundation sum by one, leaving the piles alone.
pub proof fn lemma_m_promote_s_props(m: StateModel, i: int)
    requires
        m_wf(m),
        m_s_promo(m, i),
    ensures
        m_wf(m_promote_s(m, i)),
        fnd_total(m_promote_s(m, i).fnd) == fnd_total(m.fnd) + 1,
        m_promote_s(m, i).piles == m.piles,
{
    let m2 = m_promote_s(m, i);
    assert forall|j: int| 0 <= j < m2.stock.len() implies #[trigger] m2.stock[j] < 52 by {
        assert(m2.stock[j] == m.stock.remove(i)[j]);
    }
}

/// The promotion pass: repeatedly promote the first safely promotable card,
/// piles before stock, until none is left.
pub open spec fn m_promo_fix(m: StateModel) -> StateModel
    decreases 48 - fnd_total(m.fnd)
        when m_wf(m)
        via m_promo_fix_decreases
{
    match m_first_t(m, 0) {
        Option::Some(i) => m_promo_fix(m_promote_t(m, i)),
        Option::None => match m_first_s(m, 0) {
            Option::Some(i) => m_promo_fix(m_promote_s(m, i)),
            Option::None => m,
        },
    }
}

#[via_fn]
proof fn m_promo_fix_decreases(m: StateModel) {
    match m_first_t(m, 0) {
        Option::Some(i) => {
            lemma_first_t_sound(m, 0, i);
            lemma_m_promote_t_props(m, i);
        },
        Option::None => {
            match m_first_s(m, 0) {
                Option::Some(i) => {
                    lemma_first_s_sound(m, 0, i);
                    lemma_m_promote_s_props(m, i);
                },
                Option::None => {},
            }
        },
    }
}

/// The promotion pass preserves well-formedness, never raises the boundary
/// sum, never lowers the foundation sum, and changes the shape exactly when
/// it raises the foundation sum.
pub proof fn lemma_m_promo_fix_props(m: StateModel)
    requires
        m_wf(m),
    ensures
        m_wf(m_promo_fix(m)),
        up_total_m(m_promo_fix(m).piles) <= up_total_m(m.piles),
        fnd_total(m_promo_fix(m).fnd) >= fnd_total(m.fnd),
        m_promo_fix(m) == m || fnd_total(m_promo_fix(m).fnd) > fnd_total(m.fnd),
    decreases 48 - fnd_total(m.fnd),
{
    match m_first_t(m, 0) {
        Option::Some(i) => {
            lemma_first_t_sound(m, 0, i);
            lemma_m_promote_t_props(m, i);
            lemma_m_promo_fix_props(m_promote_t(m, i));
        },
        Option::None => {
            match m_first_s(m, 0) {
                Option::Some(i) => {
                    lemma_first_s_sound(m, 0, i);
                    lemma_m_promote_s_props(m, i);
                    lemma_m_promo_fix_props(m_promote_s(m, i));
                },
                Option::None => {},
            }
        },
    }
}

/// One full normalization pass: expose everything due, promote to a fixed
/// point.
pub open spec fn m_pass(m: StateModel) -> StateModel {
    m_promo_fix(m_expose_all(m))
}

/// The expose sweep preserves well-formedness and never raises the boundary
/// sum, strictly lowering it when it changes anything.
pub proof fn lemma_m_expose_all_props(m: StateModel)
    requires
        m_wf(m),
    ensures
        m_wf(m_expose_all(m)),
        m_expose_all(m).fnd == m.fnd,
        up_total_m(m_expose_all(m).piles) <= up_total_m(m.piles),
        m_expose_all(m) != m ==> up_total_m(m_expose_all(m).piles) < up_total_m(m.piles),
{
    let m2 = m_expose_all(m);
    assert forall|i: int| 0 <= i < 7 implies pm_wf(#[trigger] m2.piles[i]) by {
        assert(pm_wf(m.piles[i]));
    }
    lemma_up_total_m_pointwise(m.piles, m2.piles);
    if m2 != m {
        assert(!(m2.piles =~= m.piles));
        let i = choose|i: int| 0 <= i < 7 && m2.piles[i] != m.piles[i];
        assert(m2.piles[i].up < m.piles[i].up);
    }
}

/// Normalization as a spec-level fixed point: repeat passes until one
/// changes nothing.
pub open spec fn spec_normalize(m: StateModel) -> StateModel
    decreases up_total_m(m.piles) + 48 - fnd_total(m.fnd)
        when m_wf(m)
        via spec_normalize_decreases
{
    if m_pass(m) == m {
        m
    } else {
        spec_normalize(m_pass(m))
    }
}

#[via_fn]
proof fn spec_normalize_decreases(m: StateModel) {
    if m_pass(m) != m {
        lemma_m_expose_all_props(m);
        lemma_m_promo_fix_props(m_expose_all(m));
    }
}

/// All four foundations of a shape are complete.
pub open spec fn m_won(m: StateModel) -> bool {
    forall|i: int| 0 <= i < 4 ==> m.fnd[i] == 12
}

/// Element-by-element copy of a card sequence.
pub fn clone_cards(v: &Vec<u8>) -> (r: Vec<u8>)
    ensures
        r@ == v@,
{
    let mut r: Vec<u8> = Vec::new();
    let mut i: usize = 0;
    while i < v.len()
        invariant
            i <= v.len(),
            r@ == v@.take(i as int),
        decreases v.len() - i,
    {
        r.push(v[i]);
        proof {
            assert(v@.take(i + 1 as int).drop_last() =~= v@.take(i as int));
            assert(r@ =~= v@.take(i + 1 as int));
        }
        i += 1;
    }
    proof {
        assert(v@.take(v@.len() as int) =~= v@);
    }
    r
}

impl State {
    /// A deep, fully independent copy of the state.
    pub fn duplicate(&self) -> (r: State)
        ensures
            state_like(r, *self),
    {
        let mut piles: Vec<Pile> = Vec::new();
        let mut i: usize = 0;
        while i < self.piles.len()
            invariant
                i <= self.piles@.len(),
                piles@.len() == i as int,
                forall|j: int| 0 <= j < i ==> pile_like(#[trigger] piles@[j], self.piles@[j]),
            decreases self.piles@.len() - i,
        {
            let p = Pile { cards: clone_cards(&self.piles[i].cards), up_from: self.piles[i].up_from };
            piles.push(p);
            i += 1;
        }
        let mut fnd: Vec<i8> = Vec::new();
        let mut j: usize = 0;
        while j < self.fnd.len()
            invariant
                j <= self.fnd@.len(),
                fnd@ == self.fnd@.take(j as int),
            decreases self.fnd@.len() - j,
        {
            fnd.push(self.fnd[j]);
            proof {
                assert(fnd@ =~= self.fnd@.take(j + 1 as int));
            }
            j += 1;
        }
        proof {
            assert(self.fnd@.take(self.fnd@.len() as int) =~= self.fnd@);
        }
        State {
            piles,
            fnd,
            k: KPlus { stock: clone_cards(&self.k.stock), draw: self.k.draw, phase: self.k.phase },
        }
    }

    /// First pile, in pile order, whose top card may be safely promoted.
    fn find_tableau_promotion(&self) -> (r: Option<usize>)
        requires
            state_wf(*self),
        ensures
            match r {
                Option::Some(i) => i < 7 && tableau_promotion(*self, i as int) && forall|j: int|
                    0 <= j < i ==> !(#[trigger] tableau_promotion(*self, j)),
                Option::None => forall|i: int| !(#[trigger] tableau_promotion(*self, i)),
            },
    {
        let mut i: usize = 0;
        while i < 7
            invariant
                state_wf(*self),
                i <= 7,
                forall|j: int| 0 <= j < i ==> !(#[trigger] tableau_promotion(*self, j)),
            decreases 7 - i,
        {
            let n = self.piles[i].cards.len();
            if n > 0 {
                let top = self.piles[i].cards[n - 1];
                let su = suit(top) as usize;
                let f = self.fnd[su];
                if f + 1 == rank(top) as i8 && safe_to_foundation(top, &self.fnd) {
                    return Some(i);
                }
            }
            i += 1;
        }
        None
    }

    /// First playable stock index, in ascending order, whose card may be
    /// safely promoted.
    fn find_stock_promotion(&self) -> (r: Option<usize>)
        requires
            state_wf(*self),
        ensures
            match r {
                Option::Some(i) => i < self.k.stock@.len() && stock_promotion(*self, i)
                    && forall|j: usize| j < i ==> !(#[trigger] stock_promotion(*self, j)),
                Option::None => forall|i: usize| !(#[trigger] stock_promotion(*self, i)),
            },
    {
        let d = self.k.draw as usize;
        let p = self.k.phase as usize;
        let mut i: usize = 0;
        while i < self.k.stock.len()
            invariant
                state_wf(*self),
                d == self.k.draw as int,
                p == self.k.phase as int,
                i <= self.k.stock@.len(),
                forall|j: usize| j < i ==> !(#[trigger] stock_promotion(*self, j)),
            decreases self.k.stock@.len() - i,
        {
            if i % d == p {
                let c = self.k.stock[i];
                let su = suit(c) as usize;
                let f = self.fnd[su];
                if f + 1 == rank(c) as i8 && safe_to_foundation(c, &self.fnd) {
                    return Some(i);
                }
            }
            i += 1;
        }
        None
    }

    /// Promote the top card of pile `i` to its foundation, re-clamping the
    /// face-up boundary.
    pub(crate) fn promote_from_tableau(&mut self, i: usize)
        requires
            state_wf(*old(self)),
            tableau_promotable(*old(self), i as int),
        ensures
            state_wf(*final(self)),
            conserves(*final(self), *old(self)),
            final(self).k == old(self).k,
            final(self).piles@.len() == old(self).piles@.len(),
            forall|j: int|
                0 <= j < old(self).piles@.len() && j != i ==> final(self).piles@[j] == old(
                    self,
                ).piles@[j],
            final(self).piles@[i as int].cards@ == old(self).piles@[i as int].cards@.drop_last(),
            final(self).piles@[i as int].up_from == if old(self).piles@[i as int].up_from > old(
                self,
            ).piles@[i as int].cards@.len() - 1 {
                old(self).piles@[i as int].cards@.len() - 1
            } else {
                old(self).piles@[i as int].up_from as int
            },
            final(self).fnd@ == old(self).fnd@.update(
                spec_suit(old(self).piles@[i as int].cards@.last()) as int,
                (old(self).fnd@[spec_suit(old(self).piles@[i as int].cards@.last()) as int]
                    + 1) as i8,
            ),
    {
        let n = self.piles[i].cards.len();
        let top = self.piles[i].cards[n - 1];
        let su = suit(top) as usize;
        self.piles[i].cards.pop();
        if self.piles[i].up_from > n - 1 {
            self.piles[i].up_from = n - 1;
        }
        let f = self.fnd[su];
        self.fnd[su] = f + 1;
        proof {
            let t = old(self).fnd@[su as int] as int;
            let oldp = old(self).piles@;
            assert(self.piles@ =~= oldp.update(i as int, self.piles@[i as int]));
            vstd::arithmetic::div_mod::lemma_fundamental_div_mod(top as int, 13);
            lemma_code_decomp(su as int, t + 1);
            assert forall|c: u8| state_cnt(*self, c) == state_cnt(*old(self), c) by {
                lemma_piles_cnt_update(oldp, i as int, self.piles@[i as int], c);
                if c == top {
                    assert(fnds_cnt(self.fnd@, c) == fnds_cnt(old(self).fnd@, c) + 1);
                } else {
                    assert(fnds_cnt(self.fnd@, c) == fnds_cnt(old(self).fnd@, c));
                }
            }
        }
    }

    /// Promote the playable stock card at `idx` to its foundation.
    pub(crate) fn promote_from_stock(&mut self, idx: usize)
        requires
            state_wf(*old(self)),
            stock_promotable(*old(self), idx),
        ensures
            state_wf(*final(self)),
            conserves(*final(self), *old(self)),
            final(self).piles == old(self).piles,
            final(self).k.stock@ == old(self).k.stock@.remove(idx as int),
            final(self).k.draw == old(self).k.draw,
            final(self).k.phase == if old(self).k.draw > 1 {
                ((old(self).k.phase + old(self).k.draw - 1) % (old(self).k.draw as int)) as u8
            } else {
                old(self).k.phase
            },
            final(self).fnd@ == old(self).fnd@.update(
                spec_suit(old(self).k.stock@[idx as int]) as int,
                (old(self).fnd@[spec_suit(old(self).k.stock@[idx as int]) as int] + 1) as i8,
            ),
    {
        let c = self.k.take_at(idx);
        let su = suit(c) as usize;
        let f = self.fnd[su];
        self.fnd[su] = f + 1;
        proof {
            let t = old(self).fnd@[su as int] as int;
            lemma_cnt_remove(old(self).k.stock@, idx as int, c);
            vstd::arithmetic::div_mod::lemma_fundamental_div_mod(c as int, 13);
            lemma_code_decomp(su as int, t + 1);
            assert forall|cc: u8| state_cnt(*self, cc) == state_cnt(*old(self), cc) by {
                lemma_cnt_remove(old(self).k.stock@, idx as int, cc);
                if cc == c {
                    assert(fnds_cnt(self.fnd@, cc) == fnds_cnt(old(self).fnd@, cc) + 1);
                } else {
                    assert(fnds_cnt(self.fnd@, cc) == fnds_cnt(old(self).fnd@, cc));
                }
            }
        }
    }

    /// The normalization (auto-play) pass: run the expose rule and the
    /// safe-promotion rule to a fixed point.
    ///
    /// The contract pins the result down as the mathematical fixed point
    /// [`spec_normalize`] of the state's shape, and gives the two halves of
    /// idempotence: the result is always normalized, and a state that is
    /// already normalized comes back unchanged -- so a second pass is the
    /// identity. It also states the conservation law: normalization never
    /// adds or removes a card.
    pub fn normalize(&mut self)
        requires
            state_wf(*old(self)),
        ensures
            state_wf(*final(self)),
            conserves(*final(self), *old(self)),
            is_normal(*final(self)),
            is_normal(*old(self)) ==> *final(self) == *old(self),
            final(self).k.draw == old(self).k.draw,
            final(self).piles@.len() == old(self).piles@.len(),
            forall|j: int| 0 <= j < 4 ==> final(self).fnd@[j] >= old(self).fnd@[j],
            state_model(*final(self)) == spec_normalize(state_model(*old(self))),
    {
        loop
            invariant
                state_wf(*self),
                conserves(*self, *old(self)),
                self.k.draw == old(self).k.draw,
                self.piles@.len() == old(self).piles@.len(),
                forall|j: int| 0 <= j < 4 ==> self.fnd@[j] >= old(self).fnd@[j],
                is_normal(*old(self)) ==> *self == *old(self),
                spec_normalize(state_model(*self)) == spec_normalize(state_model(*old(self))),
            ensures
                state_wf(*self),
                conserves(*self, *old(self)),
                self.k.draw == old(self).k.draw,
                self.piles@.len() == old(self).piles@.len(),
                forall|j: int| 0 <= j < 4 ==> self.fnd@[j] >= old(self).fnd@[j],
                is_normal(*old(self)) ==> *self == *old(self),
                is_normal(*self),
                state_model(*self) == spec_normalize(state_model(*old(self))),
            decreases up_total(self.piles@) + 48 - fnd_total(self.fnd@),
        {
            let ghost pass0 = *self;
            let mut progressed = false;

            let mut i: usize = 0;
            while i < 7
                invariant
                    i <= 7,
                    state_wf(*self),
                    conserves(*self, *old(self)),
                    self.k.draw == old(self).k.draw,
                    self.piles@.len() == old(self).piles@.len(),
                    forall|j: int| 0 <= j < 4 ==> self.fnd@[j] >= old(self).fnd@[j],
                    is_normal(*old(self)) ==> *self == *old(self),
                    forall|j: int| 0 <= j < i ==> !expose_applies(#[trigger] self.piles@[j]),
                    self.fnd == pass0.fnd,
                    self.k == pass0.k,
                    up_total(self.piles@) <= up_total(pass0.piles@),
                    progressed ==> up_total(self.piles@) < up_total(pass0.piles@),
                    !progressed ==> *self == pass0,
                    forall|j: int|
                        0 <= j < i ==> pile_model(#[trigger] self.piles@[j]) == m_expose_pile(
                            pile_model(pass0.piles@[j]),
                        ),
                    forall|j: int| i <= j < 7 ==> #[trigger] self.piles@[j] == pass0.piles@[j],
                decreases 7 - i,
            {
                let len = self.piles[i].cards.len();
                let uf = self.piles[i].up_from;
                if uf == len && uf > 0 {
                    let ghost pre = *self;
                    self.piles[i].up_from = uf - 1;
                    progressed = true;
                    proof {
                        assert(self.piles@ =~= pre.piles@.update(i as int, self.piles@[i as int]));
                        lemma_up_total_update(pre.piles@, i as int, self.piles@[i as int]);
                        assert forall|c: u8| state_cnt(*self, c) == state_cnt(pre, c) by {
                            lemma_piles_cnt_update(pre.piles@, i as int, self.piles@[i as int], c);
                        }
                    }
                }
                i += 1;
            }

            let ghost mid = *self;
            let ghost sweep_progressed = progressed;
            proof {
                assert(state_model(mid) =~~= m_expose_all(state_model(pass0)));
            }
            let mut promoted = false;
            loop
                invariant
                    state_wf(*self),
                    conserves(*self, *old(self)),
                    self.k.draw == old(self).k.draw,
                    self.piles@.len() == old(self).piles@.len(),
                    forall|j: int| 0 <= j < 4 ==> self.fnd@[j] >= old(self).fnd@[j],
                    is_normal(*old(self)) ==> *self == *old(self),
                    !promoted ==> *self == mid,
                    progressed == (sweep_progressed || promoted),
                    no_expose(mid),
                    mid.fnd == pass0.fnd,
                    up_total(mid.piles@) <= up_total(pass0.piles@),
                    sweep_progressed ==> up_total(mid.piles@) < up_total(pass0.piles@),
                    up_total(self.piles@) <= up_total(mid.piles@),
                    fnd_total(self.fnd@) - fnd_total(mid.fnd@) >= if promoted {
                        1int
                    } else {
                        0int
                    },
                    state_model(mid) == m_expose_all(state_model(pass0)),
                    m_promo_fix(state_model(*self)) == m_promo_fix(state_model(mid)),
                ensures
                    state_wf(*self),
                    conserves(*self, *old(self)),
                    self.k.draw == old(self).k.draw,
                    self.piles@.len() == old(self).piles@.len(),
                    forall|j: int| 0 <= j < 4 ==> self.fnd@[j] >= old(self).fnd@[j],
                    is_normal(*old(self)) ==> *self == *old(self),
                    !promoted ==> *self == mid,
                    progressed == (sweep_progressed || promoted),
                    up_total(self.piles@) <= up_total(pass0.piles@),
                    sweep_progressed ==> up_total(mid.piles@) < up_total(pass0.piles@),
                    up_total(self.piles@) <= up_total(mid.piles@),
                    mid.fnd == pass0.fnd,
                    fnd_total(self.fnd@) - fnd_total(mid.fnd@) >= if promoted {
                        1int
                    } else {
                        0int
                    },
                    no_expose(mid),
                    forall|i: int| !(#[trigger] tableau_promotion(*self, i)),
                    forall|i: usize| !(#[trigger] stock_promotion(*self, i)),
                    state_model(mid) == m_expose_all(state_model(pass0)),
                    m_promo_fix(state_model(*self)) == m_promo_fix(state_model(mid)),
                    m_promo_fix(state_model(*self)) == state_model(*self),
                decreases 48 - fnd_total(self.fnd@),
        {
                match self.find_tableau_promotion() {
                    Some(pi) => {
                        let ghost pre = *self;
                        proof {
                            lemma_state_model_wf(pre);
                            let m = state_model(pre);
                            assert forall|j: int| 0 <= j < pi implies !(#[trigger] m_t_promo(
                                m,
                                j,
                            )) by {
                                assert(m.piles[j] == pile_model(pre.piles@[j]));
                                assert(!tableau_promotion(pre, j));
                            }
                            assert(m.piles[pi as int] == pile_model(pre.piles@[pi as int]));
                            assert(m_t_promo(m, pi as int));
                            lemma_first_t_char(m, 0, pi as int);
                        }
                        self.promote_from_tableau(pi);
                        promoted = true;
                        progressed = true;
                        proof {
                            assert(self.piles@ =~= pre.piles@.update(
                                pi as int,
                                self.piles@[pi as int],
                            ));
                            lemma_up_total_update(pre.piles@, pi as int, self.piles@[pi as int]);
                            let m = state_model(pre);
                            assert(state_model(*self) =~~= m_promote_t(m, pi as int));
                            assert(m_promo_fix(m) == m_promo_fix(state_model(*self)));
                        }
                    },
                    None => {
                        match self.find_stock_promotion() {
                            Some(idx) => {
                                let ghost pre = *self;
                                proof {
                                    lemma_state_model_wf(pre);
                                    let m = state_model(pre);
                                    assert forall|j: int| 0 <= j < 7 implies !(
                                    #[trigger] m_t_promo(m, j)) by {
                                        assert(m.piles[j] == pile_model(pre.piles@[j]));
                                        assert(!tableau_promotion(pre, j));
                                    }
                                    lemma_first_t_char(m, 0, 7);
                                    assert forall|j: int| 0 <= j < idx implies !(
                                    #[trigger] m_s_promo(m, j)) by {
                                        assert(!stock_promotion(pre, j as usize));
                                    }
                                    assert(m_s_promo(m, idx as int));
                                    lemma_first_s_char(m, 0, idx as int);
                                }
                                self.promote_from_stock(idx);
                                promoted = true;
                                progressed = true;
                                proof {
                                    let m = state_model(pre);
                                    assert(state_model(*self) =~~= m_promote_s(m, idx as int));
                                    assert(m_promo_fix(m) == m_promo_fix(state_model(*self)));
                                }
                            },
                            None => {
                                proof {
                                    lemma_state_model_wf(*self);
                                    let m = state_model(*self);
                                    assert forall|j: int| 0 <= j < 7 implies !(
                                    #[trigger] m_t_promo(m, j)) by {
                                        assert(m.piles[j] == pile_model(self.piles@[j]));
                                        assert(!tableau_promotion(*self, j));
                                    }
                                    lemma_first_t_char(m, 0, 7);
                                    assert(vstd::std_specs::vec::spec_vec_len(&self.k.stock)
                                        == self.k.stock@.len());
                                    assert forall|j: int| 0 <= j < m.stock.len() implies !(
                                    #[trigger] m_s_promo(m, j)) by {
                                        assert(!stock_promotion(*self, j as usize));
                                    }
                                    lemma_first_s_char(m, 0, m.stock.len() as int);
                                    assert(m_promo_fix(m) == m);
                                }
                                break ;
                            },
                        }
                    },
                }
            }

            proof {
                lemma_state_model_wf(pass0);
                let m0 = state_model(pass0);
                assert(state_model(*self) == m_pass(m0));
                if m_pass(m0) == m0 {
                    assert(spec_normalize(m0) == m0);
                } else {
                    assert(spec_normalize(m0) == spec_normalize(m_pass(m0)));
                }
            }
            if !progressed {
                proof {
                    lemma_state_model_wf(*self);
                    assert(spec_normalize(state_model(*self)) == state_model(*self));
                }
                break ;
            }
        }
    }
}

} // verus!

//! The unique-forced-win search: scored move ordering, the fail-soft
//! bounded alpha-beta search, detection of a unique winning move at a
//! fixed depth, iterative deepening over odd depths, and principal
//! variation reconstruction.

use vstd::prelude::*;

use crate::alpha_beta::{
    cutoff_scan, lemma_value_order, lemma_value_order_trans, running_alpha, spec_eval_horizon,
    spec_max_fold, spec_max_val, value_le, vply, SearchTrace,
};
use crate::position::GamePosition;

pub use crate::alpha_beta::NodeValue;

verus! {

/// The scores of a scored move list, in descending order: best first.
pub open spec fn scores_sorted_desc<M>(s: Seq<(M, u64)>) -> bool {
    forall|p: int, q: int| 0 <= p <= q < s.len() ==> s[p].1 >= s[q].1
}

/// Reorders a scored move list into descending score order. The result
/// holds exactly the items of the input, best first.
pub fn sort_moves_by_score<M>(moves: Vec<(M, u64)>) -> (r: Vec<(M, u64)>)
    ensures
        scores_sorted_desc(r@),
        r@.to_multiset() == moves@.to_multiset(),
        r@.len() == moves@.len(),
{
    // a generator that already orders best-first costs only one scan
    let mut sorted_so_far = true;
    let mut c: usize = 1;
    while c < moves.len()
        invariant
            1 <= c <= moves@.len() || moves@.len() == 0,
            sorted_so_far ==> forall|p: int, q: int|
                0 <= p <= q < c ==> moves@[p].1 >= moves@[q].1,
        decreases moves@.len() - c,
    {
        if moves[c - 1].1 < moves[c].1 {
            sorted_so_far = false;
        }
        c = c + 1;
    }
    if sorted_so_far {
        return moves;
    }
    let ghost orig = moves@;
    let mut rest = moves;
    let mut out: Vec<(M, u64)> = Vec::new();
    proof {
        broadcast use vstd::seq_lib::group_to_multiset_ensures;

        assert(out@.to_multiset().add(rest@.to_multiset()) =~= orig.to_multiset());
    }
    while rest.len() > 0
        invariant
            scores_sorted_desc(out@),
            forall|p: int, q: int|
                0 <= p < out@.len() && 0 <= q < rest@.len() ==> out@[p].1 >= rest@[q].1,
            out@.to_multiset().add(rest@.to_multiset()) == orig.to_multiset(),
            out@.len() + rest@.len() == orig.len(),
        decreases rest@.len(),
    {
        let mut m: usize = 0;
        let mut j: usize = 1;
        while j < rest.len()
            invariant
                m < j,
                1 <= j <= rest@.len(),
                rest@.len() > 0,
                forall|q: int| 0 <= q < j ==> rest@[q].1 <= rest@[m as int].1,
            decreases rest@.len() - j,
        {
            if rest[j].1 > rest[m].1 {
                m = j;
            }
            j = j + 1;
        }
        let ghost rest_before = rest@;
        let item = rest.remove(m);
        proof {
            broadcast use vstd::seq_lib::group_to_multiset_ensures;

            assert(rest_before.to_multiset().count(item) >= 1) by {
                assert(rest_before.contains(item));
            }
            assert(out@.push(item).to_multiset().add(rest@.to_multiset()) =~= orig.to_multiset());
        }
        out.push(item);
    }
    proof {
        assert(out@.to_multiset() =~= orig.to_multiset());
    }
    out
}

/// Generates the legal moves with their heuristic scores and reorders
/// them best first: the result holds exactly the items the board's
/// generator handed back — returned alongside as a ghost witness —
/// in descending score order. Checking the best moves first speeds up
/// pruning considerably; it has no effect on what the searches certify.
pub fn generate_sorted_moves<P: GamePosition>(position: &P) -> (r: (
    Vec<(P::Move, u64)>,
    Ghost<Seq<(P::Move, u64)>>,
))
    ensures
        scores_sorted_desc(r.0@),
        r.0@.to_multiset() == r.1@.to_multiset(),
        r.0@.len() == r.1@.len(),
{
    let generated = position.generate_scored_moves();
    let ghost unsorted = generated@;
    (sort_moves_by_score(generated), Ghost(unsorted))
}

/// The core bounded alpha-beta search over score-ordered moves: searches
/// for a forced result within `depth` plies inside the window
/// `[alpha, beta]`. `alpha` is a lower bound on the result (a score known
/// to be achievable), `beta` an upper bound (a score known to be out of
/// reach); per standard alpha-beta semantics the returned value is exact
/// only within the window, and only a bound outside it. The position is
/// mutated transiently: every move applied is undone before return.
///
/// What the board answers rests with the board; how the answers decide
/// the result is returned as a [`SearchTrace`] witness: at the horizon
/// the result is exactly the horizon evaluation of what was seen, and
/// otherwise it is the maximum of the recorded child answers, which
/// form a faithful cutoff scan of the legal moves. This fail-soft
/// variant reports the best value found, not the window bound, so the
/// returned value never carries more plies than the searched horizon:
/// each recursion level adds exactly one ply above a horizon evaluation
/// of ply zero, and iterated propagation cannot overflow.
pub fn alpha_beta<P: GamePosition>(
    position: &mut P,
    depth: u32,
    alpha: NodeValue,
    beta: NodeValue,
) -> (r: (NodeValue, Ghost<SearchTrace>))
    ensures
        vply(r.0) <= depth as int,
        ({
            let t = r.1@;
            match t.horizon {
                Option::Some(h) => {
                    &&& t.children.len() == 0
                    &&& r.0 == spec_eval_horizon(h.0, h.1)
                    &&& (depth == 0 || h.1 is Some)
                },
                Option::None => {
                    &&& depth >= 1
                    &&& cutoff_scan(alpha, beta, t)
                    &&& r.0 == spec_max_fold(t.children)
                },
            }
        }),
    decreases depth,
{
    let game_result = position.game_result();
    if depth == 0 || game_result.is_some() {
        let side = position.side_to_move();
        let r = crate::alpha_beta::eval_horizon(side, game_result);
        (
            r,
            Ghost(
                SearchTrace {
                    horizon: Option::Some((side, game_result)),
                    children: Seq::empty(),
                    total: 0,
                },
            ),
        )
    } else {
        let (moves, _) = generate_sorted_moves(position);
        let ghost total = moves@.len() as int;
        let ghost mut children: Seq<NodeValue> = Seq::empty();
        let mut value = NodeValue::LossInPly(0);
        let mut a = alpha;
        let mut i: usize = 0;
        proof {
            lemma_value_order(alpha, value);
            assert(children.take(0) =~= children);
        }
        while i < moves.len()
            invariant_except_break
                children.len() == i as int,
                forall|p: int|
                    1 <= p <= children.len() ==> !value_le(
                        beta,
                        #[trigger] running_alpha(alpha, children, p),
                    ),
            invariant
                depth >= 1,
                total == moves@.len(),
                children.len() <= total,
                value == spec_max_fold(children),
                a == spec_max_val(alpha, value),
                vply(value) <= depth as int,
            ensures
                forall|p: int|
                    1 <= p < children.len() ==> !value_le(
                        beta,
                        #[trigger] running_alpha(alpha, children, p),
                    ),
                children.len() < total ==> value_le(
                    beta,
                    running_alpha(alpha, children, children.len() as int),
                ),
            decreases moves@.len() - i,
        {
            let undo = position.do_move(&moves[i].0);
            let (child, _) = alpha_beta(
                position,
                depth - 1,
                beta.propagate_down(),
                a.propagate_down(),
            );
            position.undo_move(undo);
            proof {
                lemma_value_order(value, child.spec_propagate_up());
            }
            let ghost children_before = children;
            let ghost value_before = value;
            value = value.max_val(child.propagate_up());
            proof {
                children = children.push(child);
                assert(children.drop_last() =~= children_before);
                assert(children.last() == child);
                crate::alpha_beta::lemma_max_val_absorb(alpha, value_before, value);
            }
            a = a.max_val(value);
            proof {
                assert(children.take(children.len() as int) =~= children);
                assert(running_alpha(alpha, children, children.len() as int) == a);
                assert forall|p: int| 1 <= p < children.len() implies !value_le(
                    beta,
                    #[trigger] running_alpha(alpha, children, p),
                ) by {
                    assert(children.take(p) =~= children_before.take(p));
                    assert(running_alpha(alpha, children, p) == running_alpha(
                        alpha,
                        children_before,
                        p,
                    ));
                }
                lemma_value_order(a, beta);
            }
            if a.ge(&beta) {
                break ;
            }
            i = i + 1;
        }
        (value, Ghost(SearchTrace { horizon: Option::None, children, total }))
    }
}

/// The outcome of unique-forced-win detection at one fixed depth.
pub enum TinueResult<M> {
    /// No move forces a win within the depth.
    NotFound,
    /// Exactly one move forces a win within the depth.
    Found(M),
    /// More than one move forces a win: the position has no unique solution.
    AmbiguousMultiple,
}

/// The detector's certification criterion: a root move forces a win at
/// the searched depth exactly when the narrowed-window search of the
/// reply position reports a forced loss for the side then to move —
/// any `LossInPly` value, whatever its ply count within the window.
pub fn certifies_loss(v: NodeValue) -> (r: bool)
    ensures
        r == (v is LossInPly),
{
    matches!(v, NodeValue::LossInPly(_))
}

/// One step of the detector's counting over the root moves, in scan
/// order: given which earlier move certified (if any), whether move `i`
/// certifies, it returns the updated record and whether a second
/// certifying move has just proven ambiguity. The first certifying move
/// is recorded; a second one only raises the flag, so the scan can stop
/// there — searching on could change nothing.
pub fn detector_step(found: Option<usize>, i: usize, certifies: bool) -> (r: (
    Option<usize>,
    bool,
))
    ensures
        r.0 == (if certifies && found is None {
            Option::Some(i)
        } else {
            found
        }),
        r.1 == (certifies && found is Some),
{
    if certifies {
        match found {
            Option::None => (Option::Some(i), false),
            Option::Some(k) => (Option::Some(k), true),
        }
    } else {
        (found, false)
    }
}

/// No answer of the scanned prefix certified a forced opponent loss.
pub open spec fn no_certifying(answers: Seq<NodeValue>) -> bool {
    forall|i: int| 0 <= i < answers.len() ==> !((#[trigger] answers[i]) is LossInPly)
}

/// Looks for a forced winning move at exactly `depth` plies, and reports
/// it only if it is unique. Each root move is checked by searching the
/// reply position with a window narrowed to `[LossInPly(0),
/// LossInPly(depth)]`, so the search only has to decide whether that
/// reply is a forced loss for the opponent ([`certifies_loss`]); the
/// none/unique/multiple counting over the scan is [`detector_step`].
/// What each search answers rests with the board; the scanned moves and
/// their answers are returned as a ghost witness, and the result is
/// exactly the outcome of that record: `NotFound` when a full scan
/// certified nothing, `Found(mv)` when a full scan certified exactly
/// the move `mv`, and `AmbiguousMultiple` as soon as two scanned moves
/// certified — the scan stops there, since searching on could change
/// nothing. The position is mutated transiently: every move applied is
/// undone before return, on the early exit too.
pub fn find_unique_tinue_for_depth<P: GamePosition>(position: &mut P, depth: u32) -> (r: (
    TinueResult<P::Move>,
    Ghost<(Seq<(P::Move, u64)>, Seq<NodeValue>)>,
))
    requires
        1 <= depth < u32::MAX,
    ensures
        ({
            let moves = r.1@.0;
            let answers = r.1@.1;
            &&& scores_sorted_desc(moves)
            &&& answers.len() <= moves.len()
            &&& match r.0 {
                TinueResult::NotFound => answers.len() == moves.len() && no_certifying(answers),
                TinueResult::Found(mv) => answers.len() == moves.len() && (exists|i: int|
                    {
                        &&& 0 <= i < answers.len()
                        &&& (#[trigger] answers[i]) is LossInPly
                        &&& mv == moves[i].0
                        &&& forall|j: int|
                            0 <= j < answers.len() && j != i ==> !((#[trigger] answers[j])
                                is LossInPly)
                    }),
                TinueResult::AmbiguousMultiple => exists|i: int, j: int|
                    {
                        &&& 0 <= i < j < answers.len()
                        &&& (#[trigger] answers[i]) is LossInPly
                        &&& (#[trigger] answers[j]) is LossInPly
                    },
            }
        }),
{
    let (mut moves, _) = generate_sorted_moves(position);
    let ghost moves0 = moves@;
    let ghost mut answers: Seq<NodeValue> = Seq::empty();
    let mut found: Option<usize> = Option::None;
    let mut i: usize = 0;
    while i < moves.len()
        invariant
            1 <= depth < u32::MAX,
            moves@ == moves0,
            scores_sorted_desc(moves0),
            answers.len() == i as int,
            i <= moves@.len(),
            found matches Option::Some(k) ==> {
                &&& k < i
                &&& answers[k as int] is LossInPly
                &&& forall|j: int|
                    0 <= j < answers.len() && j != k ==> !((#[trigger] answers[j]) is LossInPly)
            },
            found is None ==> no_certifying(answers),
        decreases moves@.len() - i,
    {
        let undo = position.do_move(&moves[i].0);
        let (result, _) = alpha_beta(
            position,
            depth - 1,
            NodeValue::WinInPly(0).propagate_down(),
            NodeValue::WinInPly(depth + 1).propagate_down(),
        );
        let (new_found, ambiguous) = detector_step(found, i, certifies_loss(result));
        position.undo_move(undo);
        proof {
            answers = answers.push(result);
        }
        if ambiguous {
            proof {
                let k = found->0;
                assert(answers[k as int] is LossInPly);
                assert(answers[i as int] is LossInPly);
            }
            return (TinueResult::AmbiguousMultiple, Ghost((moves0, answers)));
        }
        found = new_found;
        i = i + 1;
    }
    match found {
        Option::Some(k) => {
            let mv = moves.swap_remove(k).0;
            proof {
                assert(answers[k as int] is LossInPly);
            }
            (TinueResult::Found(mv), Ghost((moves0, answers)))
        },
        Option::None => (TinueResult::NotFound, Ghost((moves0, answers))),
    }
}

/// The index of the greatest value in the list, preferring the earliest
/// on ties: everything ranks no higher than the pick, and everything
/// before the pick ranks strictly lower. `None` exactly on an empty
/// list.
pub fn argmax_value(scores: &Vec<NodeValue>) -> (r: Option<usize>)
    ensures
        (r is Some) == (scores@.len() > 0),
        r matches Option::Some(i) ==> {
            &&& i < scores@.len()
            &&& forall|j: int| 0 <= j < scores@.len() ==> value_le(scores@[j], scores@[i as int])
            &&& forall|j: int| 0 <= j < i ==> !value_le(scores@[i as int], scores@[j])
        },
{
    if scores.len() == 0 {
        return Option::None;
    }
    let mut best: usize = 0;
    let mut j: usize = 1;
    proof {
        lemma_value_order(scores@[0], scores@[0]);
    }
    while j < scores.len()
        invariant
            best < j <= scores@.len(),
            forall|q: int| 0 <= q < j ==> value_le(scores@[q], scores@[best as int]),
            forall|q: int| 0 <= q < best ==> !value_le(scores@[best as int], scores@[q]),
        decreases scores@.len() - j,
    {
        if scores[j].gt(&scores[best]) {
            proof {
                lemma_value_order(scores@[j as int], scores@[best as int]);
                assert forall|q: int| 0 <= q < j implies value_le(
                    scores@[q],
                    scores@[j as int],
                ) by {
                    lemma_value_order_trans(
                        scores@[q],
                        scores@[best as int],
                        scores@[j as int],
                    );
                }
                assert forall|q: int| 0 <= q < j implies !value_le(
                    scores@[j as int],
                    scores@[q],
                ) by {
                    if value_le(scores@[j as int], scores@[q]) {
                        lemma_value_order_trans(
                            scores@[j as int],
                            scores@[q],
                            scores@[best as int],
                        );
                    }
                }
            }
            best = j;
        } else {
            proof {
                lemma_value_order(scores@[j as int], scores@[best as int]);
            }
        }
        j = j + 1;
    }
    Option::Some(best)
}

/// `mv` is the arg-max pick over the scored moves: some index carries
/// it whose value no move beats and below which every move ranks
/// strictly lower.
pub open spec fn argmax_picked<M>(moves: Seq<(M, u64)>, scores: Seq<NodeValue>, mv: M) -> bool {
    exists|i: int|
        {
            &&& 0 <= i < scores.len()
            &&& mv == moves[i].0
            &&& (forall|j: int| 0 <= j < scores.len() ==> value_le(#[trigger] scores[j], scores[i]))
            &&& (forall|j: int| 0 <= j < i ==> !value_le(scores[i], #[trigger] scores[j]))
        }
}

/// Exhibits the index of an arg-max pick.
proof fn lemma_argmax_picked<M>(moves: Seq<(M, u64)>, scores: Seq<NodeValue>, mv: M, i: int)
    requires
        0 <= i < scores.len(),
        mv == moves[i].0,
        forall|j: int| 0 <= j < scores.len() ==> value_le(#[trigger] scores[j], scores[i]),
        forall|j: int| 0 <= j < i ==> !value_le(scores[i], #[trigger] scores[j]),
    ensures
        argmax_picked(moves, scores, mv),
{
}

/// Evaluates every legal move with a full window at `depth` — this
/// recovers an actual best move, not merely a winning one — and returns
/// the move whose propagated value no other move beats, preferring the
/// earlier move in the score-sorted order on ties ([`argmax_value`]
/// pins the selection rule down); `None` exactly when the position has
/// no legal moves. What each move evaluates to rests with the board;
/// the moves and their propagated values are returned as a ghost
/// witness, and the returned move is exactly the arg-max pick over that
/// record.
#[verifier::rlimit(50)]
pub fn best_move<P: GamePosition>(position: &mut P, depth: u32) -> (r: (
    Option<P::Move>,
    Ghost<(Seq<(P::Move, u64)>, Seq<NodeValue>)>,
))
    requires
        1 <= depth,
    ensures
        ({
            let moves = r.1@.0;
            let scores = r.1@.1;
            &&& scores_sorted_desc(moves)
            &&& scores.len() == moves.len()
            &&& match r.0 {
                Option::None => moves.len() == 0,
                Option::Some(mv) => argmax_picked(moves, scores, mv),
            }
        }),
{
    let (mut moves, _) = generate_sorted_moves(position);
    let ghost moves0 = moves@;
    let mut scores: Vec<NodeValue> = Vec::new();
    let mut i: usize = 0;
    while i < moves.len()
        invariant
            moves@ == moves0,
            scores_sorted_desc(moves0),
            scores@.len() == i <= moves@.len(),
            1 <= depth,
        decreases moves@.len() - i,
    {
        let undo = position.do_move(&moves[i].0);
        let (window_value, _) = alpha_beta(
            position,
            depth - 1,
            NodeValue::LossInPly(0),
            NodeValue::WinInPly(0),
        );
        let score = window_value.propagate_up();
        position.undo_move(undo);
        scores.push(score);
        i = i + 1;
    }
    match argmax_value(&scores) {
        Option::Some(best) => {
            let picked = moves.swap_remove(best).0;
            proof {
                lemma_argmax_picked(moves0, scores@, picked, best as int);
            }
            (Option::Some(picked), Ghost((moves0, scores@)))
        },
        Option::None => (Option::None, Ghost((moves0, scores@))),
    }
}

/// How a principal-variation replay came to its end.
#[derive(Clone, Copy, Debug, PartialEq, Eq, Structural)]
pub enum PvEnd {
    /// The replay reached the end of the game.
    Terminal,
    /// The board yielded no move to play before the game was over.
    NoMoves,
    /// The depth ran out at a position that was not terminal: the
    /// caller's certification premise did not hold.
    DepthExhausted,
}

/// Reconstructs the principal variation of a certified forced win by
/// replaying full-window best moves until the game ends, for at most
/// `depth` plies, collecting each move's text before it is played. On a
/// position whose unique forced win of exactly `depth` plies has been
/// certified, the replay ends `Terminal` with exactly `depth` entries;
/// the certification itself rests with the caller, so only the length
/// bound is stated, and any other ending signals that the premise did
/// not hold — a contract violation is reported, not swallowed:
/// `DepthExhausted` always carries exactly `depth` entries, so a
/// shorter variation always names its early end. The position is
/// consumed: the moves of the variation are left applied.
pub fn pv<P: GamePosition>(position: &mut P, depth: u32) -> (r: (Vec<String>, PvEnd))
    ensures
        r.0@.len() <= depth,
        r.1 is DepthExhausted ==> r.0@.len() == depth,
        r.1 is NoMoves ==> r.0@.len() < depth,
{
    let mut out: Vec<String> = Vec::new();
    let mut remaining = depth;
    while remaining > 0
        invariant
            out@.len() + remaining == depth,
        decreases remaining,
    {
        if position.game_result().is_some() {
            return (out, PvEnd::Terminal);
        }
        let (pick, _) = best_move(position, remaining);
        match pick {
            Option::Some(mv) => {
                out.push(position.move_text(&mv));
                let _ = position.do_move(&mv);
            },
            Option::None => {
                return (out, PvEnd::NoMoves);
            },
        }
        remaining = remaining - 1;
    }
    if position.game_result().is_some() {
        (out, PvEnd::Terminal)
    } else {
        (out, PvEnd::DepthExhausted)
    }
}

/// Iterative deepening for a unique forced win: tries odd depths 1, 3, 5,
/// ... up to `max_depth` (the winning side delivers the final blow, so
/// only odd ply counts can certify a win for it at the root). The
/// per-depth outcomes are returned as a ghost witness, in depth order,
/// and the result is exactly their fold: every depth before the last
/// found nothing, so a reported win is of the first — minimal —
/// certifying depth, `2k - 1` after `k` searched depths, with the last
/// outcome's move; `None` comes either from an ambiguous depth, which
/// ends the deepening on the spot, or from every depth up to the
/// ceiling finding nothing.
pub fn find_unique_tinue<P: GamePosition>(position: &mut P, max_depth: u32) -> (r: (
    Option<(P::Move, u32)>,
    Ghost<Seq<TinueResult<P::Move>>>,
))
    requires
        max_depth < u32::MAX,
    ensures
        ({
            let outs = r.1@;
            &&& 2 * outs.len() <= max_depth as int + 1
            &&& (forall|i: int| 0 <= i < outs.len() - 1 ==> (#[trigger] outs[i]) is NotFound)
            &&& match r.0 {
                Option::Some(p) => {
                    &&& 1 <= p.1 <= max_depth
                    &&& p.1 % 2 == 1
                    &&& outs.len() >= 1
                    &&& p.1 as int == 2 * outs.len() - 1
                    &&& (outs.last() matches TinueResult::Found(m) && m == p.0)
                },
                Option::None => (outs.len() >= 1 && outs.last() is AmbiguousMultiple) || (2
                    * outs.len() + 1 > max_depth as int && (forall|i: int|
                    0 <= i < outs.len() ==> (#[trigger] outs[i]) is NotFound)),
            }
        }),
{
    let ghost mut outs: Seq<TinueResult<P::Move>> = Seq::empty();
    let mut depth: u64 = 1;
    while depth <= max_depth as u64
        invariant
            max_depth < u32::MAX,
            depth % 2 == 1,
            1 <= depth <= max_depth as u64 + 2,
            depth as int == 2 * outs.len() + 1,
            forall|i: int| 0 <= i < outs.len() ==> (#[trigger] outs[i]) is NotFound,
        decreases max_depth as int + 2 - depth,
    {
        let (outcome, _) = find_unique_tinue_for_depth(position, depth as u32);
        let ghost o = outcome;
        proof {
            outs = outs.push(o);
        }
        match outcome {
            TinueResult::NotFound => {},
            TinueResult::Found(mv) => {
                proof {
                    assert(outs.last() == o);
                }
                return (Option::Some((mv, depth as u32)), Ghost(outs));
            },
            TinueResult::AmbiguousMultiple => {
                proof {
                    assert(outs.last() == o);
                }
                return (Option::None, Ghost(outs));
            },
        }
        depth = depth + 2;
    }
    (Option::None, Ghost(outs))
}

/// Plays the given moves from `position` (all but the last
/// `plies_to_undo` of them, which rewind the game to just before its
/// decisive mistakes), then searches for a unique forced win within
/// `max_depth` plies and reconstructs its principal variation: the
/// winning move's text followed by the best replies to the end. Returns
/// the variation with its certified depth, an odd ply count of at least
/// one and at most `max_depth` entries long, together with the
/// deepening's per-depth outcomes as a ghost witness: a reported win is
/// of the first certifying depth, and `None` comes only from an
/// ambiguous depth or from exhausting the ceiling empty-handed.
pub fn find_unique_tinue_line<P: GamePosition>(
    position: &mut P,
    played_moves: &Vec<P::Move>,
    plies_to_undo: u32,
    max_depth: u32,
) -> (r: (Option<(Vec<String>, u32)>, Ghost<Seq<TinueResult<P::Move>>>))
    requires
        max_depth < u32::MAX,
    ensures
        ({
            let outs = r.1@;
            &&& 2 * outs.len() <= max_depth as int + 1
            &&& (forall|i: int| 0 <= i < outs.len() - 1 ==> (#[trigger] outs[i]) is NotFound)
            &&& match r.0 {
                Option::Some(p) => {
                    &&& 1 <= p.1 <= max_depth
                    &&& p.1 % 2 == 1
                    &&& 1 <= p.0@.len() <= p.1
                    &&& outs.len() >= 1
                    &&& p.1 as int == 2 * outs.len() - 1
                    &&& outs.last() is Found
                },
                Option::None => (outs.len() >= 1 && outs.last() is AmbiguousMultiple) || (2
                    * outs.len() + 1 > max_depth as int && (forall|i: int|
                    0 <= i < outs.len() ==> (#[trigger] outs[i]) is NotFound)),
            }
        }),
{
    let count = if (plies_to_undo as usize) <= played_moves.len() {
        played_moves.len() - plies_to_undo as usize
    } else {
        0
    };
    let mut i: usize = 0;
    while i < count
        invariant
            count <= played_moves@.len(),
        decreases count - i,
    {
        let _ = position.do_move(&played_moves[i]);
        i = i + 1;
    }
    let (found, outs) = find_unique_tinue(position, max_depth);
    match found {
        Option::Some((mv, depth)) => {
            let mut line: Vec<String> = Vec::new();
            line.push(position.move_text(&mv));
            let _ = position.do_move(&mv);
            let (mut rest, _) = pv(position, depth - 1);
            line.append(&mut rest);
            (Option::Some((line, depth)), outs)
        },
        Option::None => (Option::None, outs),
    }
}

} // verus!

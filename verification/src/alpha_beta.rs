//! Game-theoretic values and the bounded alpha-beta search.
//!
//! A [`NodeValue`] says, from the perspective of the side to move, whether
//! the position is a win or a loss in an exact number of plies of optimal
//! play, or undetermined within the searched horizon. The values are totally
//! ordered: winning sooner is better, losing later is less bad, and any win
//! outranks `Unknown`, which outranks any loss.

use core::cmp::Ordering;
use vstd::prelude::*;

use crate::position::{GameOutcome, GamePosition, Player};

verus! {

/// The game-theoretic value of a position, seen from the side to move.
///
/// The extremes are `WinInPly(0)` (an immediate win, the greatest value)
/// and `LossInPly(0)` (an immediate loss, the least value); they serve as
/// the initial search window.
#[derive(Clone, Copy, Debug, PartialEq, Eq, Structural)]
pub enum NodeValue {
    /// The side to move wins after exactly this many more plies.
    WinInPly(u32),
    /// The outcome is not determined within the searched horizon.
    Unknown,
    /// The side to move loses after exactly this many more plies.
    LossInPly(u32),
}

/// The total order on values: `WinInPly(a) > WinInPly(b)` iff `a < b`,
/// every win outranks `Unknown`, `Unknown` outranks every loss, and
/// `LossInPly(a) < LossInPly(b)` iff `a < b`.
pub open spec fn value_cmp(a: NodeValue, b: NodeValue) -> Ordering {
    match (a, b) {
        (NodeValue::WinInPly(x), NodeValue::WinInPly(y)) => if x < y {
            Ordering::Greater
        } else if x == y {
            Ordering::Equal
        } else {
            Ordering::Less
        },
        (NodeValue::WinInPly(_), _) => Ordering::Greater,
        (NodeValue::Unknown, NodeValue::WinInPly(_)) => Ordering::Less,
        (NodeValue::Unknown, NodeValue::Unknown) => Ordering::Equal,
        (NodeValue::Unknown, NodeValue::LossInPly(_)) => Ordering::Greater,
        (NodeValue::LossInPly(x), NodeValue::LossInPly(y)) => if x < y {
            Ordering::Less
        } else if x == y {
            Ordering::Equal
        } else {
            Ordering::Greater
        },
        (NodeValue::LossInPly(_), _) => Ordering::Less,
    }
}

/// `a` is ranked no higher than `b`.
pub open spec fn value_le(a: NodeValue, b: NodeValue) -> bool {
    value_cmp(a, b) != Ordering::Greater
}

/// The ply distance a value carries; `Unknown` carries none.
pub open spec fn vply(v: NodeValue) -> int {
    match v {
        NodeValue::WinInPly(n) => n as int,
        NodeValue::LossInPly(n) => n as int,
        NodeValue::Unknown => 0,
    }
}

/// The greater of two integers.
pub open spec fn imax(a: int, b: int) -> int {
    if a < b {
        b
    } else {
        a
    }
}

/// An upper bound on the ply distance of anything a bounded search within
/// the window `[alpha, beta]` at `depth` can return.
pub open spec fn search_ply_bound(depth: u32, alpha: NodeValue, beta: NodeValue) -> int {
    imax(depth as int, imax(vply(alpha), vply(beta)))
}

impl PartialOrd for NodeValue {
    fn partial_cmp(&self, other: &Self) -> (r: Option<Ordering>) {
        Some(
            match (self, other) {
                (NodeValue::WinInPly(x), NodeValue::WinInPly(y)) => if x < y {
                    Ordering::Greater
                } else if x == y {
                    Ordering::Equal
                } else {
                    Ordering::Less
                },
                (NodeValue::WinInPly(_), _) => Ordering::Greater,
                (NodeValue::Unknown, NodeValue::WinInPly(_)) => Ordering::Less,
                (NodeValue::Unknown, NodeValue::Unknown) => Ordering::Equal,
                (NodeValue::Unknown, NodeValue::LossInPly(_)) => Ordering::Greater,
                (NodeValue::LossInPly(x), NodeValue::LossInPly(y)) => if x < y {
                    Ordering::Less
                } else if x == y {
                    Ordering::Equal
                } else {
                    Ordering::Greater
                },
                (NodeValue::LossInPly(_), _) => Ordering::Less,
            },
        )
    }
}

impl vstd::std_specs::cmp::PartialOrdSpecImpl for NodeValue {
    open spec fn obeys_partial_cmp_spec() -> bool {
        true
    }

    open spec fn partial_cmp_spec(&self, other: &Self) -> Option<Ordering> {
        Some(value_cmp(*self, *other))
    }
}

impl NodeValue {
    /// A child's value, from the mover-at-child perspective, as the parent
    /// sees it: a win becomes a loss one ply later and vice versa.
    pub open spec fn spec_propagate_up(self) -> NodeValue {
        match self {
            NodeValue::WinInPly(n) => NodeValue::LossInPly((n + 1) as u32),
            NodeValue::Unknown => NodeValue::Unknown,
            NodeValue::LossInPly(n) => NodeValue::WinInPly((n + 1) as u32),
        }
    }

    /// The inverse ply shift used to rebase a window bound one level
    /// deeper, saturating at zero rather than underflowing.
    pub open spec fn spec_propagate_down(self) -> NodeValue {
        match self {
            NodeValue::WinInPly(n) => NodeValue::LossInPly(if n == 0 {
                0u32
            } else {
                (n - 1) as u32
            }),
            NodeValue::Unknown => NodeValue::Unknown,
            NodeValue::LossInPly(n) => NodeValue::WinInPly(if n == 0 {
                0u32
            } else {
                (n - 1) as u32
            }),
        }
    }

    /// Converts a child's value into the value the parent sees, one ply up.
    pub fn propagate_up(self) -> (r: NodeValue)
        requires
            vply(self) < u32::MAX,
        ensures
            r == self.spec_propagate_up(),
            vply(r) == if self is Unknown { 0int } else { vply(self) + 1 },
    {
        match self {
            NodeValue::WinInPly(n) => NodeValue::LossInPly(n + 1),
            NodeValue::Unknown => NodeValue::Unknown,
            NodeValue::LossInPly(n) => NodeValue::WinInPly(n + 1),
        }
    }

    /// Rebases a window bound one ply deeper, saturating at zero.
    pub fn propagate_down(self) -> (r: NodeValue)
        ensures
            r == self.spec_propagate_down(),
            vply(r) == imax(vply(self) - 1, 0),
            vply(r) < u32::MAX,
    {
        match self {
            NodeValue::WinInPly(n) => NodeValue::LossInPly(if n == 0 {
                0
            } else {
                n - 1
            }),
            NodeValue::Unknown => NodeValue::Unknown,
            NodeValue::LossInPly(n) => NodeValue::WinInPly(if n == 0 {
                0
            } else {
                n - 1
            }),
        }
    }

    /// The greater of `self` and `other` in the value order.
    pub fn max_val(self, other: NodeValue) -> (r: NodeValue)
        ensures
            r == spec_max_val(self, other),
            value_le(self, r) && value_le(other, r),
    {
        proof {
            lemma_value_order(self, other);
        }
        if self.lt(&other) {
            other
        } else {
            self
        }
    }
}

/// The greater of two values in the value order; the second on ties.
pub open spec fn spec_max_val(a: NodeValue, b: NodeValue) -> NodeValue {
    if value_le(a, b) {
        b
    } else {
        a
    }
}

/// The value a search scan has accumulated after the given children:
/// the greatest of their propagated values, starting from the immediate
/// loss that any move improves on.
pub open spec fn spec_max_fold(children: Seq<NodeValue>) -> NodeValue
    decreases children,
{
    if children.len() == 0 {
        NodeValue::LossInPly(0)
    } else {
        spec_max_val(spec_max_fold(children.drop_last()), children.last().spec_propagate_up())
    }
}

/// Folding a larger value into an accumulated maximum absorbs the
/// smaller one.
pub proof fn lemma_max_val_absorb(al: NodeValue, v1: NodeValue, v2: NodeValue)
    requires
        value_le(v1, v2),
    ensures
        spec_max_val(spec_max_val(al, v1), v2) == spec_max_val(al, v2),
{
    lemma_value_order(al, v1);
    lemma_value_order(al, v2);
    lemma_value_order(v1, v2);
    if value_le(al, v1) {
        lemma_value_order_trans(al, v1, v2);
    }
}

/// What one bounded search call observed: either it evaluated at the
/// horizon (the game over, or no depth left), recording the side to
/// move and the terminal result it saw, or it scanned moves, recording
/// each child search's answer in order, out of `total` legal moves.
pub struct SearchTrace {
    /// The horizon evaluation's inputs; `None` when moves were scanned.
    pub horizon: Option<(Player, Option<GameOutcome>)>,
    /// The child searches' answers, in scan order.
    pub children: Seq<NodeValue>,
    /// How many legal moves the position offered.
    pub total: int,
}

/// The window bound a scan runs with after its first `p` children: the
/// greater of `alpha` and the value accumulated so far.
pub open spec fn running_alpha(alpha: NodeValue, children: Seq<NodeValue>, p: int) -> NodeValue {
    spec_max_val(alpha, spec_max_fold(children.take(p)))
}

/// The recorded children are a faithful alpha-beta scan: the running
/// bound stayed below `beta` after every child but possibly the last,
/// and the scan stopped short of the move count only on a cutoff.
pub open spec fn cutoff_scan(alpha: NodeValue, beta: NodeValue, t: SearchTrace) -> bool {
    &&& 0 <= t.children.len() <= t.total
    &&& (forall|p: int|
        1 <= p < t.children.len() ==> !value_le(beta, #[trigger] running_alpha(alpha, t.children, p)))
    &&& (t.children.len() < t.total ==> value_le(
        beta,
        running_alpha(alpha, t.children, t.children.len() as int),
    ))
}

/// The value order is a total order: total, antisymmetric and reflexive,
/// with `Equal` exactly on equal values and `Less`/`Greater` mirrored.
pub proof fn lemma_value_order(a: NodeValue, b: NodeValue)
    ensures
        value_le(a, b) || value_le(b, a),
        value_le(a, b) && value_le(b, a) ==> a == b,
        value_le(a, a),
        (value_cmp(a, b) == Ordering::Equal) <==> a == b,
        (value_cmp(a, b) == Ordering::Less) <==> (value_cmp(b, a) == Ordering::Greater),
{
}

/// The value order is transitive.
pub proof fn lemma_value_order_trans(a: NodeValue, b: NodeValue, c: NodeValue)
    requires
        value_le(a, b),
        value_le(b, c),
    ensures
        value_le(a, c),
{
}

/// Shifting a window bound down one ply and propagating it back up returns
/// to the starting value, except at ply zero, where the saturating
/// subtraction loses the distinction: the round trip lands one ply off.
pub proof fn lemma_propagate_round_trip(n: u32)
    ensures
        n > 0 ==> NodeValue::WinInPly(n).spec_propagate_down().spec_propagate_up()
            == NodeValue::WinInPly(n),
        n > 0 ==> NodeValue::LossInPly(n).spec_propagate_down().spec_propagate_up()
            == NodeValue::LossInPly(n),
        NodeValue::WinInPly(0).spec_propagate_down().spec_propagate_up() == NodeValue::WinInPly(1),
        NodeValue::LossInPly(0).spec_propagate_down().spec_propagate_up() == NodeValue::LossInPly(
            1,
        ),
        NodeValue::Unknown.spec_propagate_down().spec_propagate_up() == NodeValue::Unknown,
{
}

/// The value of a position at the search horizon or at the end of the
/// game, from the perspective of the side to move: a win for that side is
/// `WinInPly(0)`, a loss is `LossInPly(0)`, and a draw or an unfinished
/// position is `Unknown`.
pub open spec fn spec_eval_horizon(side: Player, result: Option<GameOutcome>) -> NodeValue {
    match result {
        Option::Some(outcome) => if outcome.spec_is_win_for(side) {
            NodeValue::WinInPly(0)
        } else if outcome is Draw {
            NodeValue::Unknown
        } else {
            NodeValue::LossInPly(0)
        },
        Option::None => NodeValue::Unknown,
    }
}

/// Evaluates a position at the search horizon or at the end of the game.
pub fn eval_horizon(side: Player, result: Option<GameOutcome>) -> (r: NodeValue)
    ensures
        r == spec_eval_horizon(side, result),
        vply(r) == 0,
{
    match result {
        Option::Some(outcome) => if outcome.is_win_for(side) {
            NodeValue::WinInPly(0)
        } else if matches!(outcome, GameOutcome::Draw) {
            NodeValue::Unknown
        } else {
            NodeValue::LossInPly(0)
        },
        Option::None => NodeValue::Unknown,
    }
}

/// The bounded alpha-beta search over unscored move generation: a
/// negamax-style search for a forced result within `depth` plies, inside
/// the window `[alpha, beta]`. Per standard alpha-beta semantics the
/// returned value is exact only within the window; outside it, it is only
/// a bound. The position is mutated transiently: every move applied is
/// undone before the call returns.
///
/// What the board answers rests with the board; how the answers decide
/// the result is returned as a [`SearchTrace`] witness: at the horizon
/// the result is exactly the horizon evaluation of what was seen, and
/// otherwise it is the window-clamped maximum of the recorded child
/// answers, which form a faithful cutoff scan of the legal moves. This
/// fail-hard variant reports the running window bound, never below the
/// unimproved `alpha`. The returned value never carries more plies than
/// the searched horizon and the window bounds admit, so iterated
/// propagation cannot overflow.
pub fn alpha_beta<P: GamePosition>(
    position: &mut P,
    depth: u32,
    alpha: NodeValue,
    beta: NodeValue,
) -> (r: (NodeValue, Ghost<SearchTrace>))
    ensures
        vply(r.0) <= search_ply_bound(depth, alpha, beta),
        ({
            let t = r.1@;
            match t.horizon {
                Option::Some(h) => {
                    &&& t.children.len() == 0
                    &&& r.0 == spec_eval_horizon(h.0, h.1)
                    &&& (depth == 0 || h.1 is Some)
                },
                Option::None => {
                    &&& depth >= 1
                    &&& cutoff_scan(alpha, beta, t)
                    &&& r.0 == spec_max_val(alpha, spec_max_fold(t.children))
                },
            }
        }),
    decreases depth,
{
    let game_result = position.game_result();
    if depth == 0 || game_result.is_some() {
        let side = position.side_to_move();
        let r = eval_horizon(side, game_result);
        (
            r,
            Ghost(
                SearchTrace {
                    horizon: Option::Some((side, game_result)),
                    children: Seq::empty(),
                    total: 0,
                },
            ),
        )
    } else {
        let moves = position.generate_moves();
        let ghost total = moves@.len() as int;
        let ghost mut children: Seq<NodeValue> = Seq::empty();
        let mut value = NodeValue::LossInPly(0);
        let mut a = alpha;
        let mut i: usize = 0;
        proof {
            lemma_value_order(alpha, value);
            assert(children.take(0) =~= children);
        }
        while i < moves.len()
            invariant_except_break
                children.len() == i as int,
                forall|p: int|
                    1 <= p <= children.len() ==> !value_le(
                        beta,
                        #[trigger] running_alpha(alpha, children, p),
                    ),
            invariant
                depth >= 1,
                total == moves@.len(),
                children.len() <= total,
                value == spec_max_fold(children),
                a == spec_max_val(alpha, value),
                vply(value) <= search_ply_bound(depth, alpha, beta),
                vply(a) <= search_ply_bound(depth, alpha, beta),
            ensures
                forall|p: int|
                    1 <= p < children.len() ==> !value_le(
                        beta,
                        #[trigger] running_alpha(alpha, children, p),
                    ),
                children.len() < total ==> value_le(
                    beta,
                    running_alpha(alpha, children, children.len() as int),
                ),
            decreases moves@.len() - i,
        {
            let undo = position.do_move(&moves[i]);
            let (child, _) = alpha_beta(
                position,
                depth - 1,
                beta.propagate_down(),
                a.propagate_down(),
            );
            position.undo_move(undo);
            proof {
                lemma_value_order(value, child.spec_propagate_up());
            }
            let ghost children_before = children;
            let ghost value_before = value;
            value = value.max_val(child.propagate_up());
            proof {
                children = children.push(child);
                assert(children.drop_last() =~= children_before);
                assert(children.last() == child);
                lemma_max_val_absorb(alpha, value_before, value);
            }
            a = a.max_val(value);
            proof {
                assert(children.take(children.len() as int) =~= children);
                assert(running_alpha(alpha, children, children.len() as int) == a);
                assert forall|p: int| 1 <= p < children.len() implies !value_le(
                    beta,
                    #[trigger] running_alpha(alpha, children, p),
                ) by {
                    assert(children.take(p) =~= children_before.take(p));
                    assert(running_alpha(alpha, children, p) == running_alpha(
                        alpha,
                        children_before,
                        p,
                    ));
                }
                lemma_value_order(a, beta);
            }
            if a.ge(&beta) {
                break ;
            }
            i = i + 1;
        }
        (a, Ghost(SearchTrace { horizon: Option::None, children, total }))
    }
}

} // verus!

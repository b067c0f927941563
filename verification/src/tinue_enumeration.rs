//! The forced-win tree enumerator: a second, tree-producing search that
//! enumerates every forced-win continuation, including every defensive
//! reply of the opponent, and the iterative deepening driver over it.

use vstd::prelude::*;

use crate::alpha_beta::imax;
use crate::position::{GamePosition, Player};
use crate::tinue_search::generate_sorted_moves;

verus! {

/// One node of a forced-win tree: a move in text form and, unless the
/// move wins immediately, an ordered list of every continuation that
/// keeps the line on a forced-win path. A node with no continuation list
/// is a terminal win.
#[derive(Debug, PartialEq, Eq)]
pub struct TinueMove {
    /// The move, in the canonical text of the position it was played in.
    pub mv: String,
    /// The continuations, in generation order; `None` for a terminal win.
    pub solutions: Option<Vec<TinueMove>>,
}

/// A certified search depth together with the forest of forced-win trees
/// found at that depth.
#[derive(Debug, PartialEq, Eq)]
pub struct SearchResult {
    /// The depth, in plies, at which the forest was certified.
    pub depth: u32,
    /// One tree per winning root move, in generation order.
    pub result: Vec<TinueMove>,
}

/// The number of plies of the longest line through this tree: the tree's
/// depth.
pub open spec fn tree_plies(t: TinueMove) -> int
    decreases t,
{
    match t.solutions {
        Option::None => 1,
        Option::Some(subs) => 1 + forest_plies(subs@),
    }
}

/// The number of plies of the longest line through any tree of the
/// forest; zero for an empty forest.
pub open spec fn forest_plies(s: Seq<TinueMove>) -> int
    decreases s,
{
    if s.len() == 0 {
        0
    } else {
        imax(tree_plies(s[0]), forest_plies(s.drop_first()))
    }
}

/// Every tree of the forest stands within `d` plies.
pub open spec fn forest_within(s: Seq<TinueMove>, d: int) -> bool {
    forall|i: int| 0 <= i < s.len() ==> tree_plies(#[trigger] s[i]) <= d
}

/// A tree is at least one ply deep, and a forest never deeper than its
/// deepest tree.
pub proof fn lemma_forest_plies_bounds(s: Seq<TinueMove>, d: int)
    requires
        0 <= d,
        forest_within(s, d),
    ensures
        0 <= forest_plies(s) <= d,
        forall|i: int| 0 <= i < s.len() ==> 1 <= tree_plies(#[trigger] s[i]),
    decreases s.len(),
{
    if s.len() > 0 {
        lemma_tree_plies_pos(s[0]);
        assert(forest_within(s.drop_first(), d)) by {
            assert(forall|i: int|
                0 <= i < s.drop_first().len() ==> s.drop_first()[i] == s[i + 1]);
        }
        lemma_forest_plies_bounds(s.drop_first(), d);
        assert(forall|i: int| 0 <= i < s.len() ==> 1 <= tree_plies(#[trigger] s[i])) by {
            assert(forall|i: int| 1 <= i < s.len() ==> s[i] == s.drop_first()[i - 1]);
        }
    }
}

/// A tree is at least one ply deep.
pub proof fn lemma_tree_plies_pos(t: TinueMove)
    ensures
        1 <= tree_plies(t),
    decreases t,
{
    match t.solutions {
        Option::None => {},
        Option::Some(subs) => {
            lemma_forest_plies_nonneg(subs@);
        },
    }
}

/// A forest is never of negative depth.
pub proof fn lemma_forest_plies_nonneg(s: Seq<TinueMove>)
    ensures
        0 <= forest_plies(s),
    decreases s,
{
    if s.len() > 0 {
        lemma_tree_plies_pos(s[0]);
        lemma_forest_plies_nonneg(s.drop_first());
    }
}

/// What the enumerator does with one reply.
#[derive(Clone, Copy, Debug, PartialEq, Eq, Structural)]
pub enum ReplyAction {
    /// Record the move as a terminal win: a leaf of the tree.
    KeepLeaf,
    /// Record the move with the forced continuations found behind it.
    Keep,
    /// The move is not part of a forced win: leave it out and scan on.
    Skip,
    /// The reply escapes the forced win: the whole branch fails.
    Abort,
}

/// The enumerator's rule for a reply that ended the game: on `me`'s
/// turn a win is a leaf and anything else is simply not a forced-win
/// branch; on the opponent's turn any result that is not a win for `me`
/// is an escape, and a win for `me` is an accidental gift — an opponent
/// mistake does not certify a tinue, so it is skipped, not recorded.
pub open spec fn spec_terminal_action(my_turn: bool, win_for_me: bool) -> ReplyAction {
    if my_turn {
        if win_for_me {
            ReplyAction::KeepLeaf
        } else {
            ReplyAction::Skip
        }
    } else {
        if win_for_me {
            ReplyAction::Skip
        } else {
            ReplyAction::Abort
        }
    }
}

/// Decides what to do with a reply that ended the game.
pub fn terminal_action(my_turn: bool, win_for_me: bool) -> (r: ReplyAction)
    ensures
        r == spec_terminal_action(my_turn, win_for_me),
{
    if my_turn {
        if win_for_me {
            ReplyAction::KeepLeaf
        } else {
            ReplyAction::Skip
        }
    } else {
        if win_for_me {
            ReplyAction::Skip
        } else {
            ReplyAction::Abort
        }
    }
}

/// The enumerator's rule for a reply that left the game open: a move
/// whose every deeper reply was refuted is kept with those
/// continuations; otherwise, on `me`'s turn the move simply is not a
/// forced win, while an opponent's unrefuted reply aborts the branch —
/// every legal reply must independently lead to a forced win. A reply
/// at the horizon counts as unrefuted: no depth remains to force
/// anything behind it.
pub open spec fn spec_deeper_action(my_turn: bool, continuations_found: bool) -> ReplyAction {
    if continuations_found {
        ReplyAction::Keep
    } else if my_turn {
        ReplyAction::Skip
    } else {
        ReplyAction::Abort
    }
}

/// Decides what to do with a reply that left the game open.
pub fn deeper_action(my_turn: bool, continuations_found: bool) -> (r: ReplyAction)
    ensures
        r == spec_deeper_action(my_turn, continuations_found),
{
    if continuations_found {
        ReplyAction::Keep
    } else if my_turn {
        ReplyAction::Skip
    } else {
        ReplyAction::Abort
    }
}

/// One observed reply of an enumerator scan: the move's text, whether
/// it ended the game (and for whom), and the forced continuations
/// found behind it when the game went on.
pub struct ReplyObs {
    /// The reply's text, in the position it was played in.
    pub text: Seq<char>,
    /// `Some(win)` when the reply ended the game, `win` saying whether
    /// `me` won; `None` when the game went on.
    pub terminal: Option<bool>,
    /// The forced continuations found behind an open reply; empty at
    /// the horizon, where nothing could be explored.
    pub subs: Seq<TinueMove>,
}

/// What the enumerator does with an observed reply: the terminal rule
/// on a finished game, the deeper rule otherwise.
pub open spec fn obs_action(my_turn: bool, o: ReplyObs) -> ReplyAction {
    match o.terminal {
        Option::Some(win) => spec_terminal_action(my_turn, win),
        Option::None => spec_deeper_action(my_turn, o.subs.len() > 0),
    }
}

/// The forest is the kept-fold of the scanned replies: kept replies
/// appear in scan order — a leaf for a terminal win, a node carrying
/// its found continuations otherwise — skipped replies leave no trace,
/// and a scan whose last reply aborted has wiped the whole forest.
pub open spec fn is_kept_fold(my_turn: bool, obs: Seq<ReplyObs>, forest: Seq<TinueMove>) -> bool
    decreases obs,
{
    if obs.len() == 0 {
        forest.len() == 0
    } else {
        match obs_action(my_turn, obs.last()) {
            ReplyAction::KeepLeaf => {
                &&& forest.len() >= 1
                &&& forest.last().mv@ == obs.last().text
                &&& forest.last().solutions is None
                &&& is_kept_fold(my_turn, obs.drop_last(), forest.drop_last())
            },
            ReplyAction::Keep => {
                &&& forest.len() >= 1
                &&& forest.last().mv@ == obs.last().text
                &&& (forest.last().solutions matches Option::Some(v) && v@ == obs.last().subs)
                &&& is_kept_fold(my_turn, obs.drop_last(), forest.drop_last())
            },
            ReplyAction::Skip => is_kept_fold(my_turn, obs.drop_last(), forest),
            ReplyAction::Abort => forest.len() == 0,
        }
    }
}

/// Enumerates every forced-win line for `me` within `depth` plies: one
/// tree per winning move of the side to move. On `me`'s turn a move is
/// kept when it wins at once (a leaf) or when every opponent reply to it
/// is refuted; on the opponent's turn, a single reply that is neither an
/// immediate win for `me` nor refuted within the remaining depth makes
/// the whole branch fail, short-circuiting to an empty forest — every
/// legal reply must independently lead to a forced win. A terminal win
/// for `me` on the opponent's own turn is an accidental gift, not part of
/// a certified line, and is skipped. With `stop_at_first`, `me`'s turns
/// keep only the first winning move found. The position is mutated
/// transiently: every move applied is undone before return, on the
/// short-circuit paths too.
///
/// What the board shows rests with the board; the scanned replies and
/// what was seen behind each are returned as a ghost witness (with
/// whose turn it was), and the forest is exactly the kept-fold of that
/// record under the contracted per-reply rules — and stands within
/// `depth` plies. Replies skipped as dominated near the horizon (the
/// opt-in [`GamePosition::move_is_dominated`] pruning) are not scanned
/// and leave no trace.
pub fn enumerate_tinue<P: GamePosition>(
    position: &mut P,
    depth: u32,
    me: Player,
    stop_at_first: bool,
) -> (r: (Vec<TinueMove>, Ghost<(bool, Seq<ReplyObs>)>))
    requires
        1 <= depth,
    ensures
        forest_within(r.0@, depth as int),
        is_kept_fold(r.1@.0, r.1@.1, r.0@),
        stop_at_first && r.1@.0 ==> r.0@.len() <= 1,
    decreases depth,
{
    let my_turn = position.side_to_move() == me;
    let (moves, _) = generate_sorted_moves(position);
    let ghost mut obs: Seq<ReplyObs> = Seq::empty();
    let mut result: Vec<TinueMove> = Vec::new();
    let mut i: usize = 0;
    while i < moves.len()
        invariant
            forest_within(result@, depth as int),
            1 <= depth,
            is_kept_fold(my_turn, obs, result@),
            stop_at_first && my_turn ==> result@.len() == 0,
        decreases moves@.len() - i,
    {
        if my_turn && position.move_is_dominated(&moves[i].0, depth) {
            i = i + 1;
            continue ;
        }
        let text = position.move_text(&moves[i].0);
        let ghost t = text@;
        let ghost obs_before = obs;
        let ghost result_before = result@;
        let undo = position.do_move(&moves[i].0);
        match position.game_result() {
            Option::Some(outcome) => {
                let win = outcome.is_win_for(me);
                proof {
                    obs = obs.push(
                        ReplyObs { text: t, terminal: Option::Some(win), subs: Seq::empty() },
                    );
                    assert(obs.drop_last() =~= obs_before);
                }
                match terminal_action(my_turn, win) {
                    ReplyAction::KeepLeaf => {
                        result.push(TinueMove { mv: text, solutions: Option::None });
                        proof {
                            assert(result@.drop_last() =~= result_before);
                            assert(is_kept_fold(my_turn, obs, result@));
                        }
                        if stop_at_first {
                            position.undo_move(undo);
                            return (result, Ghost((my_turn, obs)));
                        }
                    },
                    ReplyAction::Abort => {
                        position.undo_move(undo);
                        return (Vec::new(), Ghost((my_turn, obs)));
                    },
                    // a terminal reply has nothing behind it to keep
                    ReplyAction::Skip | ReplyAction::Keep => {},
                }
            },
            Option::None => {
                if depth > 1 {
                    let (subs, _) = enumerate_tinue(position, depth - 1, me, stop_at_first);
                    let ghost s = subs@;
                    proof {
                        obs = obs.push(ReplyObs { text: t, terminal: Option::None, subs: s });
                        assert(obs.drop_last() =~= obs_before);
                    }
                    match deeper_action(my_turn, subs.len() > 0) {
                        ReplyAction::Keep => {
                            proof {
                                lemma_forest_plies_bounds(subs@, depth - 1);
                            }
                            result.push(TinueMove { mv: text, solutions: Option::Some(subs) });
                            proof {
                                assert(result@.drop_last() =~= result_before);
                                assert(is_kept_fold(my_turn, obs, result@));
                            }
                            if my_turn && stop_at_first {
                                position.undo_move(undo);
                                return (result, Ghost((my_turn, obs)));
                            }
                        },
                        ReplyAction::Abort => {
                            position.undo_move(undo);
                            return (Vec::new(), Ghost((my_turn, obs)));
                        },
                        ReplyAction::Skip | ReplyAction::KeepLeaf => {},
                    }
                } else {
                    proof {
                        obs = obs.push(
                            ReplyObs { text: t, terminal: Option::None, subs: Seq::empty() },
                        );
                        assert(obs.drop_last() =~= obs_before);
                    }
                    match deeper_action(my_turn, false) {
                        ReplyAction::Abort => {
                            position.undo_move(undo);
                            return (Vec::new(), Ghost((my_turn, obs)));
                        },
                        _ => {},
                    }
                }
            },
        }
        position.undo_move(undo);
        i = i + 1;
    }
    (result, Ghost((my_turn, obs)))
}

/// The iterative deepening driver of the enumerator: tries depths 1, 2,
/// ... up to `max_depth`. The per-depth forests are returned as a ghost
/// witness, in depth order, and the result is exactly their fold: every
/// depth before the last found nothing, so a reported find carries the
/// first — minimal — depth with any forced-win line, which is the
/// record's length, and that depth's forest; `None` means every depth
/// up to the ceiling came back empty.
pub fn iddf_tinue_search<P: GamePosition>(
    position: &mut P,
    max_depth: u32,
    me: Player,
    stop_at_first: bool,
) -> (r: (Option<SearchResult>, Ghost<Seq<Seq<TinueMove>>>))
    requires
        max_depth < u32::MAX,
    ensures
        ({
            let outs = r.1@;
            &&& outs.len() <= max_depth as int
            &&& (forall|i: int| 0 <= i < outs.len() - 1 ==> (#[trigger] outs[i]).len() == 0)
            &&& match r.0 {
                Option::Some(sr) => {
                    &&& 1 <= sr.depth <= max_depth
                    &&& sr.depth as int == outs.len()
                    &&& sr.result@ == outs.last()
                    &&& outs.last().len() > 0
                    &&& forest_within(sr.result@, sr.depth as int)
                },
                Option::None => outs.len() == max_depth as int && (forall|i: int|
                    0 <= i < outs.len() ==> (#[trigger] outs[i]).len() == 0),
            }
        }),
{
    let ghost mut outs: Seq<Seq<TinueMove>> = Seq::empty();
    let mut d: u32 = 1;
    while d <= max_depth
        invariant
            1 <= d,
            max_depth < u32::MAX,
            d as int <= max_depth as int + 1,
            d as int == outs.len() + 1,
            forall|i: int| 0 <= i < outs.len() ==> (#[trigger] outs[i]).len() == 0,
        decreases max_depth as int + 1 - d,
    {
        let (forest, _) = enumerate_tinue(position, d, me, stop_at_first);
        proof {
            outs = outs.push(forest@);
        }
        if forest.len() > 0 {
            return (Option::Some(SearchResult { depth: d, result: forest }), Ghost(outs));
        }
        d = d + 1;
    }
    (Option::None, Ghost(outs))
}

} // verus!

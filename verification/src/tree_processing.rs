//! Post-processing of enumerated forced-win trees: collapsing sibling
//! moves that share identical continuations into grouped form, and
//! extracting a single longest representative line out of a possibly
//! exponential tree.

use vstd::prelude::*;

use crate::alpha_beta::imax;
use crate::tinue_enumeration::{
    forest_plies, lemma_forest_plies_nonneg, lemma_tree_plies_pos, tree_plies, TinueMove,
};

verus! {

/// Sibling moves that share byte-for-byte identical continuation
/// subtrees, grouped: the moves in their original order of first
/// occurrence, and the single shared continuation list (empty for a
/// terminal win). This nesting of `moves` and `solutions` is the wire
/// shape the downstream serializer depends on.
#[derive(Debug, PartialEq, Eq)]
pub struct TinueMoveOptions {
    /// The grouped sibling moves, in text form.
    pub moves: Vec<String>,
    /// The continuation groups the siblings share.
    pub solutions: Vec<TinueMoveOptions>,
}

/// The texts of a list of strings, as sequences of characters.
pub open spec fn texts_view(v: Seq<String>) -> Seq<Seq<char>> {
    v.map_values(|s: String| s@)
}

/// The texts of the root moves of a forest of forced-win trees, in order.
pub open spec fn forest_texts(s: Seq<TinueMove>) -> Seq<Seq<char>> {
    s.map_values(|t: TinueMove| t.mv@)
}

/// Structural equality of two groups: the same move texts and
/// structurally equal continuations.
pub open spec fn group_eq(a: TinueMoveOptions, b: TinueMoveOptions) -> bool
    decreases a,
{
    texts_view(a.moves@) == texts_view(b.moves@) && groups_eq(a.solutions@, b.solutions@)
}

/// Structural equality of two grouped continuation lists, element for
/// element.
pub open spec fn groups_eq(a: Seq<TinueMoveOptions>, b: Seq<TinueMoveOptions>) -> bool
    decreases a,
{
    a.len() == b.len() && (forall|i: int| 0 <= i < a.len() ==> group_eq(#[trigger] a[i], b[i]))
}

/// The move texts a grouped forest holds, flattened in order.
pub open spec fn groups_flat_texts(out: Seq<TinueMoveOptions>) -> Seq<Seq<char>>
    decreases out,
{
    if out.len() == 0 {
        Seq::empty()
    } else {
        groups_flat_texts(out.drop_last()) + texts_view(out.last().moves@)
    }
}

/// A grouped forest is well formed: every group holds at least one move
/// and well-formed continuations, and no two adjacent groups share their
/// continuations — the grouping pass merges only consecutive siblings,
/// so adjacent groups with equal continuations would mean an unfinished
/// merge.
pub open spec fn wf_grouped(out: Seq<TinueMoveOptions>) -> bool
    decreases out,
{
    (forall|i: int|
        0 <= i < out.len() ==> (#[trigger] out[i]).moves@.len() >= 1 && wf_grouped(
            out[i].solutions@,
        )) && (forall|i: int|
        0 <= i && i + 1 < out.len() ==> !groups_eq(
            (#[trigger] out[i]).solutions@,
            out[i + 1].solutions@,
        ))
}

/// Decides structural equality of two groups.
pub fn options_eq(a: &TinueMoveOptions, b: &TinueMoveOptions) -> (r: bool)
    ensures
        r == group_eq(*a, *b),
    decreases *a,
{
    if a.moves.len() != b.moves.len() {
        assert(texts_view(a.moves@).len() != texts_view(b.moves@).len());
        return false;
    }
    let mut i: usize = 0;
    while i < a.moves.len()
        invariant
            a.moves@.len() == b.moves@.len(),
            i <= a.moves@.len(),
            forall|j: int| 0 <= j < i ==> a.moves@[j]@ == b.moves@[j]@,
        decreases a.moves@.len() - i,
    {
        if !(a.moves[i] == b.moves[i]) {
            assert(texts_view(a.moves@)[i as int] != texts_view(b.moves@)[i as int]);
            return false;
        }
        i = i + 1;
    }
    assert(texts_view(a.moves@) =~= texts_view(b.moves@));
    if a.solutions.len() != b.solutions.len() {
        return false;
    }
    let mut k: usize = 0;
    while k < a.solutions.len()
        invariant
            a.solutions@.len() == b.solutions@.len(),
            k <= a.solutions@.len(),
            texts_view(a.moves@) == texts_view(b.moves@),
            forall|j: int| 0 <= j < k ==> group_eq(#[trigger] a.solutions@[j], b.solutions@[j]),
        decreases a.solutions@.len() - k,
    {
        if !options_eq(&a.solutions[k], &b.solutions[k]) {
            return false;
        }
        k = k + 1;
    }
    true
}

/// Decides structural equality of two grouped continuation lists.
pub fn options_list_eq(a: &Vec<TinueMoveOptions>, b: &Vec<TinueMoveOptions>) -> (r: bool)
    ensures
        r == groups_eq(a@, b@),
{
    if a.len() != b.len() {
        return false;
    }
    let mut k: usize = 0;
    while k < a.len()
        invariant
            a@.len() == b@.len(),
            k <= a@.len(),
            forall|j: int| 0 <= j < k ==> group_eq(#[trigger] a@[j], b@[j]),
        decreases a@.len() - k,
    {
        if !options_eq(&a[k], &b[k]) {
            return false;
        }
        k = k + 1;
    }
    true
}

/// The node's continuations, grouped, are exactly `sols`: a terminal
/// win has none, so its `sols` must be empty.
pub open spec fn member_matches(t: TinueMove, sols: Seq<TinueMoveOptions>) -> bool
    decreases t,
{
    match t.solutions {
        Option::None => sols.len() == 0,
        Option::Some(subs) => is_grouping(subs@, sols),
    }
}

/// `out` partitions the sibling list `inp`, in order, into consecutive
/// runs: each group's `moves` are the texts of the run's members, and
/// each member's recursively grouped continuations are the group's
/// `solutions`. Together with `wf_grouped` — no empty group, no two
/// adjacent groups sharing continuations, so every run is maximal —
/// this pins the grouped form of a forest down.
pub open spec fn is_grouping(inp: Seq<TinueMove>, out: Seq<TinueMoveOptions>) -> bool
    decreases inp,
{
    if out.len() == 0 {
        inp.len() == 0
    } else {
        exists|k: int|
            {
                &&& 1 <= k <= inp.len()
                &&& texts_view(out[0].moves@) == forest_texts(#[trigger] inp.take(k))
                &&& forall|j: int|
                    0 <= j < k ==> member_matches(#[trigger] inp[j], out[0].solutions@)
                &&& is_grouping(inp.skip(k), out.drop_first())
            }
    }
}

/// Structural equality of groups is symmetric.
proof fn lemma_group_eq_sym(x: TinueMoveOptions, y: TinueMoveOptions)
    requires
        group_eq(x, y),
    ensures
        group_eq(y, x),
    decreases x,
{
    assert forall|i: int| 0 <= i < y.solutions@.len() implies group_eq(
        #[trigger] y.solutions@[i],
        x.solutions@[i],
    ) by {
        lemma_group_eq_sym(x.solutions@[i], y.solutions@[i]);
    }
}

/// Structural equality of grouped lists is symmetric.
proof fn lemma_groups_eq_sym(a: Seq<TinueMoveOptions>, b: Seq<TinueMoveOptions>)
    requires
        groups_eq(a, b),
    ensures
        groups_eq(b, a),
{
    assert forall|i: int| 0 <= i < b.len() implies group_eq(#[trigger] b[i], a[i]) by {
        lemma_group_eq_sym(a[i], b[i]);
    }
}

/// Being a grouping is invariant under structural equality of the
/// grouped side.
proof fn lemma_is_grouping_respects_eq(
    inp: Seq<TinueMove>,
    s1: Seq<TinueMoveOptions>,
    s2: Seq<TinueMoveOptions>,
)
    requires
        is_grouping(inp, s1),
        groups_eq(s1, s2),
    ensures
        is_grouping(inp, s2),
    decreases inp,
{
    if s1.len() == 0 {
    } else {
        let k = choose|k: int|
            {
                &&& 1 <= k <= inp.len()
                &&& texts_view(s1[0].moves@) == forest_texts(#[trigger] inp.take(k))
                &&& forall|j: int|
                    0 <= j < k ==> member_matches(#[trigger] inp[j], s1[0].solutions@)
                &&& is_grouping(inp.skip(k), s1.drop_first())
            };
        assert(group_eq(s1[0], s2[0]));
        assert forall|j: int|
            0 <= j < k implies member_matches(#[trigger] inp[j], s2[0].solutions@) by {
            if inp[j].solutions is Some {
                lemma_is_grouping_respects_eq(
                    inp[j].solutions->0@,
                    s1[0].solutions@,
                    s2[0].solutions@,
                );
            }
        }
        assert(groups_eq(s1.drop_first(), s2.drop_first())) by {
            assert forall|i: int| 0 <= i < s1.drop_first().len() implies group_eq(
                #[trigger] s1.drop_first()[i],
                s2.drop_first()[i],
            ) by {
                assert(s1.drop_first()[i] == s1[i + 1]);
                assert(s2.drop_first()[i] == s2[i + 1]);
            }
        }
        lemma_is_grouping_respects_eq(inp.skip(k), s1.drop_first(), s2.drop_first());
        assert(texts_view(s2[0].moves@) == forest_texts(inp.take(k)));
    }
}

/// A grouping absorbs one more sibling into its last group, provided
/// the sibling's grouped continuations are the group's.
proof fn lemma_grouping_snoc_merge(
    inp: Seq<TinueMove>,
    out: Seq<TinueMoveOptions>,
    x: TinueMove,
    g2: TinueMoveOptions,
)
    requires
        is_grouping(inp, out),
        out.len() >= 1,
        member_matches(x, out.last().solutions@),
        g2.solutions == out.last().solutions,
        texts_view(g2.moves@) == texts_view(out.last().moves@).push(x.mv@),
    ensures
        is_grouping(inp.push(x), out.drop_last().push(g2)),
    decreases out.len(),
{
    let k = choose|k: int|
        {
            &&& 1 <= k <= inp.len()
            &&& texts_view(out[0].moves@) == forest_texts(#[trigger] inp.take(k))
            &&& forall|j: int|
                0 <= j < k ==> member_matches(#[trigger] inp[j], out[0].solutions@)
            &&& is_grouping(inp.skip(k), out.drop_first())
        };
    let inp2 = inp.push(x);
    let out2 = out.drop_last().push(g2);
    if out.len() == 1 {
        // the single group covers all of the input
        assert(inp.skip(k).len() == 0);
        let k2 = inp2.len() as int;
        assert(out2 =~= seq![g2]);
        assert(inp2.take(k2) =~= inp.take(k).push(x));
        assert(forest_texts(inp2.take(k2)) =~= forest_texts(inp.take(k)).push(x.mv@));
        assert(texts_view(out2[0].moves@) == forest_texts(inp2.take(k2)));
        assert forall|j: int| 0 <= j < k2 implies member_matches(
            #[trigger] inp2[j],
            out2[0].solutions@,
        ) by {
            if j < k {
                assert(inp2[j] == inp[j]);
            } else {
                assert(inp2[j] == x);
            }
        }
        assert(inp2.skip(k2) =~= Seq::<TinueMove>::empty());
        assert(out2.drop_first() =~= Seq::<TinueMoveOptions>::empty());
        assert(is_grouping(Seq::<TinueMove>::empty(), Seq::<TinueMoveOptions>::empty()));
        assert(exists|k: int|
            {
                &&& 1 <= k <= inp2.len()
                &&& texts_view(out2[0].moves@) == forest_texts(#[trigger] inp2.take(k))
                &&& forall|j: int|
                    0 <= j < k ==> member_matches(#[trigger] inp2[j], out2[0].solutions@)
                &&& is_grouping(inp2.skip(k), out2.drop_first())
            });
    } else {
        assert(k < inp.len()) by {
            assert(out.drop_first().len() >= 1);
            assert(inp.skip(k).len() >= 1);
        }
        assert(out.drop_first().last() == out.last());
        lemma_grouping_snoc_merge(inp.skip(k), out.drop_first(), x, g2);
        assert(out2[0] == out[0]);
        assert(inp2.take(k) =~= inp.take(k));
        assert forall|j: int| 0 <= j < k implies member_matches(
            #[trigger] inp2[j],
            out2[0].solutions@,
        ) by {
            assert(inp2[j] == inp[j]);
        }
        assert(inp2.skip(k) =~= inp.skip(k).push(x));
        assert(out2.drop_first() =~= out.drop_first().drop_last().push(g2));
        assert(texts_view(out2[0].moves@) == forest_texts(inp2.take(k)));
        assert(exists|k: int|
            {
                &&& 1 <= k <= inp2.len()
                &&& texts_view(out2[0].moves@) == forest_texts(#[trigger] inp2.take(k))
                &&& forall|j: int|
                    0 <= j < k ==> member_matches(#[trigger] inp2[j], out2[0].solutions@)
                &&& is_grouping(inp2.skip(k), out2.drop_first())
            });
    }
    assert(is_grouping(inp2, out2));
}

/// A grouping takes one more sibling as a new group of its own.
proof fn lemma_grouping_snoc_new(
    inp: Seq<TinueMove>,
    out: Seq<TinueMoveOptions>,
    x: TinueMove,
    g: TinueMoveOptions,
)
    requires
        is_grouping(inp, out),
        member_matches(x, g.solutions@),
        texts_view(g.moves@) == seq![x.mv@],
    ensures
        is_grouping(inp.push(x), out.push(g)),
    decreases out.len(),
{
    let inp2 = inp.push(x);
    let out2 = out.push(g);
    if out.len() == 0 {
        assert(inp.len() == 0);
        assert(inp2.take(1) =~= seq![x]);
        assert(forest_texts(inp2.take(1)) =~= seq![x.mv@]);
        assert(texts_view(out2[0].moves@) == forest_texts(inp2.take(1)));
        assert(inp2[0] == x);
        assert(inp2.skip(1) =~= Seq::<TinueMove>::empty());
        assert(out2.drop_first() =~= Seq::<TinueMoveOptions>::empty());
        assert(is_grouping(inp2.skip(1), out2.drop_first()));
    } else {
        let k = choose|k: int|
            {
                &&& 1 <= k <= inp.len()
                &&& texts_view(out[0].moves@) == forest_texts(#[trigger] inp.take(k))
                &&& forall|j: int|
                    0 <= j < k ==> member_matches(#[trigger] inp[j], out[0].solutions@)
                &&& is_grouping(inp.skip(k), out.drop_first())
            };
        lemma_grouping_snoc_new(inp.skip(k), out.drop_first(), x, g);
        assert(out2[0] == out[0]);
        assert(inp2.take(k) =~= inp.take(k));
        assert forall|j: int| 0 <= j < k implies member_matches(
            #[trigger] inp2[j],
            out2[0].solutions@,
        ) by {
            assert(inp2[j] == inp[j]);
        }
        assert(inp2.skip(k) =~= inp.skip(k).push(x));
        assert(out2.drop_first() =~= out.drop_first().push(g));
        assert(texts_view(out2[0].moves@) == forest_texts(inp2.take(k)));
    }
}

/// A well-formed grouped forest stays well formed when a new group is
/// appended whose continuations differ from the last group's.
proof fn lemma_wf_push(out: Seq<TinueMoveOptions>, g: TinueMoveOptions)
    requires
        wf_grouped(out),
        g.moves@.len() >= 1,
        wf_grouped(g.solutions@),
        out.len() > 0 ==> !groups_eq(out.last().solutions@, g.solutions@),
    ensures
        wf_grouped(out.push(g)),
{
    let out2 = out.push(g);
    assert forall|i: int|
        0 <= i < out2.len() implies (#[trigger] out2[i]).moves@.len() >= 1 && wf_grouped(
        out2[i].solutions@,
    ) by {
        if i < out.len() {
            assert(out2[i] == out[i]);
        } else {
            assert(out2[i] == g);
        }
    }
    assert forall|i: int|
        0 <= i && i + 1 < out2.len() implies !groups_eq(
        (#[trigger] out2[i]).solutions@,
        out2[i + 1].solutions@,
    ) by {
        if i + 1 < out.len() {
            assert(out2[i] == out[i]);
            assert(out2[i + 1] == out[i + 1]);
        } else {
            assert(out2[i] == out.last());
            assert(out2[i + 1] == g);
        }
    }
}

/// A well-formed grouped forest stays well formed when its last group
/// takes another move, its continuations unchanged.
proof fn lemma_wf_merge(out: Seq<TinueMoveOptions>, g2: TinueMoveOptions)
    requires
        wf_grouped(out),
        out.len() > 0,
        g2.moves@.len() >= 1,
        g2.solutions == out.last().solutions,
    ensures
        wf_grouped(out.drop_last().push(g2)),
{
    let out2 = out.drop_last().push(g2);
    assert(out.last() == out[out.len() - 1]);
    assert forall|i: int|
        0 <= i < out2.len() implies (#[trigger] out2[i]).moves@.len() >= 1 && wf_grouped(
        out2[i].solutions@,
    ) by {
        if i < out.len() - 1 {
            assert(out2[i] == out[i]);
        } else {
            assert(out2[i] == g2);
            assert(g2.solutions@ == out.last().solutions@);
        }
    }
    assert forall|i: int|
        0 <= i && i + 1 < out2.len() implies !groups_eq(
        (#[trigger] out2[i]).solutions@,
        out2[i + 1].solutions@,
    ) by {
        if i + 1 < out.len() - 1 {
            assert(out2[i] == out[i]);
            assert(out2[i + 1] == out[i + 1]);
        } else {
            assert(out2[i] == out[i]);
            assert(out2[i + 1] == g2);
            assert(g2.solutions@ == out[i + 1].solutions@);
        }
    }
}

/// Collapses a sibling list of forced-win trees into grouped form: each
/// node's continuations are grouped recursively, then maximal runs of
/// consecutive siblings whose grouped continuations are structurally
/// equal are merged into one group. Grouping merges consecutive siblings
/// only — a deliberate, order-sensitive simplification of a single
/// linear partition pass, not a full equivalence-class merge.
///
/// Every move text of the input is kept, in order; the result is the
/// grouping of the input — `is_grouping` pairs each run of siblings
/// with its shared continuations — and is well formed: no group is
/// empty and no two adjacent groups share their continuations.
pub fn group_moves(nodes: Vec<TinueMove>) -> (r: Vec<TinueMoveOptions>)
    ensures
        groups_flat_texts(r@) == forest_texts(nodes@),
        wf_grouped(r@),
        is_grouping(nodes@, r@),
    decreases nodes,
{
    let mut rest = nodes;
    let mut out: Vec<TinueMoveOptions> = Vec::new();
    proof {
        assert(rest@ =~= nodes@.subrange(0, nodes@.len() as int));
        assert(groups_flat_texts(out@) =~= forest_texts(nodes@).take(0));
        assert(nodes@.take(0) =~= Seq::<TinueMove>::empty());
    }
    while rest.len() > 0
        invariant
            rest@.len() <= nodes@.len(),
            rest@ =~= nodes@.subrange(
                nodes@.len() - rest@.len(),
                nodes@.len() as int,
            ),
            groups_flat_texts(out@) =~= forest_texts(nodes@).take(
                nodes@.len() - rest@.len(),
            ),
            wf_grouped(out@),
            is_grouping(nodes@.take(nodes@.len() - rest@.len()), out@),
        decreases rest@.len(),
    {
        let ghost j = nodes@.len() - rest@.len();
        let node = rest.remove(0);
        let ghost node0 = node;
        proof {
            assert(node == nodes@[j]);
            assert(rest@ =~= nodes@.subrange(j + 1, nodes@.len() as int));
        }
        let grouped_subs = match node.solutions {
            Option::Some(v) => {
                proof {
                    assert(decreases_to!(nodes => v));
                }
                let gs = group_moves(v);
                proof {
                    assert(member_matches(node0, gs@));
                }
                gs
            },
            Option::None => {
                let gs: Vec<TinueMoveOptions> = Vec::new();
                proof {
                    assert(member_matches(node0, gs@));
                }
                gs
            },
        };
        let ghost out_before = out@;
        let can_merge = if out.len() > 0 {
            let last_idx = out.len() - 1;
            options_list_eq(&out[last_idx].solutions, &grouped_subs)
        } else {
            false
        };
        if can_merge {
            let mut g = match out.pop() {
                Option::Some(g) => g,
                Option::None => {
                    // unreachable: `can_merge` required a last group
                    TinueMoveOptions { moves: Vec::new(), solutions: Vec::new() }
                },
            };
            let ghost g_before = g;
            g.moves.push(node.mv);
            proof {
                assert(texts_view(g.moves@) =~= texts_view(g_before.moves@).push(node.mv@));
                assert(out@.push(g).drop_last() =~= out@);
                lemma_wf_merge(out_before, g);
            }
            out.push(g);
            proof {
                assert(out@ =~= out_before.drop_last().push(g));
                assert(groups_flat_texts(out@) =~= groups_flat_texts(out_before.drop_last())
                    + texts_view(g_before.moves@) + seq![node.mv@]);
                assert(groups_flat_texts(out_before) == groups_flat_texts(out_before.drop_last())
                    + texts_view(out_before.last().moves@));
                assert(groups_flat_texts(out@) =~= groups_flat_texts(out_before) + seq![
                    node.mv@,
                ]);
                assert(forest_texts(nodes@).take(j + 1) =~= forest_texts(nodes@).take(j) + seq![
                    node.mv@,
                ]);
                lemma_groups_eq_sym(out_before.last().solutions@, grouped_subs@);
                if node0.solutions is Some {
                    lemma_is_grouping_respects_eq(
                        node0.solutions->0@,
                        grouped_subs@,
                        out_before.last().solutions@,
                    );
                }
                assert(member_matches(node0, out_before.last().solutions@));
                assert(g.solutions == out_before.last().solutions);
                assert(texts_view(g.moves@) == texts_view(out_before.last().moves@).push(
                    node0.mv@,
                ));
                lemma_grouping_snoc_merge(nodes@.take(j), out_before, node0, g);
                assert(nodes@.take(j + 1) =~= nodes@.take(j).push(node0));
            }
        } else {
            let mut mvs: Vec<String> = Vec::new();
            mvs.push(node.mv);
            let g = TinueMoveOptions { moves: mvs, solutions: grouped_subs };
            proof {
                assert(texts_view(g.moves@) =~= seq![node.mv@]);
                assert(out@.push(g).drop_last() =~= out@);
                lemma_wf_push(out_before, g);
            }
            out.push(g);
            proof {
                assert(groups_flat_texts(out@) =~= groups_flat_texts(out_before) + seq![
                    node.mv@,
                ]);
                assert(forest_texts(nodes@).take(j + 1) =~= forest_texts(nodes@).take(j) + seq![
                    node.mv@,
                ]);
                lemma_grouping_snoc_new(nodes@.take(j), out_before, node0, g);
                assert(nodes@.take(j + 1) =~= nodes@.take(j).push(node0));
            }
        }
    }
    proof {
        assert(forest_texts(nodes@).take(nodes@.len() as int) =~= forest_texts(nodes@));
        assert(nodes@.take(nodes@.len() as int) =~= nodes@);
    }
    out
}

/// One link of the singly linked list that carries an extracted line of
/// play: a move text and the rest of the line.
#[derive(Debug, PartialEq, Eq)]
pub struct MoveList {
    /// The move, in text form.
    pub mv: String,
    /// The rest of the line; `None` at the final move.
    pub next: Option<Box<MoveList>>,
}

/// The move texts a line holds, in playing order.
pub open spec fn move_list_texts(l: MoveList) -> Seq<Seq<char>>
    decreases l,
{
    match l.next {
        Option::None => seq![l.mv@],
        Option::Some(b) => seq![l.mv@] + move_list_texts(*b),
    }
}

/// A forest is at least as deep as each of its trees.
pub proof fn lemma_forest_plies_ge_elem(s: Seq<TinueMove>, i: int)
    requires
        0 <= i < s.len(),
    ensures
        forest_plies(s) >= tree_plies(s[i]),
    decreases s,
{
    if i == 0 {
        lemma_forest_plies_nonneg(s.drop_first());
    } else {
        assert(s.drop_first()[i - 1] == s[i]);
        lemma_forest_plies_ge_elem(s.drop_first(), i - 1);
    }
}

/// Appending a tree to a forest deepens it to the larger of the two
/// depths.
pub proof fn lemma_forest_plies_snoc(s: Seq<TinueMove>, t: TinueMove)
    ensures
        forest_plies(s.push(t)) == imax(forest_plies(s), tree_plies(t)),
    decreases s,
{
    lemma_tree_plies_pos(t);
    if s.len() == 0 {
        assert(s.push(t).drop_first() =~= Seq::<TinueMove>::empty());
        assert(s.push(t)[0] == t);
        assert(forest_plies(Seq::<TinueMove>::empty()) == 0);
    } else {
        assert(s.push(t)[0] == s[0]);
        assert(s.push(t).drop_first() =~= s.drop_first().push(t));
        lemma_forest_plies_snoc(s.drop_first(), t);
    }
}

/// The texts trace an actual line of play through the tree, from the
/// root downward: the root's move first, then a line of one of its
/// continuations.
pub open spec fn line_in_tree(l: Seq<Seq<char>>, t: TinueMove) -> bool
    decreases t,
{
    l.len() >= 1 && l[0] == t.mv@ && (l.len() == 1 || match t.solutions {
        Option::None => false,
        Option::Some(subs) => exists|i: int|
            0 <= i < subs@.len() && line_in_tree(l.drop_first(), #[trigger] subs@[i]),
    })
}

/// Extracts the longest line of a forced-win tree: the current move
/// followed, recursively, by the longest line among the continuations,
/// preferring the earlier continuation on ties; paired with the line's
/// length. The extracted texts trace a real line of play through the
/// tree, and their number equals the tree's depth in plies, so a tree
/// `k` plies deep always yields a line of exactly `k` moves.
pub fn get_longest_sequence(t: &TinueMove) -> (r: (MoveList, u32))
    requires
        tree_plies(*t) <= u32::MAX,
    ensures
        r.1 as int == tree_plies(*t),
        move_list_texts(r.0).len() == tree_plies(*t),
        move_list_texts(r.0)[0] == t.mv@,
        line_in_tree(move_list_texts(r.0), *t),
    decreases tree_plies(*t),
{
    proof {
        lemma_tree_plies_pos(*t);
    }
    match &t.solutions {
        Option::None => (MoveList { mv: t.mv.clone(), next: Option::None }, 1),
        Option::Some(subs) => {
            if subs.len() == 0 {
                (MoveList { mv: t.mv.clone(), next: Option::None }, 1)
            } else {
                proof {
                    lemma_forest_plies_ge_elem(subs@, 0);
                    lemma_tree_plies_pos(subs@[0]);
                    assert(subs@.take(1) =~= Seq::<TinueMove>::empty().push(subs@[0]));
                    lemma_forest_plies_snoc(Seq::<TinueMove>::empty(), subs@[0]);
                }
                let mut best = get_longest_sequence(&subs[0]);
                let ghost mut best_idx: int = 0;
                let mut i: usize = 1;
                while i < subs.len()
                    invariant
                        1 <= i <= subs@.len(),
                        forest_plies(subs@) <= u32::MAX - 1,
                        tree_plies(*t) == 1 + forest_plies(subs@),
                        best.1 as int == forest_plies(subs@.take(i as int)),
                        move_list_texts(best.0).len() == best.1 as int,
                        1 <= best.1,
                        0 <= best_idx < subs@.len(),
                        line_in_tree(move_list_texts(best.0), subs@[best_idx]),
                    decreases subs@.len() - i,
                {
                    proof {
                        lemma_forest_plies_ge_elem(subs@, i as int);
                        lemma_tree_plies_pos(subs@[i as int]);
                    }
                    let cand = get_longest_sequence(&subs[i]);
                    proof {
                        assert(subs@.take(i + 1) =~= subs@.take(i as int).push(subs@[i as int]));
                        lemma_forest_plies_snoc(subs@.take(i as int), subs@[i as int]);
                    }
                    if cand.1 > best.1 {
                        best = cand;
                        proof {
                            best_idx = i as int;
                        }
                    }
                    i = i + 1;
                }
                proof {
                    assert(subs@.take(subs@.len() as int) =~= subs@);
                }
                let line = MoveList { mv: t.mv.clone(), next: Option::Some(Box::new(best.0)) };
                proof {
                    assert(move_list_texts(line).drop_first() =~= move_list_texts(best.0));
                }
                (line, best.1 + 1)
            }
        },
    }
}

/// Turns an extracted line into the flat list of its move texts, in
/// playing order and of the same length.
pub fn move_list_to_vec(list: &MoveList) -> (r: Vec<String>)
    ensures
        texts_view(r@) == move_list_texts(*list),
        r@.len() == move_list_texts(*list).len(),
    decreases *list,
{
    let mut out: Vec<String> = Vec::new();
    out.push(list.mv.clone());
    match &list.next {
        Option::None => {},
        Option::Some(b) => {
            let mut tail = move_list_to_vec(b);
            out.append(&mut tail);
        },
    }
    proof {
        assert(texts_view(out@) =~= move_list_texts(*list));
    }
    out
}

} // verus!

//! What holds of the post-order walk of a tree.
use vstd::prelude::*;
use vstd::seq_lib::lemma_multiset_commutative;
use crate::tree::{
    What, forest_nodes, lemma_child_forest_decreases, node_at, post_forest, post_order,
    subtree_nodes, valid_path,
};

verus! {

/// The walk of a non-empty forest starts with the walk of its first tree.
pub proof fn lemma_post_forest_first<'a>(s: Seq<What<'a>>)
    requires
        s.len() > 0,
    ensures
        post_forest(s) == post_order(s[0]) + post_forest(s.drop_first()),
{
    assert(s.drop_first() == s.subrange(1, s.len() as int));
}

/// The walk of two forests side by side is the walk of the first, then of the second.
pub proof fn lemma_post_forest_append<'a>(s: Seq<What<'a>>, t: Seq<What<'a>>)
    ensures
        post_forest(s + t) == post_forest(s) + post_forest(t),
    decreases s.len(),
{
    if s.len() == 0 {
        assert(s + t =~= t);
        assert(post_forest(s) + post_forest(t) =~= post_forest(t));
    } else {
        lemma_post_forest_append(s.drop_first(), t);
        lemma_post_forest_first(s);
        lemma_post_forest_first(s + t);
        assert((s + t).drop_first() =~= s.drop_first() + t);
        assert((s + t)[0] == s[0]);
        assert(post_forest(s + t) =~= post_forest(s) + post_forest(t));
    }
}

/// The walk of the `i`-th tree of a forest is one run inside the walk of the
/// forest, after the walks of the trees before it.
proof fn lemma_forest_block<'a>(s: Seq<What<'a>>, i: int) -> (o: int)
    requires
        0 <= i < s.len(),
    ensures
        o == post_forest(s.take(i)).len(),
        o + post_order(s[i]).len() <= post_forest(s).len(),
        post_forest(s).subrange(o, o + post_order(s[i]).len()) == post_order(s[i]),
{
    assert(s =~= s.take(i) + s.skip(i));
    lemma_post_forest_append(s.take(i), s.skip(i));
    lemma_post_forest_first(s.skip(i));
    let o = post_forest(s.take(i)).len() as int;
    let w = post_order(s[i]);
    assert(post_forest(s).subrange(o, o + w.len()) =~= w);
    o
}

proof fn lemma_forest_complete<'a>(s: Seq<What<'a>>)
    ensures
        post_forest(s).to_multiset() == forest_nodes(s),
    decreases s,
{
    broadcast use vstd::seq_lib::group_to_multiset_ensures;

    if s.len() > 0 {
        let kids = s[0].children_view();
        let rest = s.subrange(1, s.len() as int);
        lemma_child_forest_decreases(s, 0);
        lemma_forest_complete(kids);
        lemma_forest_complete(rest);
        lemma_multiset_commutative(post_forest(kids) + seq![s[0]], post_forest(rest));
        lemma_multiset_commutative(post_forest(kids), seq![s[0]]);
        assert(seq![s[0]] =~= Seq::<What<'a>>::empty().push(s[0]));
        assert(post_forest(s).to_multiset() =~= forest_nodes(s));
    } else {
        assert(post_forest(s).to_multiset() =~= forest_nodes(s));
    }
}

/// The walk of a tree yields each of its nodes exactly as often as it occurs
/// in the tree: none is missed and none repeated, so the walk is as long as
/// the tree has nodes.
pub proof fn lemma_post_order_complete<'a>(n: What<'a>)
    ensures
        post_order(n).to_multiset() == subtree_nodes(n),
        post_order(n).len() == subtree_nodes(n).len(),
{
    broadcast use vstd::seq_lib::group_to_multiset_ensures;

    lemma_forest_complete(n.children_view());
    assert(post_order(n) == post_forest(n.children_view()).push(n));
}

/// The walk of any subtree stands in the walk of the whole tree as one
/// unbroken run: a node's subtree is not interleaved with any other node.
pub proof fn lemma_subtree_contiguous<'a>(n: What<'a>, p: Seq<int>) -> (o: int)
    requires
        valid_path(n, p),
    ensures
        0 <= o,
        o + post_order(node_at(n, p)).len() <= post_order(n).len(),
        post_order(n).subrange(o, o + post_order(node_at(n, p)).len()) == post_order(
            node_at(n, p),
        ),
    decreases p.len(),
{
    if p.len() == 0 {
        assert(post_order(n).subrange(0, post_order(n).len() as int) =~= post_order(n));
        0
    } else {
        let kids = n.children_view();
        let c = kids[p[0]];
        let x = node_at(n, p);
        let o1 = lemma_forest_block(kids, p[0]);
        let o2 = lemma_subtree_contiguous(c, p.drop_first());
        let wc = post_order(c);
        let wx = post_order(x);
        assert(post_order(n).subrange(o1, o1 + wc.len()) =~= wc);
        assert(post_order(n).subrange(o1 + o2, o1 + o2 + wx.len()) =~= wc.subrange(
            o2,
            o2 + wx.len(),
        ));
        o1 + o2
    }
}

/// In the walk of the whole tree, every node under any child of a node comes
/// strictly before that node: `r.0` is where the node stands, and the walk of
/// the child's subtree fills the run that starts at `r.1`.
pub proof fn lemma_descendants_precede<'a>(n: What<'a>, p: Seq<int>, i: int) -> (r: (int, int))
    requires
        valid_path(n, p),
        0 <= i < node_at(n, p).children_view().len(),
    ensures
        post_order(n)[r.0] == node_at(n, p),
        0 <= r.1,
        r.1 + post_order(node_at(n, p).children_view()[i]).len() <= r.0 < post_order(n).len(),
        post_order(n).subrange(r.1, r.1 + post_order(node_at(n, p).children_view()[i]).len())
            == post_order(node_at(n, p).children_view()[i]),
{
    let x = node_at(n, p);
    let wx = post_order(x);
    let c = x.children_view()[i];
    let wc = post_order(c);
    let o = lemma_subtree_contiguous(n, p);
    let o1 = lemma_forest_block(x.children_view(), i);
    assert(post_order(n)[o + wx.len() - 1] == post_order(n).subrange(o, o + wx.len())[wx.len()
        - 1]);
    assert(wx.subrange(o1, o1 + wc.len()) =~= wc);
    assert(post_order(n).subrange(o + o1, o + o1 + wc.len()) =~= wx.subrange(o1, o1 + wc.len()));
    (o + wx.len() - 1, o + o1)
}

} // verus!

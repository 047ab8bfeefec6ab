//! A labelled, ordered tree whose nodes own their children.
use vstd::multiset::Multiset;
use vstd::prelude::*;

verus! {

/// One node of the tree: a label and the ordered children it owns.
#[derive(Debug, Default)]
pub struct What<'a> {
    name: &'a str,
    children: Vec<What<'a>>,
}

impl<'a> What<'a> {
    /// The direct children, in insertion order.
    pub closed spec fn children_view(&self) -> Seq<What<'a>> {
        self.children@
    }

    /// The label.
    pub closed spec fn name_view(&self) -> Seq<char> {
        self.name@
    }

    pub open spec fn is_leaf(&self) -> bool {
        self.children_view().len() == 0
    }

    /// Makes a leaf labelled `name`.
    pub fn new(name: &'a str) -> (r: Self)
        ensures
            r.name_view() == name@,
            r.children_view() == Seq::<What<'a>>::empty(),
    {
        What { name, children: Vec::new() }
    }

    /// Appends `child`, with its whole subtree, as the last direct child.
    pub fn add(&mut self, child: What<'a>)
        ensures
            final(self).name_view() == old(self).name_view(),
            final(self).children_view() == old(self).children_view().push(child),
    {
        self.children.push(child);
    }

    pub fn has_children(&self) -> (r: bool)
        ensures
            r == !self.is_leaf(),
    {
        self.children.len() > 0
    }

    pub fn name(&self) -> (r: &str)
        ensures
            r@ == self.name_view(),
    {
        self.name
    }

    /// A cursor over the direct children.
    pub fn iter(&'a self) -> (r: WhatIter<'a>)
        ensures
            r.source() == *self,
            r.rest() == self.children_view(),
    {
        WhatIter::new(self)
    }
}

/// Every node of the forest `s`, each after all of its descendants, subtrees
/// taken left to right.
pub open spec fn post_forest<'a>(s: Seq<What<'a>>) -> Seq<What<'a>>
    decreases s,
{
    if s.len() == 0 {
        Seq::empty()
    } else {
        post_forest(s[0].children_view()) + seq![s[0]] + post_forest(s.subrange(1, s.len() as int))
    }
}

/// The nodes of the subtree rooted at `n` in post-order: `n` comes last.
pub open spec fn post_order<'a>(n: What<'a>) -> Seq<What<'a>> {
    post_forest(n.children_view()) + seq![n]
}

/// Every node of the forest `s`, counted as often as it occurs.
pub open spec fn forest_nodes<'a>(s: Seq<What<'a>>) -> Multiset<What<'a>>
    decreases s,
{
    if s.len() == 0 {
        Multiset::empty()
    } else {
        forest_nodes(s[0].children_view()).insert(s[0]).add(
            forest_nodes(s.subrange(1, s.len() as int)),
        )
    }
}

/// Every node of the subtree rooted at `n`, `n` included.
pub open spec fn subtree_nodes<'a>(n: What<'a>) -> Multiset<What<'a>> {
    forest_nodes(n.children_view()).insert(n)
}

/// `p` leads from `n` down the tree: each entry picks a child by its index.
pub open spec fn valid_path<'a>(n: What<'a>, p: Seq<int>) -> bool
    decreases p.len(),
{
    p.len() == 0 || (0 <= p[0] < n.children_view().len() && valid_path(
        n.children_view()[p[0]],
        p.drop_first(),
    ))
}

/// The node that path `p` leads to from `n`.
pub open spec fn node_at<'a>(n: What<'a>, p: Seq<int>) -> What<'a>
    decreases p.len(),
{
    if p.len() == 0 {
        n
    } else {
        node_at(n.children_view()[p[0]], p.drop_first())
    }
}

/// The children of any tree of a forest are smaller than the forest.
pub proof fn lemma_child_forest_decreases<'a>(s: Seq<What<'a>>, i: int)
    requires
        0 <= i < s.len(),
    ensures
        decreases_to!(s => s[i].children_view()),
{
    assert(decreases_to!(s => s[i]));
    assert(decreases_to!(s[i] => s[i].children));
    assert(decreases_to!(s[i].children => s[i].children@));
}

/// A single-pass cursor over the direct children of one node.
pub struct WhatIter<'i> {
    node: &'i What<'i>,
    pos: usize,
}

impl<'i> WhatIter<'i> {
    #[verifier::type_invariant]
    spec fn inv(&self) -> bool {
        self.pos <= self.node.children@.len()
    }

    /// The node whose children this cursor walks.
    pub closed spec fn source(&self) -> What<'i> {
        *self.node
    }

    /// The children not yet produced, in order.
    pub closed spec fn rest(&self) -> Seq<What<'i>> {
        self.node.children@.subrange(self.pos as int, self.node.children@.len() as int)
    }

    pub fn new(y: &'i What<'i>) -> (r: Self)
        ensures
            r.source() == *y,
            r.rest() == y.children_view(),
    {
        let r = WhatIter { node: y, pos: 0 };
        assert(r.rest() =~= y.children_view());
        r
    }

    /// Produces the next child, or `None` once every child has been produced.
    pub fn next(&mut self) -> (r: Option<&'i What<'i>>)
        ensures
            final(self).source() == old(self).source(),
            old(self).rest().len() == 0 ==> r is None && final(self).rest() == old(self).rest(),
            old(self).rest().len() > 0 ==> {
                &&& r is Some
                &&& *r->0 == old(self).rest()[0]
                &&& final(self).rest() == old(self).rest().drop_first()
            },
    {
        proof {
            use_type_invariant(&*self);
        }
        if self.pos < self.node.children.len() {
            let c = &self.node.children[self.pos];
            self.pos = self.pos + 1;
            assert(self.rest() =~= old(self).rest().drop_first());
            Some(c)
        } else {
            None
        }
    }
}

impl<'i> Clone for WhatIter<'i> {
    /// A second cursor at the same place over the same node.
    fn clone(&self) -> (r: Self)
        ensures
            r.source() == self.source(),
            r.rest() == self.rest(),
    {
        proof {
            use_type_invariant(self);
        }
        WhatIter { node: self.node, pos: self.pos }
    }
}

} // verus!

//! Post-order traversal of a whole subtree, driven by an explicit stack of
//! child cursors instead of native recursion.
use vstd::prelude::*;
use crate::laws::lemma_post_forest_first;
use crate::tree::{What, WhatIter, post_forest, post_order};

verus! {

/// What is still owed by a stack of open cursors, the top one last: for each
/// cursor from the top down, the post-order of its unvisited children followed
/// by the node that the cursor walks.
pub open spec fn frames_pending<'r>(frames: Seq<WhatIter<'r>>) -> Seq<What<'r>>
    decreases frames.len(),
{
    if frames.len() == 0 {
        Seq::empty()
    } else {
        let top = frames.last();
        post_forest(top.rest()) + seq![top.source()] + frames_pending(frames.drop_last())
    }
}

/// Each open cursor owes at least its own node.
proof fn lemma_frames_pending_len<'r>(frames: Seq<WhatIter<'r>>)
    ensures
        frames_pending(frames).len() >= frames.len(),
    decreases frames.len(),
{
    if frames.len() > 0 {
        lemma_frames_pending_len(frames.drop_last());
    }
}

/// A depth-first walk that yields every node of a subtree once: a leaf when it
/// is reached, an inner node once its whole subtree has been yielded.
#[derive(Clone)]
pub struct WhatRecursiveIter<'r> {
    inner_iter_stack: Vec<WhatIter<'r>>,
    inner_junctions: Vec<&'r What<'r>>,
}

impl<'r> WhatRecursiveIter<'r> {
    /// The two stacks move together: each cursor sits beside the node it walks.
    pub closed spec fn wf(&self) -> bool {
        &&& self.inner_iter_stack@.len() == self.inner_junctions@.len()
        &&& forall|i: int|
            0 <= i < self.inner_junctions@.len() ==> *#[trigger] self.inner_junctions@[i]
                == self.inner_iter_stack@[i].source()
    }

    /// The nodes that the remaining calls of `next` will yield, in order.
    pub closed spec fn pending(&self) -> Seq<What<'r>> {
        frames_pending(self.inner_iter_stack@)
    }

    pub fn new(what: &'r What<'r>) -> (r: Self)
        ensures
            r.wf(),
            r.pending() == post_order(*what),
    {
        let r = WhatRecursiveIter { inner_iter_stack: vec![what.iter()], inner_junctions: vec![what] };
        proof {
            let frames = r.inner_iter_stack@;
            assert(frames.drop_last() =~= Seq::<WhatIter<'r>>::empty());
            assert(frames_pending(frames) == post_forest(frames.last().rest()) + seq![
                frames.last().source(),
            ] + frames_pending(frames.drop_last()));
            assert(r.pending() =~= post_order(*what));
        }
        r
    }

    /// Yields the next node of the walk, or `None` once the walk is over,
    /// and from then on at every call.
    pub fn next(&mut self) -> (r: Option<&'r What<'r>>)
        requires
            old(self).wf(),
        ensures
            final(self).wf(),
            old(self).pending().len() == 0 ==> r is None && final(self).pending() == old(
                self,
            ).pending(),
            old(self).pending().len() > 0 ==> {
                &&& r is Some
                &&& *r->0 == old(self).pending()[0]
                &&& final(self).pending() == old(self).pending().drop_first()
            },
    {
        loop
            invariant
                self.wf(),
                self.pending() == old(self).pending(),
            decreases self.pending().len() - self.inner_iter_stack@.len(),
        {
            proof {
                lemma_frames_pending_len(self.inner_iter_stack@);
            }
            let ghost frames = self.inner_iter_stack@;
            let mut top = match self.inner_iter_stack.pop() {
                Some(t) => t,
                None => {
                    return None;
                },
            };
            let ghost top0 = top;
            proof {
                assert(frames.drop_last() == self.inner_iter_stack@);
            }
            match top.next() {
                Some(child) => {
                    proof {
                        lemma_post_forest_first(top0.rest());
                    }
                    self.inner_iter_stack.push(top);
                    if child.has_children() {
                        self.inner_iter_stack.push(child.iter());
                        self.inner_junctions.push(child);
                        proof {
                            let f = self.inner_iter_stack@;
                            assert(f.drop_last().drop_last() == frames.drop_last());
                            let below = frames_pending(f.drop_last());
                            assert(below == post_forest(top.rest()) + seq![top.source()]
                                + frames_pending(frames.drop_last()));
                            assert(frames_pending(f) == post_forest(child.children_view()) + seq![
                                *child,
                            ] + below);
                            assert(self.pending() =~= old(self).pending());
                            lemma_frames_pending_len(f);
                        }
                    } else {
                        proof {
                            let f = self.inner_iter_stack@;
                            assert(f.drop_last() == frames.drop_last());
                            assert(post_forest(child.children_view()) =~= Seq::<What<'r>>::empty());
                            assert(self.pending() =~= old(self).pending().drop_first());
                        }
                        return Some(child);
                    }
                },
                None => {
                    let j = self.inner_junctions.pop();
                    proof {
                        assert(self.pending() =~= old(self).pending().drop_first());
                    }
                    return j;
                },
            }
        }
    }
}

impl<'a> What<'a> {
    /// A depth-first walk of the subtree rooted here, this node last.
    pub fn recursive_iter(&'a self) -> (r: WhatRecursiveIter<'a>)
        ensures
            r.wf(),
            r.pending() == post_order(*self),
    {
        WhatRecursiveIter::new(self)
    }
}

} // verus!

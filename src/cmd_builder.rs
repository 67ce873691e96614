use vstd::prelude::*;

use crate::cmd_tree::CmdNode;
use crate::matchers::{ExactMatcher, NodeMatcher};

verus! {

/// Grows a tree in place from its root.
pub struct CmdBuilder {
    root: CmdNode,
}

impl CmdBuilder {
    /// The tree built so far.
    pub closed spec fn tree(&self) -> CmdNode {
        self.root
    }

    /// A builder whose tree is `root`.
    pub fn new(root: CmdNode) -> (r: Self)
        ensures
            r.tree() == root,
    {
        CmdBuilder { root }
    }

    /// A builder whose tree is one node that matches `literal` exactly.
    pub fn new_exact(literal: &str) -> (r: Self)
        ensures
            r.tree().matcher matches NodeMatcher::Exact(m) && m.lit() == literal@,
            r.tree().name is None,
            r.tree().children@.len() == 0,
    {
        CmdBuilder { root: CmdNode::new(NodeMatcher::Exact(ExactMatcher::new(literal.to_owned()))) }
    }

    /// Appends to the root a child that matches `literal` exactly, and
    /// hands it out to grow further.
    pub fn exact(&mut self, literal: &str) -> (r: &mut CmdNode)
        ensures
            r.matcher matches NodeMatcher::Exact(m) && m.lit() == literal@,
            r.name is None,
            r.children@.len() == 0,
            final(self).tree().matcher == old(self).tree().matcher,
            final(self).tree().name == old(self).tree().name,
            final(self).tree().children@ == old(self).tree().children@.push(*final(r)),
    {
        let n = self.root.children.len();
        self.root.children.push(CmdNode::new(NodeMatcher::Exact(ExactMatcher::new(literal.to_owned()))));
        &mut self.root.children[n]
    }

    /// The tree built.
    pub fn build(self) -> (r: CmdNode)
        ensures
            r == self.tree(),
    {
        self.root
    }
}

} // verus!

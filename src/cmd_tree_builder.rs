use vstd::prelude::*;

use crate::cmd_tree::CmdNode;
use crate::error::{CmdError, CmdResult};
use crate::matchers::NodeMatcher;

verus! {

/// `root` is `ns[0]` with `ns[1]` appended as its last child, that one with
/// `ns[2]` appended as its last child, and so on.
pub open spec fn chained(root: CmdNode, ns: Seq<CmdNode>) -> bool
    decreases ns.len(),
{
    &&& ns.len() > 0
    &&& root.matcher == ns[0].matcher
    &&& root.name == ns[0].name
    &&& if ns.len() == 1 {
        root.children@ == ns[0].children@
    } else {
        &&& root.children@.len() == ns[0].children@.len() + 1
        &&& root.children@.drop_last() == ns[0].children@
        &&& chained(root.children@.last(), ns.drop_first())
    }
}

/// `n` is a fresh node for `m`: no name and no children.
pub open spec fn fresh(n: CmdNode, m: NodeMatcher) -> bool {
    n.matcher == m && n.name is None && n.children@.len() == 0
}

/// Builds one chain of nodes, each appended as the last child of the one
/// before it.
pub struct CmdTreeBuilderBranched {
    stack: Vec<CmdNode>,
}

pub type CmdTreeBuilder = CmdTreeBuilderBranched;

impl CmdTreeBuilderBranched {
    /// The nodes appended so far, in order.
    pub closed spec fn pending(&self) -> Seq<CmdNode> {
        self.stack@
    }

    pub fn new() -> (r: Self)
        ensures
            r.pending() == Seq::<CmdNode>::empty(),
    {
        CmdTreeBuilderBranched { stack: Vec::new() }
    }

    /// A builder that `consumer` has filled, or the error it reported.
    pub fn from_consumer<F: FnOnce(&mut CmdTreeBuilderBranched) -> CmdResult<()>>(consumer: F) -> (r: CmdResult<CmdTreeBuilderBranched>)
        requires
            forall|b: &mut CmdTreeBuilderBranched| #[trigger] consumer.requires((b,)),
    {
        let mut builder = Self::new();
        match consumer(&mut builder) {
            Ok(()) => Ok(builder),
            Err(e) => Err(e),
        }
    }

    /// Appends a node for `matcher`.
    pub fn raw_matcher(&mut self, matcher: NodeMatcher) -> (r: &mut Self)
        ensures
            r.pending().len() == old(self).pending().len() + 1,
            r.pending().drop_last() == old(self).pending(),
            fresh(r.pending().last(), matcher),
            *final(self) == *final(r),
    {
        self.stack.push(CmdNode::new(matcher));
        self
    }

    /// Appends a node for `matcher`.
    pub fn raw_matcher_boxed(&mut self, matcher: NodeMatcher) -> (r: &mut Self)
        ensures
            r.pending().len() == old(self).pending().len() + 1,
            r.pending().drop_last() == old(self).pending(),
            fresh(r.pending().last(), matcher),
            *final(self) == *final(r),
    {
        self.stack.push(CmdNode::new_raw(matcher));
        self
    }

    /// Appends `node`.
    pub fn raw_node(&mut self, node: CmdNode) -> (r: &mut Self)
        ensures
            r.pending() == old(self).pending().push(node),
            *final(self) == *final(r),
    {
        self.stack.push(node);
        self
    }

    /// Attaches the branches of `level`, in order, as children of the node
    /// appended last. Fails with `EmptyCmdBuilder` when no node was appended
    /// or `level` holds no branch.
    pub fn flat(&mut self, level: CmdTreeBuilderParallel) -> (r: CmdResult<&mut Self>)
        ensures
            match r {
                Ok(b) => {
                    &&& old(self).pending().len() > 0
                    &&& level.branches().len() > 0
                    &&& b.pending().len() == old(self).pending().len()
                    &&& b.pending().drop_last() == old(self).pending().drop_last()
                    &&& b.pending().last().matcher == old(self).pending().last().matcher
                    &&& b.pending().last().name == old(self).pending().last().name
                    &&& b.pending().last().children@ == old(self).pending().last().children@
                        + level.branches()
                    &&& *final(self) == *final(b)
                },
                Err(e) => {
                    &&& e is EmptyCmdBuilder
                    &&& (old(self).pending().len() == 0 || level.branches().len() == 0)
                    &&& *final(self) == *old(self)
                },
            },
    {
        if self.stack.len() == 0 || level.branches.len() == 0 {
            return Err(CmdError::EmptyCmdBuilder);
        }
        let ghost before = self.stack@;
        let mut tip = self.stack.pop().unwrap();
        let attached = level.build(&mut tip);
        self.stack.push(tip);
        assert(self.stack@.drop_last() =~= before.drop_last());
        match attached {
            Ok(()) => Ok(self),
            Err(e) => Err(e),
        }
    }

    /// The chain of appended nodes: the first one is the root. Fails with
    /// `EmptyCmdBuilder` when nothing was appended.
    pub fn build(self) -> (r: CmdResult<CmdNode>)
        ensures
            match r {
                Ok(root) => chained(root, self.pending()),
                Err(e) => e is EmptyCmdBuilder && self.pending().len() == 0,
            },
    {
        let ghost ns = self.stack@;
        let mut stack = self.stack;
        let mut acc = match stack.pop() {
            Some(n) => n,
            None => {
                return Err(CmdError::EmptyCmdBuilder);
            },
        };
        assert(chained(acc, ns.subrange(stack.len() as int, ns.len() as int)));
        while stack.len() > 0
            invariant
                stack@ == ns.subrange(0, stack.len() as int),
                stack.len() < ns.len(),
                chained(acc, ns.subrange(stack.len() as int, ns.len() as int)),
            decreases stack.len(),
        {
            let ghost k = stack.len() as int;
            let mut parent = stack.pop().unwrap();
            let ghost p0 = parent;
            parent.children.push(acc);
            proof {
                let sub = ns.subrange(k - 1, ns.len() as int);
                assert(sub[0] == p0);
                assert(sub.drop_first() =~= ns.subrange(k, ns.len() as int));
                assert(parent.children@.drop_last() =~= p0.children@);
            }
            acc = parent;
        }
        assert(ns.subrange(0, ns.len() as int) =~= ns);
        Ok(acc)
    }
}

/// Collects alternative branches to attach side by side at one node.
pub struct CmdTreeBuilderParallel {
    branches: Vec<CmdNode>,
}

impl CmdTreeBuilderParallel {
    /// The branches declared so far, in order.
    pub closed spec fn branches(&self) -> Seq<CmdNode> {
        self.branches@
    }

    pub fn new() -> (r: Self)
        ensures
            r.branches() == Seq::<CmdNode>::empty(),
    {
        CmdTreeBuilderParallel { branches: Vec::new() }
    }

    /// Attaches the branches, in order, as the last children of `root`.
    /// Fails with `EmptyCmdBuilder`, leaving `root` as it is, when no branch
    /// was declared.
    pub fn build(self, root: &mut CmdNode) -> (r: CmdResult<()>)
        ensures
            final(root).matcher == old(root).matcher,
            final(root).name == old(root).name,
            match r {
                Ok(()) => self.branches().len() > 0 && final(root).children@ == old(root).children@
                    + self.branches(),
                Err(e) => e is EmptyCmdBuilder && self.branches().len() == 0 && final(root).children@
                    == old(root).children@,
            },
    {
        if self.branches.len() == 0 {
            return Err(CmdError::EmptyCmdBuilder);
        }
        let mut branches = self.branches;
        root.children.append(&mut branches);
        Ok(())
    }

    /// Declares one more branch, the chain that `builder` holds. Fails with
    /// `EmptyCmdBuilder`, declaring nothing, when `builder` is empty.
    pub fn branch(&mut self, builder: CmdTreeBuilderBranched) -> (r: CmdResult<&mut Self>)
        ensures
            match r {
                Ok(s) => builder.pending().len() > 0 && s.branches().len() == old(self).branches().len() + 1
                    && s.branches().drop_last() == old(self).branches() && chained(
                    s.branches().last(),
                    builder.pending(),
                ) && *final(self) == *final(s),
                Err(e) => e is EmptyCmdBuilder && builder.pending().len() == 0 && *final(self)
                    == *old(self),
            },
    {
        match builder.build() {
            Ok(root) => {
                self.branches.push(root);
                Ok(self)
            },
            Err(e) => Err(e),
        }
    }
}

} // verus!

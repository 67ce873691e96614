use vstd::prelude::*;

use crate::cmd_tree::CmdNode;
use crate::cmd_tree_builder::{fresh, CmdTreeBuilderBranched};
use crate::matchers::{ExactMatcher, NodeMatcher, SignedMatcher, UnsignedMatcher, UserIdMatcher};

verus! {

/// `after` is `before` with one fresh node for `m` appended.
pub open spec fn appended(before: Seq<CmdNode>, after: Seq<CmdNode>, m: NodeMatcher) -> bool {
    after.len() == before.len() + 1 && after.drop_last() == before && fresh(after.last(), m)
}

/// Shorthands to append the common matchers to a builder.
pub trait CmdTreeBuilderExt: Sized {
    /// The nodes appended so far, in order.
    spec fn chain(&self) -> Seq<CmdNode>;

    /// Appends a node that matches `literal` exactly.
    fn exact(&mut self, literal: &str) -> (r: &mut Self)
        ensures
            r.chain().len() == old(self).chain().len() + 1,
            r.chain().drop_last() == old(self).chain(),
            r.chain().last().matcher matches NodeMatcher::Exact(m) && m.lit() == literal@,
            r.chain().last().name is None,
            r.chain().last().children@.len() == 0,
            *final(self) == *final(r),
    ;

    /// Appends a node that matches a signed number.
    fn signed(&mut self) -> (r: &mut Self)
        ensures
            appended(old(self).chain(), r.chain(), NodeMatcher::Signed(SignedMatcher)),
            *final(self) == *final(r),
    ;

    /// Appends a node that matches an unsigned number.
    fn unsigned(&mut self) -> (r: &mut Self)
        ensures
            appended(old(self).chain(), r.chain(), NodeMatcher::Unsigned(UnsignedMatcher)),
            *final(self) == *final(r),
    ;

    /// Appends a node that matches a user mention.
    fn user_mention(&mut self) -> (r: &mut Self)
        ensures
            appended(old(self).chain(), r.chain(), NodeMatcher::UserMention(UserIdMatcher)),
            *final(self) == *final(r),
    ;
}

impl CmdTreeBuilderExt for CmdTreeBuilderBranched {
    open spec fn chain(&self) -> Seq<CmdNode> {
        self.pending()
    }

    fn exact(&mut self, literal: &str) -> (r: &mut Self) {
        self.raw_matcher(NodeMatcher::Exact(ExactMatcher::new(literal.to_owned())))
    }

    fn signed(&mut self) -> (r: &mut Self) {
        self.raw_matcher(NodeMatcher::Signed(SignedMatcher))
    }

    fn unsigned(&mut self) -> (r: &mut Self) {
        self.raw_matcher(NodeMatcher::Unsigned(UnsignedMatcher))
    }

    fn user_mention(&mut self) -> (r: &mut Self) {
        self.raw_matcher(NodeMatcher::UserMention(UserIdMatcher::default()))
    }
}

} // verus!

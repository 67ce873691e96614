use vstd::prelude::*;

use crate::matchers::{FragMatcher, NodeMatcher};
use crate::text::{chars_of, same_chars};

verus! {

/// One position of the command grammar: a matcher, an optional binding name
/// and the alternatives that may follow, tried in order. A node without
/// children ends a command.
#[derive(Debug)]
pub struct CmdNode {
    pub matcher: NodeMatcher,
    pub children: Vec<CmdNode>,
    pub name: Option<String>,
}

/// The nodes that `path` refers to.
pub open spec fn nodes(path: Seq<&CmdNode>) -> Seq<CmdNode> {
    path.map_values(|n: &CmdNode| *n)
}

/// The text of an optional name.
pub open spec fn name_view(n: Option<String>) -> Option<Seq<char>> {
    match n {
        Some(s) => Some(s@),
        None => None,
    }
}

/// `a` and `b` have the same shape: matchers of the same configuration, the
/// same names, and children that pairwise have the same shape, in order.
pub open spec fn same_tree(a: CmdNode, b: CmdNode) -> bool
    decreases a, a.children@.len() + 1,
{
    &&& a.matcher.same_as(&b.matcher)
    &&& name_view(a.name) == name_view(b.name)
    &&& a.children@.len() == b.children@.len()
    &&& same_children(a, b, 0)
}

/// The children of `a` and `b` from index `i` on pairwise have the same
/// shape.
pub open spec fn same_children(a: CmdNode, b: CmdNode, i: int) -> bool
    decreases a, a.children@.len() - i,
{
    if i < 0 || i >= a.children@.len() {
        true
    } else {
        same_tree(a.children@[i], b.children@[i]) && same_children(a, b, i + 1)
    }
}

/// The root of a command tree.
pub type CmdTree = CmdNode;

impl CmdNode {
    /// A node with `matcher`, no name and no children.
    pub fn new(matcher: NodeMatcher) -> (r: Self)
        ensures
            r.matcher == matcher,
            r.children@.len() == 0,
            r.name is None,
    {
        CmdNode { matcher, children: Vec::new(), name: None }
    }

    /// A node with `matcher`, no name and no children.
    pub fn new_raw(matcher: NodeMatcher) -> (r: Self)
        ensures
            r.matcher == matcher,
            r.children@.len() == 0,
            r.name is None,
    {
        CmdNode { matcher, children: Vec::new(), name: None }
    }

    /// A node with `matcher`, bound to `name`, without children.
    pub fn new_named(matcher: NodeMatcher, name: String) -> (r: Self)
        ensures
            r.matcher == matcher,
            r.children@.len() == 0,
            r.name matches Some(n) && n@ == name@,
    {
        CmdNode { matcher, children: Vec::new(), name: Some(name) }
    }

    /// The children whose matcher accepts `frag`, in order.
    pub fn filter(&self, frag: &str) -> (r: Vec<&CmdNode>)
        ensures
            nodes(r@) == self.children@.filter(|c: CmdNode| c.matcher.accepts(frag@)),
    {
        let mut r: Vec<&CmdNode> = Vec::new();
        let mut i: usize = 0;
        while i < self.children.len()
            invariant
                i <= self.children.len(),
                nodes(r@) == self.children@.take(i as int).filter(|c: CmdNode| c.matcher.accepts(frag@)),
            decreases self.children.len() - i,
        {
            let child = &self.children[i];
            let ghost old_r = r@;
            proof {
                reveal(Seq::filter);
                assert(self.children@.take(i + 1).drop_last() == self.children@.take(i as int));
            }
            if child.matcher.matches(frag) {
                r.push(child);
                assert(nodes(r@) =~= nodes(old_r).push(*child));
            }
            i += 1;
        }
        assert(self.children@.take(i as int) == self.children@);
        r
    }

    /// Whether `self` and `other` have the same shape.
    pub fn same_structure(&self, other: &CmdNode) -> (r: bool)
        ensures
            r == same_tree(*self, *other),
        decreases self,
    {
        if !self.matcher.same_config(&other.matcher) {
            return false;
        }
        let same_name = match (&self.name, &other.name) {
            (Some(a), Some(b)) => same_chars(&chars_of(a.as_str()), &chars_of(b.as_str())),
            (None, None) => true,
            _ => false,
        };
        assert(same_name == (name_view(self.name) == name_view(other.name)));
        if !same_name {
            return false;
        }
        if self.children.len() != other.children.len() {
            return false;
        }
        let mut i: usize = 0;
        while i < self.children.len()
            invariant
                self.matcher.same_as(&other.matcher),
                name_view(self.name) == name_view(other.name),
                self.children.len() == other.children.len(),
                i <= self.children.len(),
                same_children(*self, *other, 0) == same_children(*self, *other, i as int),
            decreases self.children.len() - i,
        {
            if !self.children[i].same_structure(&other.children[i]) {
                return false;
            }
            i += 1;
        }
        true
    }
}

} // verus!

use vstd::prelude::*;

use crate::cmd_manager::CmdManager;
use crate::cmd_tree::{nodes, CmdNode, CmdTree};
use crate::error::{CmdError, CmdResult};
use crate::fragment_iter::{first_error, fragments, tokenize, unclosed_quote_error};
use crate::matchers::FragMatcher;

verus! {

/// The nodes matched from the root down to a terminal, root first.
pub type CmdPath<'a> = Vec<&'a CmdNode>;

/// The text of each fragment.
pub open spec fn frag_views(frags: Seq<String>) -> Seq<Seq<char>> {
    frags.map_values(|f: String| f@)
}

/// The first path, depth first and in declaration order, that matches a
/// prefix of `frags` from `node` down to a terminal.
pub open spec fn walk(node: CmdNode, frags: Seq<Seq<char>>) -> Option<Seq<CmdNode>>
    decreases node, node.children@.len() + 1,
{
    if frags.len() == 0 || !node.matcher.accepts(frags[0]) {
        None
    } else if node.children@.len() == 0 {
        Some(seq![node])
    } else {
        match walk_children(node, frags.drop_first(), 0) {
            Some(p) => Some(seq![node] + p),
            None => None,
        }
    }
}

/// The first path that the children of `node` from index `i` on match.
pub open spec fn walk_children(node: CmdNode, frags: Seq<Seq<char>>, i: int) -> Option<
    Seq<CmdNode>,
>
    decreases node, node.children@.len() - i,
{
    if i < 0 || i >= node.children@.len() {
        None
    } else {
        match walk(node.children@[i], frags) {
            Some(p) => Some(p),
            None => walk_children(node, frags, i + 1),
        }
    }
}

/// Searches the path for `frags[start..]` from `node`.
pub fn walk_from<'a>(node: &'a CmdNode, frags: &[String], start: usize) -> (r: Option<
    CmdPath<'a>,
>)
    requires
        start <= frags@.len(),
    ensures
        match r {
            Some(p) => walk(*node, frag_views(frags@).skip(start as int)) == Some(nodes(p@)),
            None => walk(*node, frag_views(frags@).skip(start as int)) is None,
        },
    decreases node,
{
    let ghost fs = frag_views(frags@).skip(start as int);
    if start >= frags.len() {
        return None;
    }
    assert(fs[0] == frags@[start as int]@);
    if !node.matcher.matches(frags[start].as_str()) {
        return None;
    }
    if node.children.len() == 0 {
        let mut p: Vec<&CmdNode> = Vec::new();
        p.push(node);
        assert(nodes(p@) =~= seq![*node]);
        return Some(p);
    }
    assert(fs.drop_first() =~= frag_views(frags@).skip(start + 1));
    let mut i: usize = 0;
    while i < node.children.len()
        invariant
            start < frags.len(),
            fs == frag_views(frags@).skip(start as int),
            fs.len() > 0,
            i <= node.children.len(),
            walk(*node, fs) == (match walk_children(*node, fs.drop_first(), i as int) {
                Some(p) => Some(seq![*node] + p),
                None => None::<Seq<CmdNode>>,
            }),
            fs.drop_first() == frag_views(frags@).skip(start + 1),
        decreases node.children.len() - i,
    {
        let child = &node.children[i];
        match walk_from(child, frags, start + 1) {
            Some(mut p) => {
                let ghost q = p@;
                p.insert(0, node);
                assert(nodes(p@) =~= seq![*node] + nodes(q));
                return Some(p);
            },
            None => {},
        }
        i += 1;
    }
    None
}

/// The texts of fragments that all succeeded.
pub open spec fn ok_texts(ts: Seq<Result<Seq<char>, int>>) -> Seq<Seq<char>> {
    ts.map_values(
        |t: Result<Seq<char>, int>|
            match t {
                Ok(f) => f,
                Err(_) => Seq::empty(),
            },
    )
}

impl CmdManager {
    /// Splits `raw` into fragments and finds the first path of the tree that
    /// they match. Fails with the tokenizer's error if any fragment failed,
    /// and with `NoPathFound` if no path matches.
    pub fn try_find_cmd_path<'a>(cmd_root: &'a CmdTree, raw: String) -> (r: CmdResult<CmdPath<'a>>)
        ensures
            ({
                let ts = fragments(raw@, 0);
                match first_error(ts) {
                    Some(j) => r matches Err(e) && unclosed_quote_error(e, raw@, j),
                    None => match walk(*cmd_root, ok_texts(ts)) {
                        Some(p) => r matches Ok(q) && nodes(q@) == p,
                        None => r matches Err(CmdError::NoPathFound),
                    },
                }
            }),
    {
        let frags = match tokenize(raw.as_str()) {
            Ok(v) => v,
            Err(e) => {
                return Err(e);
            },
        };
        let ghost ts = fragments(raw@, 0);
        assert(frag_views(frags@).skip(0) =~= ok_texts(ts)) by {
            assert forall|k: int| 0 <= k < frags@.len() implies #[trigger] frag_views(frags@)[k] == ok_texts(ts)[k] by {
                assert(ts[k] == Ok::<Seq<char>, int>(frags[k]@));
            }
        }
        match walk_from(cmd_root, frags.as_slice(), 0) {
            Some(p) => Ok(p),
            None => Err(CmdError::NoPathFound),
        }
    }

    /// The first path, depth first and in declaration order, from `node` to
    /// a terminal that matches a prefix of `frags`; fragments left over past
    /// the terminal are ignored.
    pub fn walk_command_tree<'a>(node: &'a CmdNode, frags: &[String]) -> (r: Option<CmdPath<'a>>)
        ensures
            match r {
                Some(p) => walk(*node, frag_views(frags@)) == Some(nodes(p@)),
                None => walk(*node, frag_views(frags@)) is None,
            },
    {
        assert(frag_views(frags@).skip(0) =~= frag_views(frags@));
        walk_from(node, frags, 0)
    }
}

} // verus!

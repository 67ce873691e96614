use vstd::prelude::*;

use crate::cmd_tree::{name_view, same_children, same_tree, CmdNode};
use crate::cmd_tree_builder::{chained, CmdTreeBuilderBranched};
use crate::error::{CmdError, CmdResult};
use crate::fragment_iter::{
    find_char, find_char_from, is_whitespace, is_whitespace_char, lemma_find_char_bounds,
    lemma_skip_whitespace_bounds, lemma_word_end_bounds, skip_whitespace, skip_whitespace_from,
    word_end, word_end_from,
};
use crate::matchers::{ExactMatcher, NodeMatcher, SignedMatcher, UnsignedMatcher, UserIdMatcher};
use crate::text::{chars_of, same_chars, string_of};

verus! {

/// The index just past the last non-whitespace character before `e`.
pub open spec fn trim_end(s: Seq<char>, e: int) -> int
    decreases e,
{
    if 0 < e <= s.len() && is_whitespace(s[e - 1]) {
        trim_end(s, e - 1)
    } else {
        e
    }
}

/// `s` without leading and trailing whitespace.
pub open spec fn trim(s: Seq<char>) -> Seq<char> {
    let a = skip_whitespace(s, 0);
    let b = trim_end(s, s.len() as int);
    if a < b {
        s.subrange(a, b)
    } else {
        Seq::empty()
    }
}

/// A matcher as the declaration describes it.
pub enum MatcherKind {
    Exact(Seq<char>),
    Unsigned,
    Signed,
    UserMention,
}

/// `m` is the matcher that `k` describes.
pub open spec fn matcher_is(m: NodeMatcher, k: MatcherKind) -> bool {
    match k {
        MatcherKind::Exact(lit) => m matches NodeMatcher::Exact(e) && e.lit() == lit,
        MatcherKind::Unsigned => m is Unsigned,
        MatcherKind::Signed => m is Signed,
        MatcherKind::UserMention => m is UserMention,
    }
}

/// The matcher that a type tag names.
pub open spec fn tag_kind(tag: Seq<char>) -> Option<MatcherKind> {
    if tag == "Unsigned"@ {
        Some(MatcherKind::Unsigned)
    } else if tag == "Signed"@ {
        Some(MatcherKind::Signed)
    } else if tag == "UserMention"@ {
        Some(MatcherKind::UserMention)
    } else {
        None
    }
}

/// What the text `seg` between `<` and `>` declares: `name: Tag` is a named
/// node of the tag's matcher (or the unknown tag), a bare `name` a named
/// node that matches the name itself.
pub open spec fn segment_item(seg: Seq<char>) -> Result<(MatcherKind, Option<Seq<char>>), Seq<char>> {
    let c = find_char(seg, ':', 0);
    if c < seg.len() {
        let name = trim(seg.subrange(0, c));
        let tag = trim(seg.subrange(c + 1, seg.len() as int));
        match tag_kind(tag) {
            Some(k) => Ok((k, Some(name))),
            None => Err(tag),
        }
    } else {
        Ok((MatcherKind::Exact(trim(seg)), Some(trim(seg))))
    }
}

/// One item of a declaration from position `i`: a bare word is an exact,
/// unnamed node; `<...>` is a segment, which runs to the next `>` or the end.
pub open spec fn decl_step(s: Seq<char>, i: int) -> Option<
    (Result<(MatcherKind, Option<Seq<char>>), Seq<char>>, int),
> {
    let j = skip_whitespace(s, i);
    if j >= s.len() {
        None
    } else if s[j] != '<' {
        Some((Ok((MatcherKind::Exact(s.subrange(j, word_end(s, j))), None)), word_end(s, j)))
    } else {
        let k = find_char(s, '>', j + 1);
        Some(
            (
                segment_item(s.subrange(j + 1, k)),
                if k < s.len() {
                    k + 1
                } else {
                    s.len() as int
                },
            ),
        )
    }
}

/// The items of a declaration from position `i` on.
pub open spec fn decl_items(s: Seq<char>, i: int) -> Seq<
    Result<(MatcherKind, Option<Seq<char>>), Seq<char>>,
>
    decreases s.len() - i,
{
    match decl_step(s, i) {
        None => Seq::empty(),
        Some((r, n)) => if 0 <= i < n <= s.len() {
            seq![r] + decl_items(s, n)
        } else {
            Seq::empty()
        },
    }
}

proof fn lemma_decl_unfold(s: Seq<char>, i: int)
    requires
        0 <= i <= s.len(),
    ensures
        match decl_step(s, i) {
            None => decl_items(s, i) == Seq::<Result<(MatcherKind, Option<Seq<char>>), Seq<char>>>::empty(),
            Some((t, n)) => i < n <= s.len() && decl_items(s, i) == seq![t] + decl_items(s, n),
        },
{
    lemma_skip_whitespace_bounds(s, i);
    let j = skip_whitespace(s, i);
    if j < s.len() {
        if s[j] != '<' {
            lemma_word_end_bounds(s, j);
            assert(!is_whitespace(s[j]));
        } else {
            lemma_find_char_bounds(s, '>', j + 1);
        }
    }
}

/// `r` is what the parser yields for the item `t`.
pub open spec fn yields_item(
    r: CmdResult<(NodeMatcher, Option<String>)>,
    t: Result<(MatcherKind, Option<Seq<char>>), Seq<char>>,
) -> bool {
    match t {
        Ok((k, name)) => r matches Ok(p) && matcher_is(p.0, k) && match name {
            Some(n) => p.1 matches Some(m) && m@ == n,
            None => p.1 is None,
        },
        Err(tag) => r matches Err(CmdError::CreatorUnknownMatcher { ty }) && ty@ == tag,
    }
}

fn sub_chars(s: &Vec<char>, a: usize, b: usize) -> (r: Vec<char>)
    requires
        a <= b <= s.len(),
    ensures
        r@ == s@.subrange(a as int, b as int),
{
    let mut r: Vec<char> = Vec::new();
    let mut i = a;
    while i < b
        invariant
            a <= i <= b <= s.len(),
            r@ == s@.subrange(a as int, i as int),
        decreases b - i,
    {
        r.push(s[i]);
        assert(s@.subrange(a as int, i + 1) =~= s@.subrange(a as int, i as int).push(s@[i as int]));
        i += 1;
    }
    r
}

proof fn lemma_trim_end_bounds(s: Seq<char>, e: int)
    requires
        0 <= e <= s.len(),
    ensures
        0 <= trim_end(s, e) <= e,
    decreases e,
{
    if 0 < e && is_whitespace(s[e - 1]) {
        lemma_trim_end_bounds(s, e - 1);
    }
}

/// `s` trimmed, as a string.
fn trimmed(s: &Vec<char>) -> (r: String)
    ensures
        r@ == trim(s@),
{
    proof {
        lemma_skip_whitespace_bounds(s@, 0);
        lemma_trim_end_bounds(s@, s@.len() as int);
    }
    let a = skip_whitespace_from(s, 0);
    let mut b = s.len();
    while b > 0 && is_whitespace_char(s[b - 1])
        invariant
            b <= s.len(),
            trim_end(s@, b as int) == trim_end(s@, s@.len() as int),
        decreases b,
    {
        b -= 1;
    }
    if a < b {
        string_of(s, a, b)
    } else {
        proof {
            reveal_strlit("");
        }
        String::new()
    }
}

/// Reads the items of a textual command declaration one at a time.
pub struct CmdCreatorBranchIter {
    original: Vec<char>,
    current_position: usize,
}

impl CmdCreatorBranchIter {
    /// The declaration being read.
    pub closed spec fn text(&self) -> Seq<char> {
        self.original@
    }

    /// The position from which the next item is read.
    pub closed spec fn pos(&self) -> int {
        self.current_position as int
    }

    pub closed spec fn wf(&self) -> bool {
        self.current_position <= self.original.len()
    }

    pub fn new(original: String) -> (r: Self)
        ensures
            r.wf(),
            r.text() == original@,
            r.pos() == 0,
    {
        CmdCreatorBranchIter { original: chars_of(original.as_str()), current_position: 0 }
    }

    /// The matcher that the type tag `ty` names; fails with
    /// `CreatorUnknownMatcher` naming `ty` for any other tag.
    pub fn make_matcher(ty: &str) -> (r: CmdResult<NodeMatcher>)
        ensures
            match tag_kind(ty@) {
                Some(k) => r matches Ok(m) && matcher_is(m, k),
                None => r matches Err(CmdError::CreatorUnknownMatcher { ty: t }) && t@ == ty@,
            },
    {
        let t = chars_of(ty);
        let unsigned = chars_of("Unsigned");
        let signed = chars_of("Signed");
        let mention = chars_of("UserMention");
        proof {
            reveal_strlit("Unsigned");
            reveal_strlit("Signed");
            reveal_strlit("UserMention");
        }
        if same_chars(&t, &unsigned) {
            Ok(NodeMatcher::Unsigned(UnsignedMatcher))
        } else if same_chars(&t, &signed) {
            Ok(NodeMatcher::Signed(SignedMatcher))
        } else if same_chars(&t, &mention) {
            Ok(NodeMatcher::UserMention(UserIdMatcher::default()))
        } else {
            Err(CmdError::CreatorUnknownMatcher { ty: ty.to_owned() })
        }
    }

    fn segment(seg: &Vec<char>) -> (r: CmdResult<(NodeMatcher, Option<String>)>)
        ensures
            yields_item(r, segment_item(seg@)),
    {
        proof {
            lemma_find_char_bounds(seg@, ':', 0);
        }
        let c = find_char_from(seg, ':', 0);
        if c < seg.len() {
            let name = trimmed(&sub_chars(seg, 0, c));
            let tag = trimmed(&sub_chars(seg, c + 1, seg.len()));
            match Self::make_matcher(tag.as_str()) {
                Ok(m) => Ok((m, Some(name))),
                Err(e) => Err(e),
            }
        } else {
            let name = trimmed(seg);
            let m = NodeMatcher::Exact(ExactMatcher::new(name.clone()));
            Ok((m, Some(name)))
        }
    }

    /// The next item: its matcher and, for `<...>`, its name; or the error for
    /// an unknown type tag; `None` once drained.
    pub fn next(&mut self) -> (r: Option<CmdResult<(NodeMatcher, Option<String>)>>)
        requires
            old(self).wf(),
        ensures
            final(self).wf(),
            final(self).text() == old(self).text(),
            match decl_step(old(self).text(), old(self).pos()) {
                None => r is None,
                Some((t, n)) => r matches Some(x) && yields_item(x, t) && final(self).pos() == n,
            },
    {
        proof {
            lemma_skip_whitespace_bounds(self.original@, self.current_position as int);
        }
        let j = skip_whitespace_from(&self.original, self.current_position);
        let len = self.original.len();
        if j >= len {
            return None;
        }
        if self.original[j] != '<' {
            proof {
                lemma_word_end_bounds(self.original@, j as int);
            }
            let e = word_end_from(&self.original, j);
            let lit = string_of(&self.original, j, e);
            self.current_position = e;
            Some(Ok((NodeMatcher::Exact(ExactMatcher::new(lit)), None)))
        } else {
            proof {
                lemma_find_char_bounds(self.original@, '>', j + 1);
            }
            let k = find_char_from(&self.original, '>', j + 1);
            let seg = sub_chars(&self.original, j + 1, k);
            self.current_position = if k < len {
                k + 1
            } else {
                len
            };
            Some(Self::segment(&seg))
        }
    }
}

/// Builds command chains from textual declarations.
pub struct CmdCreator;

/// `nodes` are fresh nodes for the declared items `items`, in order.
pub open spec fn declares(nodes: Seq<CmdNode>, items: Seq<Result<(MatcherKind, Option<Seq<char>>), Seq<char>>>) -> bool {
    &&& nodes.len() == items.len()
    &&& forall|i: int| 0 <= i < nodes.len() ==> {
        let n = #[trigger] nodes[i];
        &&& n.children@.len() == 0
        &&& items[i] matches Ok((k, name))
        &&& matcher_is(n.matcher, k)
        &&& match name {
            Some(x) => n.name matches Some(m) && m@ == x,
            None => n.name is None,
        }
    }
}

/// `root` is the chain of fresh nodes that the declaration `s` describes.
pub open spec fn built_from(root: CmdNode, s: Seq<char>) -> bool {
    exists|ns: Seq<CmdNode>| #[trigger] declares(ns, decl_items(s, 0)) && chained(root, ns)
}

/// Two chains of nodes declared by the same items have the same shape.
proof fn lemma_chains_same_tree(
    a: CmdNode,
    b: CmdNode,
    na: Seq<CmdNode>,
    nb: Seq<CmdNode>,
    items: Seq<Result<(MatcherKind, Option<Seq<char>>), Seq<char>>>,
)
    requires
        declares(na, items),
        declares(nb, items),
        chained(a, na),
        chained(b, nb),
    ensures
        same_tree(a, b),
    decreases na.len(),
{
    let x = na[0];
    let y = nb[0];
    assert(items[0] matches Ok((k, name)) && matcher_is(x.matcher, k) && matcher_is(y.matcher, k));
    assert(name_view(x.name) == name_view(y.name));
    if na.len() > 1 {
        let rest = items.drop_first();
        assert(declares(na.drop_first(), rest)) by {
            assert forall|i: int| 0 <= i < na.drop_first().len() implies {
                let n = #[trigger] na.drop_first()[i];
                &&& n.children@.len() == 0
                &&& rest[i] matches Ok((k, name))
                &&& matcher_is(n.matcher, k)
                &&& match name {
                    Some(x) => n.name matches Some(m) && m@ == x,
                    None => n.name is None,
                }
            } by {
                assert(na.drop_first()[i] == na[i + 1]);
            }
        }
        assert(declares(nb.drop_first(), rest)) by {
            assert forall|i: int| 0 <= i < nb.drop_first().len() implies {
                let n = #[trigger] nb.drop_first()[i];
                &&& n.children@.len() == 0
                &&& rest[i] matches Ok((k, name))
                &&& matcher_is(n.matcher, k)
                &&& match name {
                    Some(x) => n.name matches Some(m) && m@ == x,
                    None => n.name is None,
                }
            } by {
                assert(nb.drop_first()[i] == nb[i + 1]);
            }
        }
        lemma_chains_same_tree(a.children@.last(), b.children@.last(), na.drop_first(), nb.drop_first(), rest);
        assert(a.children@.len() == 1);
        assert(a.children@[0] == a.children@.last());
        assert(same_children(a, b, 1));
        assert(same_children(a, b, 0));
    } else {
        assert(same_children(a, b, 0));
    }
    assert(a.matcher.same_as(&b.matcher));
}

/// Building one declaration twice gives trees of the same shape: the same
/// node order, matcher configurations and names.
pub proof fn lemma_declaration_builds_same_tree(s: Seq<char>, a: CmdNode, b: CmdNode)
    requires
        built_from(a, s),
        built_from(b, s),
    ensures
        same_tree(a, b),
{
    let na = choose|ns: Seq<CmdNode>| #[trigger] declares(ns, decl_items(s, 0)) && chained(a, ns);
    let nb = choose|ns: Seq<CmdNode>| #[trigger] declares(ns, decl_items(s, 0)) && chained(b, ns);
    lemma_chains_same_tree(a, b, na, nb, decl_items(s, 0));
}

/// The first unknown type tag among `items`, if any.
pub open spec fn first_unknown_tag(items: Seq<Result<(MatcherKind, Option<Seq<char>>), Seq<char>>>) -> Option<Seq<char>>
    decreases items.len(),
{
    if items.len() == 0 {
        None
    } else if let Err(t) = items[0] {
        Some(t)
    } else {
        first_unknown_tag(items.drop_first())
    }
}

proof fn lemma_first_unknown_concat(
    a: Seq<Result<(MatcherKind, Option<Seq<char>>), Seq<char>>>,
    b: Seq<Result<(MatcherKind, Option<Seq<char>>), Seq<char>>>,
)
    requires
        first_unknown_tag(a) is None,
    ensures
        first_unknown_tag(a + b) == first_unknown_tag(b),
    decreases a.len(),
{
    if a.len() > 0 {
        assert((a + b)[0] == a[0]);
        assert((a + b).drop_first() == a.drop_first() + b);
        lemma_first_unknown_concat(a.drop_first(), b);
    } else {
        assert(a + b == b);
    }
}

/// A builder holding the nodes that `pattern` declares, in order; fails with
/// the first unknown type tag.
pub fn cmd_branch_from_string(pattern: &str) -> (r: CmdResult<CmdTreeBuilderBranched>)
    ensures
        ({
            let items = decl_items(pattern@, 0);
            match first_unknown_tag(items) {
                Some(tag) => r matches Err(CmdError::CreatorUnknownMatcher { ty }) && ty@ == tag,
                None => r matches Ok(b) && declares(b.pending(), items),
            }
        }),
{
    let mut builder = CmdTreeBuilderBranched::new();
    let mut iter = CmdCreatorBranchIter::new(pattern.to_owned());
    let ghost s = pattern@;
    let ghost done: Seq<Result<(MatcherKind, Option<Seq<char>>), Seq<char>>> = Seq::empty();
    loop
        invariant
            s == pattern@,
            iter.wf(),
            iter.text() == s,
            0 <= iter.pos() <= s.len(),
            decl_items(s, 0) == done + decl_items(s, iter.pos()),
            first_unknown_tag(done) is None,
            declares(builder.pending(), done),
        decreases s.len() - iter.pos(),
    {
        proof {
            lemma_decl_unfold(s, iter.pos());
        }
        let ghost old_pos = iter.pos();
        match iter.next() {
            None => {
                assert(done + decl_items(s, old_pos) =~= done);
                return Ok(builder);
            },
            Some(Ok((matcher, name))) => {
                let ghost t = decl_step(s, old_pos)->Some_0.0;
                let ghost before = builder.pending();
                match name {
                    Some(n) => {
                        builder.raw_node(CmdNode::new_named(matcher, n));
                    },
                    None => {
                        builder.raw_matcher_boxed(matcher);
                    },
                }
                proof {
                    lemma_first_unknown_concat(done, seq![t]);
                    assert(first_unknown_tag(seq![t]) is None) by {
                        reveal_with_fuel(first_unknown_tag, 2);
                    }
                    assert(done + seq![t] =~= done.push(t));
                    assert(done + decl_items(s, old_pos) =~= done.push(t) + decl_items(s, iter.pos()));
                    done = done.push(t);
                    assert forall|i: int| 0 <= i < builder.pending().len() implies {
                        let n = #[trigger] builder.pending()[i];
                        &&& n.children@.len() == 0
                        &&& done[i] matches Ok((k, name))
                        &&& matcher_is(n.matcher, k)
                        &&& match name {
                            Some(x) => n.name matches Some(m) && m@ == x,
                            None => n.name is None,
                        }
                    } by {
                        if i < before.len() {
                            assert(builder.pending()[i] == before[i]);
                        }
                    }
                }
            },
            Some(Err(e)) => {
                proof {
                    lemma_first_unknown_concat(done, decl_items(s, old_pos));
                }
                return Err(e);
            },
        }
    }
}

impl CmdCreator {
    /// The chain that `format` declares, its first item at the root; fails
    /// with the first unknown type tag, or with `EmptyCmdBuilder` when the
    /// declaration holds no item.
    pub fn create_cmd_branch(format: &str) -> (r: CmdResult<CmdNode>)
        ensures
            ({
                let items = decl_items(format@, 0);
                match first_unknown_tag(items) {
                    Some(tag) => r matches Err(CmdError::CreatorUnknownMatcher { ty }) && ty@ == tag,
                    None => if items.len() == 0 {
                        r matches Err(CmdError::EmptyCmdBuilder)
                    } else {
                        r matches Ok(root) && built_from(root, format@)
                    },
                }
            }),
    {
        let builder = match cmd_branch_from_string(format) {
            Ok(b) => b,
            Err(e) => {
                return Err(e);
            },
        };
        let ghost ns = builder.pending();
        let r = builder.build();
        proof {
            if r is Ok {
                assert(declares(ns, decl_items(format@, 0)));
            }
        }
        r
    }
}

} // verus!

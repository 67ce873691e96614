use vstd::prelude::*;

use crate::text::{chars_of, same_chars};
use crate::type_identity::TypeIdentity;

verus! {

/// An ASCII decimal digit.
pub open spec fn is_digit(c: char) -> bool {
    '0' <= c && c <= '9'
}

/// A non-empty run of decimal digits.
pub open spec fn is_digits(f: Seq<char>) -> bool {
    f.len() > 0 && forall|i: int| 0 <= i < f.len() ==> is_digit(#[trigger] f[i])
}

/// Digits, optionally after one leading `-`; a lone `-` is rejected.
pub open spec fn is_signed_digits(f: Seq<char>) -> bool {
    is_digits(f) || (f.len() > 0 && f[0] == '-' && is_digits(f.drop_first()))
}

/// `<@DIGITS>` or `<@!DIGITS>`.
pub open spec fn is_mention(f: Seq<char>) -> bool {
    &&& f.len() >= 4
    &&& f[0] == '<'
    &&& f[1] == '@'
    &&& f[f.len() - 1] == '>'
    &&& {
        ||| is_digits(f.subrange(2, f.len() - 1))
        ||| (f[2] == '!' && is_digits(f.subrange(3, f.len() - 1)))
    }
}

/// Recognizes the fragments that fit one kind of argument.
pub trait FragMatcher {
    /// The fragments this matcher accepts.
    spec fn accepts(&self, frag: Seq<char>) -> bool;

    /// The type of the values its fragments map to.
    spec fn identity(&self) -> TypeIdentity;

    /// Whether `frag` fits; a mapper of the same type must then accept it.
    fn matches(&self, frag: &str) -> (r: bool)
        ensures
            r == self.accepts(frag@),
    ;

    /// The type whose mapper converts the fragments matched here.
    fn fragment_type_id(&self) -> (r: TypeIdentity)
        ensures
            r == self.identity(),
    ;
}

fn all_digits_from(f: &Vec<char>, start: usize, end: usize) -> (r: bool)
    requires
        start <= end <= f.len(),
    ensures
        r == (forall|i: int| start <= i < end ==> is_digit(#[trigger] f@[i])),
{
    let mut i = start;
    while i < end
        invariant
            start <= i <= end <= f.len(),
            forall|k: int| start <= k < i ==> is_digit(#[trigger] f@[k]),
        decreases end - i,
    {
        if !('0' <= f[i] && f[i] <= '9') {
            return false;
        }
        i += 1;
    }
    true
}

/// Whether `f[start..end]` is a non-empty run of digits.
pub fn digits_between(f: &Vec<char>, start: usize, end: usize) -> (r: bool)
    requires
        start <= end <= f.len(),
    ensures
        r == is_digits(f@.subrange(start as int, end as int)),
{
    let r = start < end && all_digits_from(f, start, end);
    proof {
        let sub = f@.subrange(start as int, end as int);
        if start < end {
            if r {
                assert forall|i: int| 0 <= i < sub.len() implies is_digit(#[trigger] sub[i]) by {
                    assert(sub[i] == f@[start + i]);
                }
            } else {
                let k = choose|k: int| start <= k < end && !is_digit(#[trigger] f@[k]);
                assert(sub[k - start] == f@[k]);
            }
        }
    }
    r
}

/// Matches a string literal exactly.
#[derive(Debug)]
pub struct ExactMatcher {
    literal: String,
}

impl ExactMatcher {
    pub fn new(literal: String) -> (r: Self)
        ensures
            r.lit() == literal@,
    {
        ExactMatcher { literal }
    }

    /// The literal to match.
    pub closed spec fn lit(&self) -> Seq<char> {
        self.literal@
    }

    /// The literal to match.
    pub fn literal(&self) -> (r: &str)
        ensures
            r@ == self.lit(),
    {
        self.literal.as_str()
    }
}

impl Clone for ExactMatcher {
    fn clone(&self) -> (r: Self)
        ensures
            r.lit() == self.lit(),
    {
        ExactMatcher { literal: self.literal.clone() }
    }
}

impl PartialEq for ExactMatcher {
    fn eq(&self, other: &ExactMatcher) -> (r: bool) {
        let a = chars_of(self.literal.as_str());
        let b = chars_of(other.literal.as_str());
        same_chars(&a, &b)
    }
}

impl vstd::std_specs::cmp::PartialEqSpecImpl for ExactMatcher {
    open spec fn obeys_eq_spec() -> bool {
        true
    }

    open spec fn eq_spec(&self, other: &ExactMatcher) -> bool {
        self.lit() == other.lit()
    }
}

impl FragMatcher for ExactMatcher {
    open spec fn accepts(&self, frag: Seq<char>) -> bool {
        frag == self.lit()
    }

    open spec fn identity(&self) -> TypeIdentity {
        TypeIdentity::Unit
    }

    fn matches(&self, frag: &str) -> (r: bool) {
        let a = chars_of(self.literal.as_str());
        let b = chars_of(frag);
        same_chars(&a, &b)
    }

    fn fragment_type_id(&self) -> (r: TypeIdentity) {
        TypeIdentity::Unit
    }
}

/// Matches an unsigned decimal number.
#[derive(Clone, Copy, Debug, PartialEq, Eq, Structural)]
pub struct UnsignedMatcher;

impl FragMatcher for UnsignedMatcher {
    open spec fn accepts(&self, frag: Seq<char>) -> bool {
        is_digits(frag)
    }

    open spec fn identity(&self) -> TypeIdentity {
        TypeIdentity::U64
    }

    fn matches(&self, frag: &str) -> (r: bool) {
        let f = chars_of(frag);
        proof {
            assert(f@.subrange(0, f@.len() as int) == f@);
        }
        digits_between(&f, 0, f.len())
    }

    fn fragment_type_id(&self) -> (r: TypeIdentity) {
        TypeIdentity::U64
    }
}

/// Matches a signed decimal number.
#[derive(Clone, Copy, Debug, PartialEq, Eq, Structural)]
pub struct SignedMatcher;

impl FragMatcher for SignedMatcher {
    open spec fn accepts(&self, frag: Seq<char>) -> bool {
        is_signed_digits(frag)
    }

    open spec fn identity(&self) -> TypeIdentity {
        TypeIdentity::I64
    }

    fn matches(&self, frag: &str) -> (r: bool) {
        let f = chars_of(frag);
        proof {
            assert(f@.subrange(0, f@.len() as int) == f@);
            if f@.len() > 0 {
                assert(f@.subrange(1, f@.len() as int) == f@.drop_first());
            }
        }
        if f.len() == 0 {
            false
        } else if f[0] == '-' {
            digits_between(&f, 1, f.len())
        } else {
            digits_between(&f, 0, f.len())
        }
    }

    fn fragment_type_id(&self) -> (r: TypeIdentity) {
        TypeIdentity::I64
    }
}

/// Matches a user mention, `<@123456789>`, or its nickname form
/// `<@!123456789>`.
#[derive(Clone, Copy, Debug, PartialEq, Eq, Structural)]
pub struct UserIdMatcher;

impl Default for UserIdMatcher {
    fn default() -> (r: Self)
        ensures
            r == UserIdMatcher,
    {
        UserIdMatcher
    }
}

impl FragMatcher for UserIdMatcher {
    open spec fn accepts(&self, frag: Seq<char>) -> bool {
        is_mention(frag)
    }

    open spec fn identity(&self) -> TypeIdentity {
        TypeIdentity::User
    }

    fn matches(&self, frag: &str) -> (r: bool) {
        let f = chars_of(frag);
        let n = f.len();
        if n < 4 || f[0] != '<' || f[1] != '@' || f[n - 1] != '>' {
            return false;
        }
        if digits_between(&f, 2, n - 1) {
            return true;
        }
        f[2] == '!' && digits_between(&f, 3, n - 1)
    }

    fn fragment_type_id(&self) -> (r: TypeIdentity) {
        TypeIdentity::User
    }
}

/// The matcher a command node holds: one of the known kinds.
#[derive(Debug)]
pub enum NodeMatcher {
    Exact(ExactMatcher),
    Unsigned(UnsignedMatcher),
    Signed(SignedMatcher),
    UserMention(UserIdMatcher),
}

impl Clone for NodeMatcher {
    fn clone(&self) -> (r: Self)
        ensures
            r.same_as(self),
    {
        match self {
            NodeMatcher::Exact(m) => NodeMatcher::Exact(m.clone()),
            NodeMatcher::Unsigned(m) => NodeMatcher::Unsigned(*m),
            NodeMatcher::Signed(m) => NodeMatcher::Signed(*m),
            NodeMatcher::UserMention(m) => NodeMatcher::UserMention(*m),
        }
    }
}

impl NodeMatcher {
    /// Both are of the same kind, with the same literal for exact matchers.
    pub open spec fn same_as(&self, other: &NodeMatcher) -> bool {
        match (self, other) {
            (NodeMatcher::Exact(a), NodeMatcher::Exact(b)) => a.lit() == b.lit(),
            (NodeMatcher::Unsigned(_), NodeMatcher::Unsigned(_)) => true,
            (NodeMatcher::Signed(_), NodeMatcher::Signed(_)) => true,
            (NodeMatcher::UserMention(_), NodeMatcher::UserMention(_)) => true,
            _ => false,
        }
    }

    /// An exact matcher for `literal`.
    pub fn exact(literal: &str) -> (r: Self)
        ensures
            r matches NodeMatcher::Exact(m) && m.lit() == literal@,
    {
        NodeMatcher::Exact(ExactMatcher::new(literal.to_owned()))
    }

    /// Whether both are of the same kind, with the same literal for exact
    /// matchers.
    pub fn same_config(&self, other: &NodeMatcher) -> (r: bool)
        ensures
            r == self.same_as(other),
    {
        match (self, other) {
            (NodeMatcher::Exact(a), NodeMatcher::Exact(b)) => a == b,
            (NodeMatcher::Unsigned(_), NodeMatcher::Unsigned(_)) => true,
            (NodeMatcher::Signed(_), NodeMatcher::Signed(_)) => true,
            (NodeMatcher::UserMention(_), NodeMatcher::UserMention(_)) => true,
            _ => false,
        }
    }
}

impl FragMatcher for NodeMatcher {
    open spec fn accepts(&self, frag: Seq<char>) -> bool {
        match self {
            NodeMatcher::Exact(m) => m.accepts(frag),
            NodeMatcher::Unsigned(m) => m.accepts(frag),
            NodeMatcher::Signed(m) => m.accepts(frag),
            NodeMatcher::UserMention(m) => m.accepts(frag),
        }
    }

    open spec fn identity(&self) -> TypeIdentity {
        match self {
            NodeMatcher::Exact(m) => m.identity(),
            NodeMatcher::Unsigned(m) => m.identity(),
            NodeMatcher::Signed(m) => m.identity(),
            NodeMatcher::UserMention(m) => m.identity(),
        }
    }

    fn matches(&self, frag: &str) -> (r: bool) {
        match self {
            NodeMatcher::Exact(m) => m.matches(frag),
            NodeMatcher::Unsigned(m) => m.matches(frag),
            NodeMatcher::Signed(m) => m.matches(frag),
            NodeMatcher::UserMention(m) => m.matches(frag),
        }
    }

    fn fragment_type_id(&self) -> (r: TypeIdentity) {
        match self {
            NodeMatcher::Exact(m) => m.fragment_type_id(),
            NodeMatcher::Unsigned(m) => m.fragment_type_id(),
            NodeMatcher::Signed(m) => m.fragment_type_id(),
            NodeMatcher::UserMention(m) => m.fragment_type_id(),
        }
    }
}

} // verus!

use vstd::prelude::*;

use crate::matchers::{
    is_digit, is_digits, is_mention, is_signed_digits, FragMatcher, SignedMatcher, UnsignedMatcher,
    UserIdMatcher,
};
use crate::text::{chars_of, same_chars};
use crate::type_identity::UserId;

verus! {

/// The value of a run of decimal digits.
pub open spec fn decimal_value(f: Seq<char>) -> int
    decreases f.len(),
{
    if f.len() == 0 {
        0
    } else {
        decimal_value(f.drop_last()) * 10 + ((f.last() as u32) - ('0' as u32))
    }
}

/// What a standard integer parse of `f` reads, before any range check:
/// digits after an optional `+`.
pub open spec fn unsigned_text_value(f: Seq<char>) -> Option<int> {
    let d = if f.len() > 0 && f[0] == '+' {
        f.drop_first()
    } else {
        f
    };
    if is_digits(d) {
        Some(decimal_value(d))
    } else {
        None
    }
}

/// Like `unsigned_text_value`, with a leading `-` allowed too.
pub open spec fn signed_text_value(f: Seq<char>) -> Option<int> {
    if f.len() > 0 && f[0] == '-' {
        if is_digits(f.drop_first()) {
            Some(-decimal_value(f.drop_first()))
        } else {
            None
        }
    } else {
        unsigned_text_value(f)
    }
}

/// The value a mapper hands out, as a mathematical value.
pub enum OutputValue {
    Unit,
    Text(Seq<char>),
    Unsigned(u64),
    Signed(i64),
    Int(i32),
    Bool(bool),
    User(u64),
}

/// The value a mapper hands out.
#[derive(Debug)]
pub enum MapperOutput {
    Unit,
    Text(String),
    Unsigned(u64),
    Signed(i64),
    Int(i32),
    Bool(bool),
    User(UserId),
}

impl View for MapperOutput {
    type V = OutputValue;

    open spec fn view(&self) -> OutputValue {
        match self {
            MapperOutput::Unit => OutputValue::Unit,
            MapperOutput::Text(s) => OutputValue::Text(s@),
            MapperOutput::Unsigned(v) => OutputValue::Unsigned(*v),
            MapperOutput::Signed(v) => OutputValue::Signed(*v),
            MapperOutput::Int(v) => OutputValue::Int(*v),
            MapperOutput::Bool(v) => OutputValue::Bool(*v),
            MapperOutput::User(u) => OutputValue::User(u.0),
        }
    }
}

/// `r` hands out `v`.
pub open spec fn gives(r: Option<MapperOutput>, v: Option<OutputValue>) -> bool {
    match r {
        Some(o) => v == Some(o@),
        None => v is None,
    }
}

proof fn lemma_decimal_prefix(f: Seq<char>, k: int)
    requires
        0 <= k <= f.len(),
        forall|i: int| 0 <= i < f.len() ==> is_digit(#[trigger] f[i]),
    ensures
        decimal_value(f) >= decimal_value(f.subrange(0, k)) >= 0,
    decreases f.len(),
{
    if f.len() == 0 {
        assert(f.subrange(0, k) =~= f);
    } else if k == f.len() {
        assert(f.subrange(0, k) =~= f);
        lemma_decimal_prefix(f.drop_last(), k - 1);
        assert(is_digit(f.last()));
    } else {
        lemma_decimal_prefix(f.drop_last(), k);
        assert(f.drop_last().subrange(0, k) =~= f.subrange(0, k));
        assert(is_digit(f.last()));
    }
}

/// The value of the digits `f[start..]`, when they are digits and the value
/// fits in a `u64`.
fn parse_digits(f: &Vec<char>, start: usize) -> (r: Option<u64>)
    requires
        start <= f.len(),
    ensures
        ({
            let d = f@.subrange(start as int, f@.len() as int);
            match r {
                Some(v) => is_digits(d) && v == decimal_value(d),
                None => !is_digits(d) || decimal_value(d) > u64::MAX,
            }
        }),
{
    let ghost d = f@.subrange(start as int, f@.len() as int);
    if start >= f.len() {
        return None;
    }
    let mut acc: u64 = 0;
    let mut i = start;
    while i < f.len()
        invariant
            start <= i <= f.len(),
            d == f@.subrange(start as int, f@.len() as int),
            forall|k: int| start <= k < i ==> is_digit(#[trigger] f@[k]),
            acc == decimal_value(f@.subrange(start as int, i as int)),
        decreases f.len() - i,
    {
        let c = f[i];
        if !('0' <= c && c <= '9') {
            proof {
                assert(d[i - start] == c);
            }
            return None;
        }
        let next: u128 = (acc as u128) * 10 + ((c as u32) - ('0' as u32)) as u128;
        proof {
            assert(f@.subrange(start as int, i + 1).drop_last() =~= f@.subrange(start as int, i as int));
        }
        if next > u64::MAX as u128 {
            proof {
                if is_digits(d) {
                    lemma_decimal_prefix(d, i + 1 - start);
                    assert(d.subrange(0, i + 1 - start) =~= f@.subrange(start as int, i + 1));
                }
            }
            return None;
        }
        acc = next as u64;
        i += 1;
    }
    proof {
        assert forall|k: int| 0 <= k < d.len() implies is_digit(#[trigger] d[k]) by {
            assert(d[k] == f@[start + k]);
        }
    }
    Some(acc)
}

/// A type that a fragment can be parsed into as text.
pub trait ParseTarget {
    /// What parsing `f` gives.
    spec fn spec_parse(f: Seq<char>) -> Option<OutputValue>;

    fn parse_fragment(f: &str) -> (r: Option<MapperOutput>)
        ensures
            gives(r, Self::spec_parse(f@)),
    ;
}

fn unsigned_value(f: &Vec<char>) -> (r: Option<u64>)
    ensures
        match r {
            Some(v) => unsigned_text_value(f@) == Some(v as int),
            None => unsigned_text_value(f@) matches Some(n) ==> n > u64::MAX,
        },
{
    if f.len() > 0 && f[0] == '+' {
        assert(f@.subrange(1, f@.len() as int) =~= f@.drop_first());
        parse_digits(f, 1)
    } else {
        assert(f@.subrange(0, f@.len() as int) =~= f@);
        parse_digits(f, 0)
    }
}

/// The signed value of `f`, when it lies in `[lo, hi]`.
fn signed_value(f: &Vec<char>, lo: i128, hi: i128) -> (r: Option<i128>)
    requires
        i64::MIN <= lo <= 0 <= hi <= i64::MAX,
    ensures
        match r {
            Some(v) => signed_text_value(f@) == Some(v as int) && lo <= v <= hi,
            None => signed_text_value(f@) matches Some(n) ==> (n < lo || n > hi),
        },
{
    if f.len() > 0 && f[0] == '-' {
        assert(f@.subrange(1, f@.len() as int) =~= f@.drop_first());
        match parse_digits(f, 1) {
            Some(m) => {
                let v = -(m as i128);
                if v < lo {
                    None
                } else {
                    Some(v)
                }
            },
            None => None,
        }
    } else {
        match unsigned_value(f) {
            Some(m) => {
                if m as i128 > hi {
                    None
                } else {
                    Some(m as i128)
                }
            },
            None => None,
        }
    }
}

impl ParseTarget for u64 {
    open spec fn spec_parse(f: Seq<char>) -> Option<OutputValue> {
        match unsigned_text_value(f) {
            Some(n) => if n <= u64::MAX {
                Some(OutputValue::Unsigned(n as u64))
            } else {
                None
            },
            None => None,
        }
    }

    fn parse_fragment(f: &str) -> (r: Option<MapperOutput>) {
        let c = chars_of(f);
        match unsigned_value(&c) {
            Some(v) => Some(MapperOutput::Unsigned(v)),
            None => None,
        }
    }
}

impl ParseTarget for i64 {
    open spec fn spec_parse(f: Seq<char>) -> Option<OutputValue> {
        match signed_text_value(f) {
            Some(n) => if i64::MIN <= n <= i64::MAX {
                Some(OutputValue::Signed(n as i64))
            } else {
                None
            },
            None => None,
        }
    }

    fn parse_fragment(f: &str) -> (r: Option<MapperOutput>) {
        let c = chars_of(f);
        match signed_value(&c, i64::MIN as i128, i64::MAX as i128) {
            Some(v) => Some(MapperOutput::Signed(v as i64)),
            None => None,
        }
    }
}

impl ParseTarget for i32 {
    open spec fn spec_parse(f: Seq<char>) -> Option<OutputValue> {
        match signed_text_value(f) {
            Some(n) => if i32::MIN <= n <= i32::MAX {
                Some(OutputValue::Int(n as i32))
            } else {
                None
            },
            None => None,
        }
    }

    fn parse_fragment(f: &str) -> (r: Option<MapperOutput>) {
        let c = chars_of(f);
        match signed_value(&c, i32::MIN as i128, i32::MAX as i128) {
            Some(v) => Some(MapperOutput::Int(v as i32)),
            None => None,
        }
    }
}

impl ParseTarget for bool {
    open spec fn spec_parse(f: Seq<char>) -> Option<OutputValue> {
        if f == "true"@ {
            Some(OutputValue::Bool(true))
        } else if f == "false"@ {
            Some(OutputValue::Bool(false))
        } else {
            None
        }
    }

    fn parse_fragment(f: &str) -> (r: Option<MapperOutput>) {
        let c = chars_of(f);
        let t = chars_of("true");
        let fa = chars_of("false");
        proof {
            reveal_strlit("true");
            reveal_strlit("false");
        }
        if same_chars(&c, &t) {
            Some(MapperOutput::Bool(true))
        } else if same_chars(&c, &fa) {
            Some(MapperOutput::Bool(false))
        } else {
            None
        }
    }
}

/// Converts a matched fragment into its value. It hands out a value for
/// every fragment its paired matcher accepts that the value's type can hold.
pub trait FragmentMapper {
    /// What mapping `f` gives.
    spec fn mapping(&self, f: Seq<char>) -> Option<OutputValue>;

    fn map(&self, fragment: &str) -> (r: Option<MapperOutput>)
        ensures
            gives(r, self.mapping(fragment@)),
    ;
}

/// A mapper that yields no value.
#[derive(Clone, Copy, Debug)]
pub struct NoopMapper;

impl FragmentMapper for NoopMapper {
    open spec fn mapping(&self, f: Seq<char>) -> Option<OutputValue> {
        Some(OutputValue::Unit)
    }

    fn map(&self, fragment: &str) -> (r: Option<MapperOutput>) {
        Some(MapperOutput::Unit)
    }
}

/// A mapper that parses the fragment as text into `F`.
pub struct FromStrMapper<F> {
    _target: core::marker::PhantomData<F>,
}

impl<F: ParseTarget> Default for FromStrMapper<F> {
    fn default() -> (r: Self)
        ensures
            forall|f: Seq<char>| #[trigger] r.mapping(f) == F::spec_parse(f),
    {
        FromStrMapper { _target: core::marker::PhantomData }
    }
}

impl<F: ParseTarget> FragmentMapper for FromStrMapper<F> {
    open spec fn mapping(&self, f: Seq<char>) -> Option<OutputValue> {
        F::spec_parse(f)
    }

    fn map(&self, fragment: &str) -> (r: Option<MapperOutput>) {
        F::parse_fragment(fragment)
    }
}

/// A mapper that extracts the user identifier of a mention, with or without
/// the nickname mark.
#[derive(Clone, Copy, Debug)]
pub struct UserMapper;

/// The digits of a mention.
pub open spec fn mention_digits(f: Seq<char>) -> Seq<char> {
    if f[2] == '!' {
        f.subrange(3, f.len() - 1)
    } else {
        f.subrange(2, f.len() - 1)
    }
}

impl FragmentMapper for UserMapper {
    open spec fn mapping(&self, f: Seq<char>) -> Option<OutputValue> {
        if is_mention(f) && decimal_value(mention_digits(f)) <= u64::MAX {
            Some(OutputValue::User(decimal_value(mention_digits(f)) as u64))
        } else {
            None
        }
    }

    fn map(&self, fragment: &str) -> (r: Option<MapperOutput>) {
        let f = chars_of(fragment);
        let n = f.len();
        if n < 4 || f[0] != '<' || f[1] != '@' || f[n - 1] != '>' {
            return None;
        }
        let start: usize = if f[2] == '!' {
            3
        } else {
            2
        };
        let mut digits: Vec<char> = Vec::new();
        let mut i = start;
        while i < n - 1
            invariant
                start <= i <= n - 1,
                n == f.len(),
                digits@ == f@.subrange(start as int, i as int),
            decreases n - 1 - i,
        {
            digits.push(f[i]);
            assert(f@.subrange(start as int, i + 1) =~= f@.subrange(start as int, i as int).push(f@[i as int]));
            i += 1;
        }
        assert(digits@.subrange(0, digits@.len() as int) =~= digits@);
        proof {
            if f@[2] == '!' {
                assert(f@.subrange(2, n - 1)[0] == '!');
                assert(!is_digits(f@.subrange(2, n - 1)));
            }
        }
        match parse_digits(&digits, 0) {
            Some(v) => Some(MapperOutput::User(UserId(v))),
            None => None,
        }
    }
}

/// A mapper that hands out the fragment's own text.
#[derive(Clone, Copy, Debug)]
pub struct ExactMapper;

impl FragmentMapper for ExactMapper {
    open spec fn mapping(&self, f: Seq<char>) -> Option<OutputValue> {
        Some(OutputValue::Text(f))
    }

    fn map(&self, fragment: &str) -> (r: Option<MapperOutput>) {
        Some(MapperOutput::Text(fragment.to_owned()))
    }
}

/// The mappers a registry can hold.
pub enum AnyMapper {
    Noop(NoopMapper),
    Exact(ExactMapper),
    User(UserMapper),
    Unsigned(FromStrMapper<u64>),
    Signed(FromStrMapper<i64>),
    Int(FromStrMapper<i32>),
    Bool(FromStrMapper<bool>),
}

impl FragmentMapper for AnyMapper {
    open spec fn mapping(&self, f: Seq<char>) -> Option<OutputValue> {
        match self {
            AnyMapper::Noop(m) => m.mapping(f),
            AnyMapper::Exact(m) => m.mapping(f),
            AnyMapper::User(m) => m.mapping(f),
            AnyMapper::Unsigned(m) => m.mapping(f),
            AnyMapper::Signed(m) => m.mapping(f),
            AnyMapper::Int(m) => m.mapping(f),
            AnyMapper::Bool(m) => m.mapping(f),
        }
    }

    fn map(&self, fragment: &str) -> (r: Option<MapperOutput>) {
        match self {
            AnyMapper::Noop(m) => m.map(fragment),
            AnyMapper::Exact(m) => m.map(fragment),
            AnyMapper::User(m) => m.map(fragment),
            AnyMapper::Unsigned(m) => m.map(fragment),
            AnyMapper::Signed(m) => m.map(fragment),
            AnyMapper::Int(m) => m.map(fragment),
            AnyMapper::Bool(m) => m.map(fragment),
        }
    }
}

/// A type whose values a mapper can hand out.
pub trait Downcast: Sized {
    /// The value of this type that `v` holds, if it holds one.
    spec fn spec_from_output(v: OutputValue) -> Option<Self>;

    fn from_output(o: MapperOutput) -> (r: Option<Self>)
        ensures
            r == Self::spec_from_output(o@),
    ;
}

impl Downcast for u64 {
    open spec fn spec_from_output(v: OutputValue) -> Option<u64> {
        match v {
            OutputValue::Unsigned(x) => Some(x),
            _ => None,
        }
    }

    fn from_output(o: MapperOutput) -> (r: Option<u64>) {
        match o {
            MapperOutput::Unsigned(x) => Some(x),
            _ => None,
        }
    }
}

impl Downcast for i64 {
    open spec fn spec_from_output(v: OutputValue) -> Option<i64> {
        match v {
            OutputValue::Signed(x) => Some(x),
            _ => None,
        }
    }

    fn from_output(o: MapperOutput) -> (r: Option<i64>) {
        match o {
            MapperOutput::Signed(x) => Some(x),
            _ => None,
        }
    }
}

impl Downcast for i32 {
    open spec fn spec_from_output(v: OutputValue) -> Option<i32> {
        match v {
            OutputValue::Int(x) => Some(x),
            _ => None,
        }
    }

    fn from_output(o: MapperOutput) -> (r: Option<i32>) {
        match o {
            MapperOutput::Int(x) => Some(x),
            _ => None,
        }
    }
}

impl Downcast for bool {
    open spec fn spec_from_output(v: OutputValue) -> Option<bool> {
        match v {
            OutputValue::Bool(x) => Some(x),
            _ => None,
        }
    }

    fn from_output(o: MapperOutput) -> (r: Option<bool>) {
        match o {
            MapperOutput::Bool(x) => Some(x),
            _ => None,
        }
    }
}

impl Downcast for UserId {
    open spec fn spec_from_output(v: OutputValue) -> Option<UserId> {
        match v {
            OutputValue::User(x) => Some(UserId(x)),
            _ => None,
        }
    }

    fn from_output(o: MapperOutput) -> (r: Option<UserId>) {
        match o {
            MapperOutput::User(x) => Some(x),
            _ => None,
        }
    }
}

/// Each matcher's paired mapper hands out a value for every fragment the
/// matcher accepts, provided the value's type can hold the number: unsigned
/// numbers, signed numbers and mentions.
pub proof fn lemma_matched_fragments_map(f: Seq<char>)
    ensures
        UnsignedMatcher.accepts(f) && decimal_value(f) <= u64::MAX ==> <u64 as ParseTarget>::spec_parse(f)
            == Some(OutputValue::Unsigned(decimal_value(f) as u64)),
        SignedMatcher.accepts(f) ==> signed_text_value(f) is Some,
        SignedMatcher.accepts(f) && i64::MIN <= signed_text_value(f)->Some_0 <= i64::MAX
            ==> <i64 as ParseTarget>::spec_parse(f) == Some(
            OutputValue::Signed(signed_text_value(f)->Some_0 as i64),
        ),
        UserIdMatcher.accepts(f) && decimal_value(mention_digits(f)) <= u64::MAX ==> UserMapper.mapping(f)
            == Some(OutputValue::User(decimal_value(mention_digits(f)) as u64)),
{
    if is_digits(f) {
        assert(is_digit(f[0]));
    }
    if is_signed_digits(f) && !is_digits(f) {
        assert(f[0] == '-');
    }
}

} // verus!

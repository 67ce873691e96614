use vstd::prelude::*;

use crate::error::{CmdError, CmdResult};
use crate::text::{chars_of, string_of};
use vstd::utf8::{char_is_scalar, encode_scalar, encode_utf8};

verus! {

/// Unicode `White_Space`, the set that `char::is_whitespace` tests.
pub open spec fn is_whitespace(c: char) -> bool {
    let v = c as u32;
    (0x9 <= v <= 0xd) || v == 0x20 || v == 0x85 || v == 0xa0 || v == 0x1680 || (0x2000 <= v
        <= 0x200a) || v == 0x2028 || v == 0x2029 || v == 0x202f || v == 0x205f || v == 0x3000
}

/// A character that opens a quoted fragment.
pub open spec fn is_quote(c: char) -> bool {
    c == '\'' || c == '"'
}

/// The first index at or after `i` that holds no whitespace (or the end).
pub open spec fn skip_whitespace(s: Seq<char>, i: int) -> int
    decreases s.len() - i,
{
    if 0 <= i < s.len() && is_whitespace(s[i]) {
        skip_whitespace(s, i + 1)
    } else {
        i
    }
}

/// The first index at or after `i` that holds whitespace (or the end).
pub open spec fn word_end(s: Seq<char>, i: int) -> int
    decreases s.len() - i,
{
    if 0 <= i < s.len() && !is_whitespace(s[i]) {
        word_end(s, i + 1)
    } else {
        i
    }
}

/// The first index at or after `i` that holds `q` (or the end).
pub open spec fn find_char(s: Seq<char>, q: char, i: int) -> int
    decreases s.len() - i,
{
    if 0 <= i < s.len() && s[i] != q {
        find_char(s, q, i + 1)
    } else {
        i
    }
}

/// One step of the tokenizer from position `i`: `None` once only whitespace
/// is left, else the fragment (or, for a quote that is never closed, the
/// index of the opening quote) and the position after it.
pub open spec fn step(s: Seq<char>, i: int) -> Option<(Result<Seq<char>, int>, int)> {
    let j = skip_whitespace(s, i);
    if j >= s.len() {
        None
    } else if is_quote(s[j]) {
        let k = find_char(s, s[j], j + 1);
        if k >= s.len() {
            Some((Err(j), s.len() as int))
        } else {
            Some((Ok(s.subrange(j + 1, k)), k + 1))
        }
    } else {
        Some((Ok(s.subrange(j, word_end(s, j))), word_end(s, j)))
    }
}

/// Everything the tokenizer yields from position `i` until it is drained.
pub open spec fn fragments(s: Seq<char>, i: int) -> Seq<Result<Seq<char>, int>>
    decreases s.len() - i,
{
    match step(s, i) {
        None => Seq::empty(),
        Some((r, n)) => if 0 <= i < n <= s.len() {
            seq![r] + fragments(s, n)
        } else {
            Seq::empty()
        },
    }
}

pub proof fn lemma_skip_whitespace_bounds(s: Seq<char>, i: int)
    requires
        0 <= i <= s.len(),
    ensures
        i <= skip_whitespace(s, i) <= s.len(),
        skip_whitespace(s, i) < s.len() ==> !is_whitespace(s[skip_whitespace(s, i)]),
        forall|k: int| i <= k < skip_whitespace(s, i) ==> is_whitespace(#[trigger] s[k]),
    decreases s.len() - i,
{
    if i < s.len() && is_whitespace(s[i]) {
        lemma_skip_whitespace_bounds(s, i + 1);
    }
}

pub proof fn lemma_word_end_bounds(s: Seq<char>, i: int)
    requires
        0 <= i <= s.len(),
    ensures
        i <= word_end(s, i) <= s.len(),
        word_end(s, i) < s.len() ==> is_whitespace(s[word_end(s, i)]),
        forall|k: int| i <= k < word_end(s, i) ==> !is_whitespace(#[trigger] s[k]),
    decreases s.len() - i,
{
    if i < s.len() && !is_whitespace(s[i]) {
        lemma_word_end_bounds(s, i + 1);
    }
}

pub proof fn lemma_find_char_bounds(s: Seq<char>, q: char, i: int)
    requires
        0 <= i <= s.len(),
    ensures
        i <= find_char(s, q, i) <= s.len(),
        find_char(s, q, i) < s.len() ==> s[find_char(s, q, i)] == q,
        forall|k: int| i <= k < find_char(s, q, i) ==> #[trigger] s[k] != q,
    decreases s.len() - i,
{
    if i < s.len() && s[i] != q {
        lemma_find_char_bounds(s, q, i + 1);
    }
}

/// A step that yields something moves strictly forward and stays in bounds.
pub proof fn lemma_step_advances(s: Seq<char>, i: int)
    requires
        0 <= i <= s.len(),
    ensures
        step(s, i) matches Some((_, n)) ==> i < n <= s.len(),
        step(s, i) is None <==> skip_whitespace(s, i) == s.len(),
{
    lemma_skip_whitespace_bounds(s, i);
    let j = skip_whitespace(s, i);
    if j < s.len() {
        if is_quote(s[j]) {
            lemma_find_char_bounds(s, s[j], j + 1);
        } else {
            lemma_word_end_bounds(s, j);
        }
    }
}

/// The message of the error for a quote that is never closed.
pub open spec fn unclosed_quote_message() -> Seq<char> {
    "Can't find closing quote."@
}

/// `r` is what the tokenizer yields for the step result `t` over the text `s`.
pub open spec fn yields(r: CmdResult<String>, t: Result<Seq<char>, int>, s: Seq<char>) -> bool {
    match t {
        Ok(f) => r matches Ok(g) && g@ == f,
        Err(j) => r matches Err(e) && unclosed_quote_error(e, s, j),
    }
}

/// The offset in bytes, in UTF-8, of the character at index `j` of `s`.
pub open spec fn byte_offset(s: Seq<char>, j: int) -> int {
    encode_utf8(s.take(j)).len() as int
}

/// `e` reports the quote at index `j` of `s` as never closed: its span runs
/// from that quote's byte offset to the last byte of `s`.
pub open spec fn unclosed_quote_error(e: CmdError, s: Seq<char>, j: int) -> bool {
    e matches CmdError::ParsingError { message, start, end } && start == byte_offset(s, j) && end
        == encode_utf8(s).len() - 1 && message@ == unclosed_quote_message()
}

pub(crate) fn skip_whitespace_from(s: &Vec<char>, i: usize) -> (r: usize)
    requires
        i <= s.len(),
    ensures
        r == skip_whitespace(s@, i as int),
{
    let mut k = i;
    while k < s.len() && is_whitespace_char(s[k])
        invariant
            i <= k <= s.len(),
            skip_whitespace(s@, k as int) == skip_whitespace(s@, i as int),
        decreases s.len() - k,
    {
        k += 1;
    }
    k
}

pub(crate) fn word_end_from(s: &Vec<char>, i: usize) -> (r: usize)
    requires
        i <= s.len(),
    ensures
        r == word_end(s@, i as int),
{
    let mut k = i;
    while k < s.len() && !is_whitespace_char(s[k])
        invariant
            i <= k <= s.len(),
            word_end(s@, k as int) == word_end(s@, i as int),
        decreases s.len() - k,
    {
        k += 1;
    }
    k
}

pub(crate) fn find_char_from(s: &Vec<char>, q: char, i: usize) -> (r: usize)
    requires
        i <= s.len(),
    ensures
        r == find_char(s@, q, i as int),
{
    let mut k = i;
    while k < s.len() && s[k] != q
        invariant
            i <= k <= s.len(),
            find_char(s@, q, k as int) == find_char(s@, q, i as int),
        decreases s.len() - k,
    {
        k += 1;
    }
    k
}

/// Tests `c` against Unicode `White_Space`.
pub fn is_whitespace_char(c: char) -> (r: bool)
    ensures
        r == is_whitespace(c),
{
    let v = c as u32;
    (0x9 <= v && v <= 0xd) || v == 0x20 || v == 0x85 || v == 0xa0 || v == 0x1680 || (0x2000
        <= v && v <= 0x200a) || v == 0x2028 || v == 0x2029 || v == 0x202f || v == 0x205f || v
        == 0x3000
}

/// The encoding of a concatenation is the concatenation of the encodings.
proof fn lemma_encode_concat(a: Seq<char>, b: Seq<char>)
    ensures
        encode_utf8(a + b) == encode_utf8(a) + encode_utf8(b),
    decreases a.len(),
{
    if a.len() == 0 {
        assert(a + b =~= b);
        assert(encode_utf8(a) + encode_utf8(b) =~= encode_utf8(b));
    } else {
        assert((a + b)[0] == a[0]);
        assert((a + b).drop_first() =~= a.drop_first() + b);
        lemma_encode_concat(a.drop_first(), b);
        assert(encode_utf8(a + b) =~= encode_utf8(a) + encode_utf8(b));
    }
}

/// One more character adds its encoding's length to the byte offset.
proof fn lemma_byte_offset_step(s: Seq<char>, j: int)
    requires
        0 <= j < s.len(),
    ensures
        byte_offset(s, j + 1) == byte_offset(s, j) + encode_scalar(s[j] as u32).len(),
        encode_scalar(s[j] as u32).len() >= 1,
{
    assert(s.take(j + 1) =~= s.take(j) + seq![s[j]]);
    lemma_encode_concat(s.take(j), seq![s[j]]);
    let one = seq![s[j]];
    assert(one.drop_first() =~= Seq::<char>::empty());
    assert(encode_utf8(Seq::<char>::empty()) =~= Seq::<u8>::empty());
    assert(encode_utf8(one) == encode_scalar(one[0] as u32) + encode_utf8(one.drop_first()));
    assert(encode_utf8(one) =~= encode_scalar(s[j] as u32));
    char_is_scalar(s[j]);
}

/// A byte offset lies within the encoding of the whole text.
proof fn lemma_byte_offset_bound(s: Seq<char>, j: int)
    requires
        0 <= j <= s.len(),
    ensures
        byte_offset(s, j) <= encode_utf8(s).len(),
{
    assert(s =~= s.take(j) + s.skip(j));
    lemma_encode_concat(s.take(j), s.skip(j));
}

/// The length of the UTF-8 encoding of `c`.
fn char_width(c: char) -> (r: usize)
    ensures
        r == encode_scalar(c as u32).len(),
{
    proof {
        char_is_scalar(c);
    }
    let v = c as u32;
    if v <= 0x7f {
        1
    } else if v <= 0x7ff {
        2
    } else if v <= 0xffff {
        3
    } else {
        4
    }
}

/// The byte offset of index `j` of `s`, whose encoding is `total` bytes long.
fn byte_offset_of(s: &Vec<char>, j: usize, total: usize) -> (r: usize)
    requires
        j <= s.len(),
        total == encode_utf8(s@).len(),
    ensures
        r == byte_offset(s@, j as int),
{
    let mut acc: usize = 0;
    let mut k: usize = 0;
    assert(s@.take(0) =~= Seq::<char>::empty());
    while k < j
        invariant
            j <= s.len(),
            total == encode_utf8(s@).len(),
            k <= j,
            acc == byte_offset(s@, k as int),
        decreases j - k,
    {
        proof {
            lemma_byte_offset_step(s@, k as int);
            lemma_byte_offset_bound(s@, k + 1);
        }
        acc = acc + char_width(s[k]);
        k += 1;
    }
    acc
}

/// Splits command text into fragments, one at a time: words are delimited by
/// whitespace, and a fragment that starts with `'` or `"` runs to the next
/// occurrence of the same quote, quotes excluded. Positions count
/// characters; the span of an error counts bytes of the UTF-8 text.
pub struct FragmentIter {
    original: Vec<char>,
    current_position: usize,
    byte_len: usize,
}

impl FragmentIter {
    /// The characters being split.
    pub closed spec fn text(&self) -> Seq<char> {
        self.original@
    }

    /// The position from which the next fragment is searched.
    pub closed spec fn pos(&self) -> int {
        self.current_position as int
    }

    pub closed spec fn wf(&self) -> bool {
        &&& self.current_position <= self.original.len()
        &&& self.byte_len == encode_utf8(self.original@).len()
    }

    pub fn new(original: String) -> (r: Self)
        ensures
            r.wf(),
            r.text() == original@,
            r.pos() == 0,
    {
        let chars = chars_of(original.as_str());
        let byte_len = original.as_str().as_bytes().len();
        FragmentIter { original: chars, current_position: 0, byte_len }
    }

    /// The current position.
    pub fn position(&self) -> (r: usize)
        ensures
            r == self.pos(),
            self.wf() ==> r <= self.text().len(),
    {
        self.current_position
    }

    /// Moves the position back to `p`.
    pub(crate) fn restore(&mut self, p: usize)
        requires
            old(self).wf(),
            p <= old(self).text().len(),
        ensures
            final(self).wf(),
            final(self).text() == old(self).text(),
            final(self).pos() == p,
    {
        self.current_position = p;
    }

    /// Moves the position past any whitespace.
    pub fn trim_self(&mut self)
        requires
            old(self).wf(),
        ensures
            final(self).wf(),
            final(self).text() == old(self).text(),
            final(self).pos() == skip_whitespace(old(self).text(), old(self).pos()),
    {
        proof {
            lemma_skip_whitespace_bounds(self.original@, self.current_position as int);
        }
        self.current_position = skip_whitespace_from(&self.original, self.current_position);
    }

    /// The number of characters before the first whitespace of `fragment`.
    pub fn find_end_of_word(fragment: &str) -> (r: usize)
        ensures
            r == word_end(fragment@, 0),
    {
        let chars = chars_of(fragment);
        word_end_from(&chars, 0)
    }

    /// Takes text that begins with a quote character and returns the index of
    /// the next occurrence of that same character, if any.
    pub fn find_end_of_quote(fragment: &str) -> (r: Option<usize>)
        requires
            fragment@.len() > 0,
        ensures
            ({
                let k = find_char(fragment@, fragment@[0], 1);
                match r {
                    Some(e) => k < fragment@.len() && e == k,
                    None => k == fragment@.len(),
                }
            }),
    {
        let chars = chars_of(fragment);
        proof {
            lemma_find_char_bounds(chars@, chars@[0], 1);
        }
        let k = find_char_from(&chars, chars[0], 1);
        if k < chars.len() {
            Some(k)
        } else {
            None
        }
    }

    /// The next fragment, or the error for a quote that is never closed
    /// (after which the text counts as consumed), or `None` once drained.
    pub fn next(&mut self) -> (r: Option<CmdResult<String>>)
        requires
            old(self).wf(),
        ensures
            final(self).wf(),
            final(self).text() == old(self).text(),
            match step(old(self).text(), old(self).pos()) {
                None => r is None && final(self).pos() == old(self).text().len(),
                Some((t, n)) => r matches Some(x) && yields(x, t, old(self).text())
                    && final(self).pos() == n,
            },
    {
        proof {
            lemma_step_advances(self.original@, self.current_position as int);
            lemma_skip_whitespace_bounds(self.original@, self.current_position as int);
        }
        self.trim_self();
        let j = self.current_position;
        let len = self.original.len();
        if j >= len {
            return None;
        }
        let first = self.original[j];
        if first == '\'' || first == '"' {
            proof {
                lemma_find_char_bounds(self.original@, first, j + 1);
            }
            let k = find_char_from(&self.original, first, j + 1);
            if k >= len {
                self.current_position = len;
                let start = byte_offset_of(&self.original, j, self.byte_len);
                proof {
                    lemma_byte_offset_step(self.original@, j as int);
                    lemma_byte_offset_bound(self.original@, j + 1);
                }
                let message = String::from_str("Can't find closing quote.");
                proof {
                    reveal_strlit("Can't find closing quote.");
                }
                return Some(
                    Err(CmdError::ParsingError { message, start, end: self.byte_len - 1 }),
                );
            }
            let fragment = string_of(&self.original, j + 1, k);
            self.current_position = k + 1;
            Some(Ok(fragment))
        } else {
            proof {
                lemma_word_end_bounds(self.original@, j as int);
            }
            let k = word_end_from(&self.original, j);
            let fragment = string_of(&self.original, j, k);
            self.current_position = k;
            Some(Ok(fragment))
        }
    }
}

/// Unfolds `fragments` by one step.
pub proof fn lemma_fragments_unfold(s: Seq<char>, i: int)
    requires
        0 <= i <= s.len(),
    ensures
        match step(s, i) {
            None => fragments(s, i) == Seq::<Result<Seq<char>, int>>::empty(),
            Some((t, n)) => i < n <= s.len() && fragments(s, i) == seq![t] + fragments(s, n),
        },
{
    lemma_step_advances(s, i);
}

/// Every quote that opens a fragment is closed later in the text.
pub open spec fn quotes_balanced(s: Seq<char>, i: int) -> bool
    decreases s.len() - i,
{
    let j = skip_whitespace(s, i);
    if i < 0 || i > s.len() || j >= s.len() {
        true
    } else if is_quote(s[j]) {
        let k = find_char(s, s[j], j + 1);
        if k >= s.len() {
            false
        } else if k + 1 > i {
            quotes_balanced(s, k + 1)
        } else {
            true
        }
    } else if i < word_end(s, j) <= s.len() {
        quotes_balanced(s, word_end(s, j))
    } else {
        true
    }
}

/// `f` is `s[a..b]` for a span that is either a whole word (non-empty, free
/// of whitespace, not opening with a quote, followed by whitespace or the
/// end) or the whole content between two equal quote characters.
pub open spec fn delimited(s: Seq<char>, f: Seq<char>, a: int, b: int) -> bool {
    &&& 0 <= a <= b <= s.len()
    &&& f == s.subrange(a, b)
    &&& {
        ||| {
            &&& a < b
            &&& !is_quote(s[a])
            &&& forall|m: int| a <= m < b ==> !is_whitespace(#[trigger] s[m])
            &&& (b == s.len() || is_whitespace(s[b]))
        }
        ||| {
            &&& 1 <= a
            &&& b < s.len()
            &&& is_quote(s[a - 1])
            &&& s[b] == s[a - 1]
            &&& forall|m: int| a <= m < b ==> #[trigger] s[m] != s[a - 1]
        }
    }
}

/// `t` is a fragment, delimited in `s`.
pub open spec fn clean_fragment(s: Seq<char>, t: Result<Seq<char>, int>) -> bool {
    t is Ok && exists|a: int, b: int| #[trigger] delimited(s, t->Ok_0, a, b)
}

/// On text whose quotes are balanced, draining the tokenizer fails nowhere,
/// and each fragment is a whole word or a whole quoted content, without the
/// whitespace around it or its quotes.
pub proof fn lemma_balanced_fragments_clean(s: Seq<char>, i: int)
    requires
        0 <= i <= s.len(),
        quotes_balanced(s, i),
    ensures
        first_error(fragments(s, i)) is None,
        forall|k: int|
            0 <= k < fragments(s, i).len() ==> clean_fragment(s, #[trigger] fragments(s, i)[k]),
    decreases s.len() - i,
{
    lemma_fragments_unfold(s, i);
    lemma_skip_whitespace_bounds(s, i);
    let j = skip_whitespace(s, i);
    if let Some((t, n)) = step(s, i) {
        lemma_balanced_fragments_clean(s, n);
        if is_quote(s[j]) {
            lemma_find_char_bounds(s, s[j], j + 1);
            let k = find_char(s, s[j], j + 1);
            assert(delimited(s, s.subrange(j + 1, k), j + 1, k));
            assert(t == Ok::<Seq<char>, int>(s.subrange(j + 1, k)));
            assert(delimited(s, t->Ok_0, j + 1, k));
        } else {
            lemma_word_end_bounds(s, j);
            assert(delimited(s, s.subrange(j, word_end(s, j)), j, word_end(s, j)));
            assert(t == Ok::<Seq<char>, int>(s.subrange(j, word_end(s, j))));
            assert(delimited(s, t->Ok_0, j, word_end(s, j)));
        }
        assert(first_error(fragments(s, i)) is None) by {
            assert(fragments(s, i)[0] == t);
            assert(fragments(s, i).drop_first() =~= fragments(s, n));
        }
        assert forall|k: int| 0 <= k < fragments(s, i).len() implies clean_fragment(
            s,
            #[trigger] fragments(s, i)[k],
        ) by {
            if k > 0 {
                assert(fragments(s, i)[k] == fragments(s, n)[k - 1]);
            } else {
                assert(fragments(s, i)[k] == t);
            }
        }
    }
}

/// A quote that is never closed fails the tokenizer: the error is the last
/// thing it yields, and it names the index of that opening quote, after
/// which the same quote character never occurs.
pub proof fn lemma_unclosed_quote_error(s: Seq<char>, i: int)
    requires
        0 <= i <= s.len(),
    ensures
        forall|k: int|
            0 <= k < fragments(s, i).len() && #[trigger] fragments(s, i)[k] is Err ==> {
                let j = fragments(s, i)[k]->Err_0;
                &&& k == fragments(s, i).len() - 1
                &&& i <= j < s.len()
                &&& is_quote(s[j])
                &&& forall|m: int| j < m < s.len() ==> #[trigger] s[m] != s[j]
            },
    decreases s.len() - i,
{
    lemma_fragments_unfold(s, i);
    lemma_skip_whitespace_bounds(s, i);
    let j = skip_whitespace(s, i);
    if let Some((t, n)) = step(s, i) {
        lemma_unclosed_quote_error(s, n);
        if is_quote(s[j]) {
            lemma_find_char_bounds(s, s[j], j + 1);
            if find_char(s, s[j], j + 1) >= s.len() {
                lemma_fragments_unfold(s, s.len() as int);
                lemma_skip_whitespace_bounds(s, s.len() as int);
                assert(fragments(s, n).len() == 0);
            }
        }
        assert forall|k: int|
            0 <= k < fragments(s, i).len() && #[trigger] fragments(s, i)[k] is Err implies {
            let e = fragments(s, i)[k]->Err_0;
            &&& k == fragments(s, i).len() - 1
            &&& i <= e < s.len()
            &&& is_quote(s[e])
            &&& forall|m: int| e < m < s.len() ==> #[trigger] s[m] != s[e]
        } by {
            if k > 0 {
                assert(fragments(s, i)[k] == fragments(s, n)[k - 1]);
            }
        }
    }
}

/// The error of the first fragment of `ts` that failed, if any.
pub open spec fn first_error(ts: Seq<Result<Seq<char>, int>>) -> Option<int>
    decreases ts.len(),
{
    if ts.len() == 0 {
        None
    } else if let Err(j) = ts[0] {
        Some(j)
    } else {
        first_error(ts.drop_first())
    }
}

proof fn lemma_first_error_concat(a: Seq<Result<Seq<char>, int>>, b: Seq<Result<Seq<char>, int>>)
    requires
        first_error(a) is None,
    ensures
        first_error(a + b) == first_error(b),
    decreases a.len(),
{
    if a.len() > 0 {
        assert((a + b)[0] == a[0]);
        assert((a + b).drop_first() == a.drop_first() + b);
        lemma_first_error_concat(a.drop_first(), b);
    } else {
        assert(a + b == b);
    }
}

/// Drains the tokenizer over `raw`: every fragment when no quote is left
/// open, else the error of the first one that failed.
pub fn tokenize(raw: &str) -> (r: CmdResult<Vec<String>>)
    ensures
        ({
            let ts = fragments(raw@, 0);
            match first_error(ts) {
                None => r matches Ok(v) && v.len() == ts.len() && forall|k: int|
                    0 <= k < ts.len() ==> ts[k] == Ok::<Seq<char>, int>(#[trigger] v[k]@),
                Some(j) => r matches Err(e) && unclosed_quote_error(e, raw@, j),
            }
        }),
{
    let mut it = FragmentIter::new(raw.to_owned());
    let mut out: Vec<String> = Vec::new();
    let ghost s = raw@;
    let ghost done: Seq<Result<Seq<char>, int>> = Seq::empty();
    loop
        invariant
            it.wf(),
            s == raw@,
            it.text() == s,
            0 <= it.pos() <= s.len(),
            fragments(s, 0) == done + fragments(s, it.pos()),
            first_error(done) is None,
            out.len() == done.len(),
            forall|k: int| 0 <= k < done.len() ==> done[k] == Ok::<Seq<char>, int>(#[trigger] out[k]@),
        decreases s.len() - it.pos(),
    {
        proof {
            lemma_fragments_unfold(s, it.pos());
        }
        let ghost old_pos = it.pos();
        match it.next() {
            None => {
                assert(done + fragments(s, old_pos) =~= done);
                return Ok(out);
            }
            Some(Ok(f)) => {
                proof {
                    let t = Ok::<Seq<char>, int>(f@);
                    lemma_first_error_concat(done, seq![t]);
                    assert(first_error(seq![t]) is None) by {
                        reveal_with_fuel(first_error, 2);
                    }
                    assert(done + fragments(s, old_pos) =~= done.push(t) + fragments(s, it.pos()));
                    assert(done + seq![t] =~= done.push(t));
                    done = done.push(t);
                }
                out.push(f);
            }
            Some(Err(e)) => {
                proof {
                    lemma_first_error_concat(done, fragments(s, old_pos));
                }
                return Err(e);
            }
        }
    }
}

} // verus!

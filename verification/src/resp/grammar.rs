//! The wire grammar, stated over sequences of characters.
//!
//! Four shapes of token are recognised, told apart by their first character:
//!
//! | first character | token                                                   |
//! |-----------------|---------------------------------------------------------|
//! | `*`             | array header: `*<digits>\r\n`                           |
//! | `$`             | bulk string: `$<digits>\r\n` and then that many characters |
//! | ASCII letter    | bare word: everything up to the next whitespace         |
//! | `"`             | quoted string: everything up to the next `"`            |
//!
//! Any other character between tokens is noise and is skipped.
//!
//! The end of the input ends no token: a bare word with no whitespace behind
//! it, a quoted string that is not closed and a bulk string shorter than its
//! prefix declares are all cut short, and refused.

use vstd::prelude::*;

verus! {

/// Why an input is not a sentence of the wire grammar. Decoding stops at the
/// first of these; none of them is recoverable.
#[derive(Debug, PartialEq, Eq, Clone, Copy)]
pub enum ProtocolError {
    /// A length prefix is not one or more decimal digits followed by `\r\n`,
    /// or the number does not fit in `usize`.
    MalformedLength,
    /// The input ends in the middle of a token.
    UnexpectedEnd,
    /// An array header declares a number of elements that the input does not
    /// deliver.
    ArraySizeMismatch,
}

/// One lexical unit of the input.
#[derive(Debug, PartialEq, Eq)]
pub enum Token {
    /// A decoded string: a bulk string, a bare word or a quoted string.
    String(String),
    /// An array header with the number of elements it declares.
    Array(usize),
}

/// The mathematical value of a [`Token`].
pub enum TokenView {
    String(Seq<char>),
    Array(nat),
}

impl View for Token {
    type V = TokenView;

    open spec fn view(&self) -> TokenView {
        match *self {
            Token::String(s) => TokenView::String(s@),
            Token::Array(n) => TokenView::Array(n as nat),
        }
    }
}

pub open spec fn is_ascii_digit(c: char) -> bool {
    '0' <= c <= '9'
}

pub open spec fn is_ascii_letter(c: char) -> bool {
    ('a' <= c <= 'z') || ('A' <= c <= 'Z')
}

/// Whether `c` can begin a token.
pub open spec fn is_token_start(c: char) -> bool {
    c == '*' || c == '$' || c == '"' || is_ascii_letter(c)
}

/// What `char::is_whitespace` answers for a character `c` beyond ASCII:
/// whether `c` has the Unicode property `White_Space`.
pub uninterp spec fn white_space_beyond_ascii(c: char) -> bool;

/// Whether `c` is whitespace, as `char::is_whitespace` has it. Of the ASCII
/// characters the space and the five from tab to carriage return (U+0009
/// to U+000D) are whitespace, and no other.
pub open spec fn is_whitespace(c: char) -> bool {
    if c <= '\x7f' {
        c == ' ' || '\t' <= c <= '\r'
    } else {
        white_space_beyond_ascii(c)
    }
}

pub open spec fn token_start() -> spec_fn(char) -> bool {
    |c: char| is_token_start(c)
}

pub open spec fn non_digit() -> spec_fn(char) -> bool {
    |c: char| !is_ascii_digit(c)
}

pub open spec fn quote() -> spec_fn(char) -> bool {
    |c: char| c == '"'
}

pub open spec fn whitespace() -> spec_fn(char) -> bool {
    |c: char| is_whitespace(c)
}

/// The index of the first character at or after `from` on which `stop`
/// holds, or `s.len()` if there is none.
pub open spec fn find_from(s: Seq<char>, from: int, stop: spec_fn(char) -> bool) -> int
    recommends
        0 <= from <= s.len(),
    decreases s.len() - from,
{
    if 0 <= from < s.len() && !stop(s[from]) {
        find_from(s, from + 1, stop)
    } else {
        from
    }
}

/// `find_from` returns the least index that it promises.
pub proof fn lemma_find_from(s: Seq<char>, from: int, stop: spec_fn(char) -> bool)
    requires
        0 <= from <= s.len(),
    ensures
        from <= find_from(s, from, stop) <= s.len(),
        find_from(s, from, stop) < s.len() ==> stop(s[find_from(s, from, stop)]),
        forall|i: int| from <= i < find_from(s, from, stop) ==> !stop(#[trigger] s[i]),
    decreases s.len() - from,
{
    if from < s.len() && !stop(s[from]) {
        lemma_find_from(s, from + 1, stop);
    }
}

/// The number that a digit stands for.
pub open spec fn digit_value(c: char) -> nat {
    (c as int - '0' as int) as nat
}

/// The number that a run of decimal digits spells, most significant digit
/// first. The empty run spells zero.
pub open spec fn decimal_value(digits: Seq<char>) -> nat
    decreases digits.len(),
{
    if digits.len() == 0 {
        0
    } else {
        decimal_value(digits.drop_last()) * 10 + digit_value(digits.last())
    }
}

/// A run of digits spells at least what any of its prefixes spells.
pub proof fn lemma_decimal_value_prefix(digits: Seq<char>, k: int)
    requires
        0 <= k <= digits.len(),
    ensures
        decimal_value(digits.take(k)) <= decimal_value(digits),
    decreases digits.len(),
{
    if k == digits.len() {
        assert(digits.take(k) =~= digits);
    } else {
        assert(digits.drop_last().take(k) =~= digits.take(k));
        lemma_decimal_value_prefix(digits.drop_last(), k);
    }
}

/// A length prefix that begins at `from`: the number it spells and the index
/// just behind its `\r\n`.
///
/// The digits are the longest run of decimal digits at `from`. Reading
/// from left to right, the first fault decides: a number over `usize::MAX`
/// is malformed wherever the run ends; a run that is empty, or followed by
/// anything but `\r\n`, is malformed; and where the input ends before that
/// can be told, the prefix is cut short.
pub open spec fn length_prefix(s: Seq<char>, from: int) -> Result<(nat, int), ProtocolError> {
    let end = find_from(s, from, non_digit());
    let n = decimal_value(s.subrange(from, end));
    if n > usize::MAX {
        Err(ProtocolError::MalformedLength)
    } else if end >= s.len() {
        Err(ProtocolError::UnexpectedEnd)
    } else if end == from || s[end] != '\r' {
        Err(ProtocolError::MalformedLength)
    } else if end + 1 >= s.len() {
        Err(ProtocolError::UnexpectedEnd)
    } else if s[end + 1] != '\n' {
        Err(ProtocolError::MalformedLength)
    } else {
        Ok((n, end + 2))
    }
}

/// The first token at or after `from`, with the index just behind it;
/// `None` if only noise is left.
///
/// A bulk string is the characters behind its prefix, as many as the prefix
/// declares, whatever they are. A bare word begins with its letter and ends
/// before the next whitespace character, which is consumed with it. A
/// quoted string is what stands between its quotes.
pub open spec fn token_at(s: Seq<char>, from: int) -> Result<
    Option<(TokenView, int)>,
    ProtocolError,
> {
    let start = find_from(s, from, token_start());
    if start >= s.len() {
        Ok(None)
    } else if s[start] == '*' {
        match length_prefix(s, start + 1) {
            Ok((n, next)) => Ok(Some((TokenView::Array(n), next))),
            Err(e) => Err(e),
        }
    } else if s[start] == '$' {
        match length_prefix(s, start + 1) {
            Ok((n, body)) => if body + n <= s.len() {
                Ok(Some((TokenView::String(s.subrange(body, body + n)), body + n)))
            } else {
                Err(ProtocolError::UnexpectedEnd)
            },
            Err(e) => Err(e),
        }
    } else if s[start] == '"' {
        let close = find_from(s, start + 1, quote());
        if close < s.len() {
            Ok(Some((TokenView::String(s.subrange(start + 1, close)), close + 1)))
        } else {
            Err(ProtocolError::UnexpectedEnd)
        }
    } else {
        let end = find_from(s, start + 1, whitespace());
        if end < s.len() {
            Ok(Some((TokenView::String(s.subrange(start, end)), end + 1)))
        } else {
            Err(ProtocolError::UnexpectedEnd)
        }
    }
}

/// A token takes at least one character and ends inside the input.
pub proof fn lemma_token_at_bounds(s: Seq<char>, from: int)
    requires
        0 <= from <= s.len(),
    ensures
        token_at(s, from) matches Ok(Some((_, next))) ==> from < next <= s.len(),
{
    let start = find_from(s, from, token_start());
    lemma_find_from(s, from, token_start());
    if start < s.len() {
        lemma_find_from(s, start + 1, non_digit());
        lemma_find_from(s, start + 1, quote());
        lemma_find_from(s, start + 1, whitespace());
    }
}

/// Searching a suffix of the input is searching the input from where the
/// suffix begins.
pub proof fn lemma_find_from_suffix(
    s: Seq<char>,
    p: int,
    from: int,
    stop: spec_fn(char) -> bool,
)
    requires
        0 <= p,
        0 <= from,
        p + from <= s.len(),
    ensures
        find_from(s.skip(p), from, stop) + p == find_from(s, p + from, stop),
    decreases s.len() - p - from,
{
    if from < s.skip(p).len() && !stop(s.skip(p)[from]) {
        lemma_find_from_suffix(s, p, from + 1, stop);
    }
}

/// A length prefix reads the same in a suffix of the input as in the input.
pub proof fn lemma_length_prefix_suffix(s: Seq<char>, p: int, from: int)
    requires
        0 <= p,
        0 <= from,
        p + from <= s.len(),
    ensures
        length_prefix(s.skip(p), from) == match length_prefix(s, p + from) {
            Ok((n, next)) => Ok::<(nat, int), ProtocolError>((n, next - p)),
            Err(e) => Err(e),
        },
{
    let end = find_from(s, p + from, non_digit());
    lemma_find_from_suffix(s, p, from, non_digit());
    lemma_find_from(s, p + from, non_digit());
    assert(s.skip(p).subrange(from, end - p) =~= s.subrange(p + from, end));
}

/// A token reads the same in a suffix of the input as in the input.
pub proof fn lemma_token_at_suffix(s: Seq<char>, p: int)
    requires
        0 <= p <= s.len(),
    ensures
        token_at(s.skip(p), 0) == match token_at(s, p) {
            Ok(Some((t, next))) => Ok::<Option<(TokenView, int)>, ProtocolError>(
                Some((t, next - p)),
            ),
            Ok(None) => Ok(None),
            Err(e) => Err(e),
        },
{
    let start = find_from(s, p, token_start());
    lemma_find_from_suffix(s, p, 0, token_start());
    lemma_find_from(s, p, token_start());
    if start < s.len() {
        let rest = s.skip(p);
        if s[start] == '*' {
            lemma_length_prefix_suffix(s, p, start + 1 - p);
        } else if s[start] == '$' {
            lemma_length_prefix_suffix(s, p, start + 1 - p);
            lemma_find_from(s, start + 1, non_digit());
            if let Ok((n, body)) = length_prefix(s, start + 1) {
                if body + n <= s.len() {
                    assert(rest.subrange(body - p, body - p + n) =~= s.subrange(body, body + n));
                }
            }
        } else if s[start] == '"' {
            let close = find_from(s, start + 1, quote());
            lemma_find_from_suffix(s, p, start + 1 - p, quote());
            lemma_find_from(s, start + 1, quote());
            assert(rest.subrange(start + 1 - p, close - p) =~= s.subrange(start + 1, close));
        } else {
            let end = find_from(s, start + 1, whitespace());
            lemma_find_from_suffix(s, p, start + 1 - p, whitespace());
            lemma_find_from(s, start + 1, whitespace());
            assert(rest.subrange(start - p, end - p) =~= s.subrange(start, end));
        }
    }
}

/// The first token of `rest` and the number of characters that it takes up,
/// noise in front of it included; `None` if only noise is left.
pub open spec fn next_token(rest: Seq<char>) -> Result<Option<(TokenView, int)>, ProtocolError> {
    token_at(rest, 0)
}

/// All the tokens of `s`, in order, or the first error met on the way.
pub open spec fn tokens(s: Seq<char>) -> Result<Seq<TokenView>, ProtocolError>
    decreases s.len(),
    via tokens_decreases
{
    match next_token(s) {
        Err(e) => Err(e),
        Ok(None) => Ok(Seq::empty()),
        Ok(Some((t, used))) => match tokens(s.skip(used)) {
            Ok(more) => Ok(seq![t] + more),
            Err(e) => Err(e),
        },
    }
}

#[via_fn]
proof fn tokens_decreases(s: Seq<char>) {
    lemma_token_at_bounds(s, 0);
}

/// The strings among `ts`, in order.
pub open spec fn texts(ts: Seq<TokenView>) -> Seq<Seq<char>>
    decreases ts.len(),
{
    if ts.len() == 0 {
        Seq::empty()
    } else {
        match ts.last() {
            TokenView::String(text) => texts(ts.drop_last()).push(text),
            TokenView::Array(_) => texts(ts.drop_last()),
        }
    }
}

/// The strings of a concatenation are those of its parts, concatenated.
pub proof fn lemma_texts_concat(a: Seq<TokenView>, b: Seq<TokenView>)
    ensures
        texts(a + b) == texts(a) + texts(b),
    decreases b.len(),
{
    if b.len() == 0 {
        assert(a + b =~= a);
        assert(texts(a) + texts(b) =~= texts(a));
    } else {
        assert((a + b).drop_last() =~= a + b.drop_last());
        lemma_texts_concat(a, b.drop_last());
        assert(texts(a + b) =~= texts(a) + texts(b));
    }
}

/// The strings behind the header at `i` are those of `ts` less those in
/// front of the header.
pub proof fn lemma_texts_behind_header(ts: Seq<TokenView>, i: int)
    requires
        0 <= i < ts.len(),
        ts[i] is Array,
    ensures
        texts(ts.skip(i + 1)).len() == texts(ts).len() - texts(ts.take(i)).len(),
{
    assert(ts =~= ts.take(i + 1) + ts.skip(i + 1));
    lemma_texts_concat(ts.take(i + 1), ts.skip(i + 1));
    assert(ts.take(i + 1).drop_last() =~= ts.take(i));
}

/// Whether every array header in `ts` tells the truth: the number it
/// declares is the number of strings between it and the end of the input.
///
/// A header thus governs everything behind it, a later header and what
/// follows that one included.
pub open spec fn headers_honest(ts: Seq<TokenView>) -> bool {
    forall|i: int|
        0 <= i < ts.len() ==> (#[trigger] ts[i] matches TokenView::Array(n) ==> texts(
            ts.skip(i + 1),
        ).len() == n)
}

/// What the input `s` decodes to: its strings in order, provided that the
/// whole of `s` can be cut into tokens and that every array header in it is
/// honest.
pub open spec fn decode(s: Seq<char>) -> Result<Seq<Seq<char>>, ProtocolError> {
    match tokens(s) {
        Err(e) => Err(e),
        Ok(ts) => if headers_honest(ts) {
            Ok(texts(ts))
        } else {
            Err(ProtocolError::ArraySizeMismatch)
        },
    }
}

/// What a recursive descent makes of the tokens `ts`: a string is put in
/// front of what the tokens behind it give; a header lets the tokens behind
/// it be decoded to the end and passes the result on if it has as many
/// strings as the header declares.
pub open spec fn descend(ts: Seq<TokenView>) -> Result<Seq<Seq<char>>, ProtocolError>
    decreases ts.len(),
{
    if ts.len() == 0 {
        Ok(Seq::empty())
    } else {
        match descend(ts.drop_first()) {
            Err(e) => Err(e),
            Ok(behind) => match ts.first() {
                TokenView::String(text) => Ok(seq![text] + behind),
                TokenView::Array(n) => if behind.len() == n {
                    Ok(behind)
                } else {
                    Err(ProtocolError::ArraySizeMismatch)
                },
            },
        }
    }
}

/// Recursive descent and the rule of honest headers agree on every token
/// stream.
pub proof fn lemma_descend_is_decode(ts: Seq<TokenView>)
    ensures
        descend(ts) == if headers_honest(ts) {
            Ok::<Seq<Seq<char>>, ProtocolError>(texts(ts))
        } else {
            Err(ProtocolError::ArraySizeMismatch)
        },
    decreases ts.len(),
{
    if ts.len() > 0 {
        let rest = ts.drop_first();
        lemma_descend_is_decode(rest);
        assert(ts.skip(1) =~= rest);
        if headers_honest(ts) {
            assert forall|i: int| 0 <= i < rest.len() && #[trigger] rest[i] is Array implies texts(
                rest.skip(i + 1),
            ).len() == rest[i]->Array_0 by {
                assert(ts[i + 1] == rest[i]);
                assert(rest.skip(i + 1) =~= ts.skip(i + 2));
            }
            assert(headers_honest(rest));
            assert(ts[0] is Array ==> texts(rest).len() == ts[0]->Array_0);
            // The strings of `ts` are those of its first token and those of `rest`.
            let head = seq![ts.first()];
            assert(ts =~= head + rest);
            lemma_texts_concat(head, rest);
            assert(head.drop_last() =~= Seq::<TokenView>::empty());
            assert(texts(head.drop_last()) =~= Seq::<Seq<char>>::empty());
            match ts.first() {
                TokenView::String(text) => {
                    assert(texts(head) =~= seq![text]);
                },
                TokenView::Array(_) => {
                    assert(texts(head) + texts(rest) =~= texts(rest));
                },
            }
        } else {
            let i = choose|i: int|
                0 <= i < ts.len() && (#[trigger] ts[i]) is Array && texts(ts.skip(i + 1)).len()
                    != ts[i]->Array_0;
            if i > 0 {
                assert(rest[i - 1] == ts[i]);
                assert(rest.skip(i) =~= ts.skip(i + 1));
                assert(!headers_honest(rest));
            }
        }
    }
}

} // verus!

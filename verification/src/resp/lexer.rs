//! The lexer: a cursor over the input that hands out one token at a time.

use super::grammar::{
    decimal_value, find_from, is_token_start, lemma_decimal_value_prefix,
    lemma_find_from, lemma_token_at_suffix, length_prefix, next_token, non_digit, quote,
    token_start, white_space_beyond_ascii, whitespace, ProtocolError, Token,
};
use vstd::prelude::*;

verus! {

/// A cursor over a sequence of characters.
///
/// Its view is the input that it has not consumed yet.
pub struct Lexer {
    input: Vec<char>,
    pos: usize,
}

impl View for Lexer {
    type V = Seq<char>;

    closed spec fn view(&self) -> Seq<char> {
        self.input@.skip(self.pos as int)
    }
}

/// `String::push` appends the character to the end of the string and leaves
/// the characters before it as they were. This is taken from its
/// documentation, not proved.
pub assume_specification[ std::string::String::push ](s: &mut std::string::String, ch: char)
    ensures
        final(s)@ == old(s)@.push(ch),
;

/// Calls `char::is_whitespace`. Two things are claimed of it without
/// proof. On an ASCII character it answers `true` for the space and for
/// U+0009 to U+000D, and `false` for every other. Beyond ASCII its answer
/// depends on the character alone, and is given the name
/// [`white_space_beyond_ascii`].
#[verifier::external_body]
fn char_is_whitespace(c: char) -> (r: bool)
    ensures
        c <= '\x7f' ==> r == (c == ' ' || '\t' <= c <= '\r'),
        c > '\x7f' ==> r == white_space_beyond_ascii(c),
{
    c.is_whitespace()
}

fn char_is_token_start(c: char) -> (r: bool)
    ensures
        r == is_token_start(c),
{
    c == '*' || c == '$' || c == '"' || ('a' <= c && c <= 'z') || ('A' <= c && c <= 'Z')
}

/// Copies `input[from..to]` into a fresh string.
fn copy_range(input: &Vec<char>, from: usize, to: usize) -> (r: String)
    requires
        from <= to <= input.len(),
    ensures
        r@ == input@.subrange(from as int, to as int),
{
    let mut r = String::new();
    let mut i: usize = from;
    while i < to
        invariant
            from <= i <= to <= input.len(),
            r@ == input@.subrange(from as int, i as int),
        decreases to - i,
    {
        r.push(input[i]);
        i += 1;
    }
    r
}

impl Lexer {
    #[verifier::type_invariant]
    spec fn in_bounds(self) -> bool {
        self.pos <= self.input.len()
    }

    /// A lexer at the start of `input`.
    pub fn new(input: Vec<char>) -> (lexer: Lexer)
        ensures
            lexer@ == input@,
    {
        Lexer { input, pos: 0 }
    }

    /// Takes the next token off the input.
    ///
    /// Returns `Ok(None)` once only noise is left, and consumes that noise.
    /// An error consumes nothing: the lexer stays where it was.
    pub fn next(&mut self) -> (r: Result<Option<Token>, ProtocolError>)
        ensures
            match next_token(old(self)@) {
                Ok(Some((t, used))) => r matches Ok(Some(token)) && token@ == t && final(self)@
                    == old(self)@.skip(used),
                Ok(None) => r matches Ok(None) && final(self)@ == Seq::<char>::empty(),
                Err(e) => r == Err::<Option<Token>, ProtocolError>(e) && final(self)@ == old(
                    self,
                )@,
            },
    {
        proof {
            use_type_invariant(&*self);
            lemma_token_at_suffix(self.input@, self.pos as int);
        }
        let ghost before = self.input@.skip(self.pos as int);
        let len = self.input.len();
        let start = self.skip_noise(self.pos);
        if start >= len {
            self.pos = len;
            return Ok(None);
        }
        let first = self.input[start];
        if first == '*' {
            match self.read_size(start + 1) {
                Ok((size, after)) => {
                    proof {
                        assert(before.skip(after - self.pos) =~= self.input@.skip(after as int));
                    }
                    self.pos = after;
                    Ok(Some(Token::Array(size)))
                },
                Err(e) => Err(e),
            }
        } else if first == '$' {
            match self.read_size(start + 1) {
                Ok((size, body)) => {
                    if size > len - body {
                        return Err(ProtocolError::UnexpectedEnd);
                    }
                    let text = copy_range(&self.input, body, body + size);
                    proof {
                        assert(before.skip(body + size - self.pos) =~= self.input@.skip(
                            body + size,
                        ));
                    }
                    self.pos = body + size;
                    Ok(Some(Token::String(text)))
                },
                Err(e) => Err(e),
            }
        } else if first == '"' {
            let close = self.find_quote(start + 1);
            if close >= len {
                return Err(ProtocolError::UnexpectedEnd);
            }
            let text = copy_range(&self.input, start + 1, close);
            proof {
                assert(before.skip(close + 1 - self.pos) =~= self.input@.skip(close + 1));
            }
            self.pos = close + 1;
            Ok(Some(Token::String(text)))
        } else {
            let end = self.find_whitespace(start + 1);
            if end >= len {
                return Err(ProtocolError::UnexpectedEnd);
            }
            let text = copy_range(&self.input, start, end);
            proof {
                assert(before.skip(end + 1 - self.pos) =~= self.input@.skip(end + 1));
            }
            self.pos = end + 1;
            Ok(Some(Token::String(text)))
        }
    }

    /// Drops whatever input is left.
    pub fn discard_rest(&mut self)
        ensures
            final(self)@ == Seq::<char>::empty(),
    {
        self.pos = self.input.len();
    }

    /// The index of the first token start at or after `from`.
    fn skip_noise(&self, from: usize) -> (i: usize)
        requires
            from <= self.input.len(),
        ensures
            i == find_from(self.input@, from as int, token_start()),
            from <= i <= self.input.len(),
    {
        let mut i: usize = from;
        while i < self.input.len() && !char_is_token_start(self.input[i])
            invariant
                from <= i <= self.input.len(),
                find_from(self.input@, from as int, token_start()) == find_from(
                    self.input@,
                    i as int,
                    token_start(),
                ),
            decreases self.input.len() - i,
        {
            i += 1;
        }
        i
    }

    /// The index of the first `"` at or after `from`.
    fn find_quote(&self, from: usize) -> (i: usize)
        requires
            from <= self.input.len(),
        ensures
            i == find_from(self.input@, from as int, quote()),
            from <= i <= self.input.len(),
    {
        let mut i: usize = from;
        while i < self.input.len() && self.input[i] != '"'
            invariant
                from <= i <= self.input.len(),
                find_from(self.input@, from as int, quote()) == find_from(
                    self.input@,
                    i as int,
                    quote(),
                ),
            decreases self.input.len() - i,
        {
            i += 1;
        }
        i
    }

    /// The index of the first whitespace character at or after `from`.
    fn find_whitespace(&self, from: usize) -> (i: usize)
        requires
            from <= self.input.len(),
        ensures
            i == find_from(self.input@, from as int, whitespace()),
            from <= i <= self.input.len(),
    {
        let mut i: usize = from;
        while i < self.input.len() && !char_is_whitespace(self.input[i])
            invariant
                from <= i <= self.input.len(),
                find_from(self.input@, from as int, whitespace()) == find_from(
                    self.input@,
                    i as int,
                    whitespace(),
                ),
            decreases self.input.len() - i,
        {
            i += 1;
        }
        i
    }

    /// Reads the length prefix that begins at `from`: the number it spells
    /// and the index just behind it.
    fn read_size(&self, from: usize) -> (r: Result<(usize, usize), ProtocolError>)
        requires
            from <= self.input.len(),
        ensures
            match length_prefix(self.input@, from as int) {
                Ok((n, next)) => r matches Ok((size, after)) && size == n && after == next && from
                    < next <= self.input.len(),
                Err(e) => r == Err::<(usize, usize), ProtocolError>(e),
            },
    {
        let len = self.input.len();
        let ghost end = find_from(self.input@, from as int, non_digit());
        proof {
            lemma_find_from(self.input@, from as int, non_digit());
        }
        let mut size: usize = 0;
        let mut i: usize = from;
        while i < len && '0' <= self.input[i] && self.input[i] <= '9'
            invariant
                len == self.input.len(),
                from <= i <= end <= len,
                end == find_from(self.input@, from as int, non_digit()),
                end == find_from(self.input@, i as int, non_digit()),
                size == decimal_value(self.input@.subrange(from as int, i as int)),
            decreases len - i,
        {
            let digit = (self.input[i] as u32 - '0' as u32) as usize;
            proof {
                assert(!non_digit()(self.input@[i as int]));
                lemma_find_from(self.input@, i + 1, non_digit());
                let run = self.input@.subrange(from as int, i + 1);
                assert(run.drop_last() =~= self.input@.subrange(from as int, i as int));
                assert(run.last() == self.input@[i as int]);
                assert(decimal_value(run) == size * 10 + digit);
                assert(self.input@.subrange(from as int, end).take(i + 1 - from) =~= run);
                lemma_decimal_value_prefix(self.input@.subrange(from as int, end), i + 1 - from);
            }
            let grown = match size.checked_mul(10) {
                Some(tens) => tens.checked_add(digit),
                None => None,
            };
            match grown {
                Some(value) => {
                    size = value;
                },
                None => {
                    return Err(ProtocolError::MalformedLength);
                },
            }
            i += 1;
        }
        if i >= len {
            Err(ProtocolError::UnexpectedEnd)
        } else if i == from || self.input[i] != '\r' {
            Err(ProtocolError::MalformedLength)
        } else if i + 1 >= len {
            Err(ProtocolError::UnexpectedEnd)
        } else if self.input[i + 1] != '\n' {
            Err(ProtocolError::MalformedLength)
        } else {
            Ok((size, i + 2))
        }
    }
}

} // verus!

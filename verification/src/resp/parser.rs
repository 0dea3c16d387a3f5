//! The parser: flattens the token stream into an argument list.

use super::grammar::{
    decode, lemma_texts_behind_header, lemma_token_at_bounds, texts, tokens, ProtocolError, Token,
    TokenView,
};
use super::lexer::Lexer;
use vstd::prelude::*;

verus! {

/// Decodes one input into its argument list.
///
/// Its view is the input that it has not consumed yet.
pub struct Parser {
    lexer: Lexer,
}

impl View for Parser {
    type V = Seq<char>;

    closed spec fn view(&self) -> Seq<char> {
        self.lexer@
    }
}

/// The token stream `rest` with the tokens `done` put in front of it.
spec fn with_prefix(
    done: Seq<TokenView>,
    rest: Result<Seq<TokenView>, ProtocolError>,
) -> Result<Seq<TokenView>, ProtocolError> {
    match rest {
        Ok(more) => Ok(done + more),
        Err(e) => Err(e),
    }
}

impl Parser {
    /// A parser at the start of `input`.
    pub fn new(input: &str) -> (parser: Parser)
        ensures
            parser@ == input@,
    {
        let mut chars: Vec<char> = Vec::new();
        for c in it: input.chars()
            invariant
                chars@ == it.seq().take(it.index()),
        {
            chars.push(c);
        }
        Parser { lexer: Lexer::new(chars) }
    }

    /// Decodes the whole of the remaining input into its argument list.
    ///
    /// The arguments are the strings of the input in order. An array header
    /// adds no argument; it declares how many strings follow it up to the end
    /// of the input, and the input is refused with
    /// [`ProtocolError::ArraySizeMismatch`] if any header declares another
    /// number. An error of the lexer comes first: headers are compared only
    /// once the whole input has been cut into tokens.
    ///
    /// Whatever the outcome, no input is left afterwards.
    pub fn parse(&mut self) -> (r: Result<Vec<String>, ProtocolError>)
        ensures
            final(self)@ == Seq::<char>::empty(),
            match decode(old(self)@) {
                Ok(args) => r matches Ok(v) && v.deep_view() == args,
                Err(e) => r == Err::<Vec<String>, ProtocolError>(e),
            },
    {
        let ghost input = self@;
        let mut out: Vec<String> = Vec::new();
        // For each header met: the number of strings in front of it, and the
        // number of strings that it declares.
        let mut headers: Vec<(usize, usize)> = Vec::new();
        let ghost mut done: Seq<TokenView> = Seq::empty();
        // `at[j]` is the place in `done` of the header `headers[j]`, and
        // `slot[i]` is the place in `headers` of the token `done[i]`.
        let ghost mut at: Seq<int> = Seq::empty();
        let ghost mut slot: Seq<int> = Seq::empty();
        proof {
            if let Ok(all) = tokens(input) {
                assert(Seq::<TokenView>::empty() + all =~= all);
            }
        }
        loop
            invariant
                input == old(self)@,
                tokens(input) == with_prefix(done, tokens(self.lexer@)),
                out.deep_view() == texts(done),
                at.len() == headers.len(),
                slot.len() == done.len(),
                forall|j: int|
                    0 <= j < at.len() ==> {
                        &&& 0 <= #[trigger] at[j] < done.len()
                        &&& done[at[j]] == TokenView::Array(headers[j].1 as nat)
                        &&& headers[j].0 == texts(done.take(at[j])).len()
                    },
                forall|i: int|
                    0 <= i < done.len() && done[i] is Array ==> 0 <= #[trigger] slot[i] < at.len()
                        && at[slot[i]] == i,
            ensures
                tokens(input) == Ok::<Seq<TokenView>, ProtocolError>(done),
                self.lexer@ == Seq::<char>::empty(),
            decreases self.lexer@.len(),
        {
            let ghost rest = self.lexer@;
            proof {
                lemma_token_at_bounds(rest, 0);
            }
            match self.lexer.next() {
                Err(e) => {
                    self.lexer.discard_rest();
                    return Err(e);
                },
                Ok(None) => {
                    proof {
                        assert(done + Seq::<TokenView>::empty() =~= done);
                    }
                    break ;
                },
                Ok(Some(token)) => {
                    let ghost grown = done.push(token@);
                    proof {
                        let more = tokens(self.lexer@);
                        if more is Ok {
                            assert(grown + more.unwrap() =~= done + (seq![token@] + more.unwrap()));
                        }
                        assert forall|j: int| 0 <= j < at.len() implies grown.take(
                            #[trigger] at[j],
                        ) == done.take(at[j]) by {
                            assert(grown.take(at[j]) =~= done.take(at[j]));
                        }
                        assert(grown.drop_last() =~= done);
                    }
                    match token {
                        Token::String(text) => {
                            proof {
                                assert(out.deep_view().push(text@) =~= out@.push(text).map_values(
                                    |s: String| s.deep_view(),
                                ));
                                slot = slot.push(-1);
                            }
                            out.push(text);
                        },
                        Token::Array(declared) => {
                            proof {
                                assert(grown.take(done.len() as int) =~= done);
                                at = at.push(done.len() as int);
                                slot = slot.push(headers.len() as int);
                            }
                            headers.push((out.len(), declared));
                        },
                    }
                    proof {
                        done = grown;
                    }
                },
            }
        }
        let total = out.len();
        let mut j: usize = 0;
        while j < headers.len()
            invariant
                0 <= j <= headers.len(),
                input == old(self)@,
                tokens(input) == Ok::<Seq<TokenView>, ProtocolError>(done),
                self.lexer@ == Seq::<char>::empty(),
                total == texts(done).len(),
                at.len() == headers.len(),
                forall|j: int|
                    0 <= j < at.len() ==> {
                        &&& 0 <= #[trigger] at[j] < done.len()
                        &&& done[at[j]] == TokenView::Array(headers[j].1 as nat)
                        &&& headers[j].0 == texts(done.take(at[j])).len()
                    },
                forall|k: int| 0 <= k < j ==> (#[trigger] headers[k]).0 + headers[k].1 == total,
            decreases headers.len() - j,
        {
            let (before, declared) = headers[j];
            proof {
                lemma_texts_behind_header(done, at[j as int]);
            }
            if total - before != declared {
                proof {
                    let i = at[j as int];
                    assert(done[i] is Array && texts(done.skip(i + 1)).len() != done[i]->Array_0);
                }
                return Err(ProtocolError::ArraySizeMismatch);
            }
            j += 1;
        }
        proof {
            assert forall|i: int| 0 <= i < done.len() && done[i] is Array implies texts(
                done.skip(i + 1),
            ).len() == done[i]->Array_0 by {
                lemma_texts_behind_header(done, i);
                assert(at[slot[i]] == i);
            }
        }
        Ok(out)
    }
}

} // verus!

use vstd::prelude::*;
use vstd::string::StrSliceExecFns;

use crate::classify::char_is_alphabetic;
use crate::classify::char_is_dec_digit;
use crate::classify::char_is_numeric;
use crate::classify::char_is_whitespace;
use crate::classify::is_whitespace;
use crate::model::alpha_run;
use crate::model::digit_run;
use crate::model::keyword_token;
use crate::model::lemma_lex_step;
use crate::model::lemma_step_consumes;
use crate::model::lex_spec;
use crate::model::next_spec;
use crate::model::skip_ws;
use crate::model::step_rest;
use crate::model::step_tok;
use crate::token::Token;

verus! {

/// A pull-based lexer: a forward-only cursor over the input characters.
///
/// Its view is the text that the cursor has not consumed yet; producing a
/// token only ever shrinks it.  A lexer is built once from a complete
/// input, mutated by each [`Lexer::next_token`] call, and is exhausted for
/// good once that call returns `None`.
pub struct Lexer {
    text: String,
    length: usize,
    pos: usize,
}

impl View for Lexer {
    type V = Seq<char>;

    /// The characters not yet consumed.
    closed spec fn view(&self) -> Seq<char> {
        self.text@.skip(self.pos as int)
    }
}

impl Lexer {
    /// The cursor stays within the input.
    pub closed spec fn wf(&self) -> bool {
        self.length == self.text@.len() && self.pos <= self.length
    }

    /// Wraps a complete input text; any text, including the empty one, is
    /// accepted.
    pub fn new(input: &str) -> (lx: Lexer)
        ensures
            lx.wf(),
            lx@ == input@,
    {
        let length: usize = input.unicode_len();
        let lx = Lexer { text: input.to_owned(), length, pos: 0 };
        proof {
            assert(lx@ =~= input@);
        }
        lx
    }

    /// Consumes and returns the next character, or `None` at end of input.
    fn read_char(&mut self) -> (r: Option<char>)
        requires
            old(self).wf(),
        ensures
            final(self).wf(),
            final(self).text == old(self).text,
            old(self)@.len() > 0 ==> r == Some(old(self)@[0]) && final(self)@ == old(
                self,
            )@.drop_first() && final(self).pos == old(self).pos + 1,
            old(self)@.len() == 0 ==> r is None && *final(self) == *old(self),
    {
        if self.pos < self.length {
            let c: char = self.text.as_str().get_char(self.pos);
            self.pos = self.pos + 1;
            proof {
                assert(old(self)@[0] == self.text@[old(self).pos as int]);
                assert(self@ =~= old(self)@.drop_first());
            }
            Some(c)
        } else {
            None
        }
    }

    /// Returns the next character without consuming it, or `None` at end
    /// of input.
    fn peek_char(&self) -> (r: Option<char>)
        requires
            self.wf(),
        ensures
            self@.len() > 0 ==> r == Some(self@[0]),
            self@.len() == 0 ==> r is None,
    {
        if self.pos < self.length {
            let c: char = self.text.as_str().get_char(self.pos);
            proof {
                assert(self@[0] == self.text@[self.pos as int]);
            }
            Some(c)
        } else {
            None
        }
    }

    /// Consumes the leading run of whitespace, producing nothing.
    fn skip_whitespace(&mut self)
        requires
            old(self).wf(),
        ensures
            final(self).wf(),
            final(self).text == old(self).text,
            final(self)@ == skip_ws(old(self)@),
    {
        let ghost s0 = self@;
        loop
            invariant
                self.wf(),
                self.text == old(self).text,
                skip_ws(self@) == skip_ws(s0),
            ensures
                self.wf(),
                self.text == old(self).text,
                skip_ws(self@) == skip_ws(s0),
                self@.len() > 0 ==> !is_whitespace(self@[0]),
            decreases self@.len(),
        {
            match self.peek_char() {
                Option::Some(c) => {
                    if char_is_whitespace(c) {
                        let _ = self.read_char();
                    } else {
                        break ;
                    }
                },
                Option::None => {
                    break ;
                },
            }
        }
        proof {
            assert(skip_ws(self@) == self@);
        }
    }

    /// Scans the rest of an identifier whose first character `c` was just
    /// consumed: takes the maximal run of alphabetic characters and
    /// returns `c` followed by that run, copied out of the input.
    fn read_ident(&mut self, c: char) -> (ident: String)
        requires
            old(self).wf(),
            old(self).pos >= 1,
            old(self).text@[old(self).pos - 1] == c,
        ensures
            final(self).wf(),
            final(self).text@ == old(self).text@,
            ident@ == seq![c] + old(self)@.take(alpha_run(old(self)@)),
            final(self)@ == old(self)@.skip(alpha_run(old(self)@)),
    {
        let start: usize = self.pos - 1;
        let ghost t0 = self.text@;
        let ghost p0 = self.pos as int;
        loop
            invariant
                self.wf(),
                self.text@ == t0,
                p0 <= self.pos,
                alpha_run(t0.skip(p0)) == (self.pos - p0) + alpha_run(t0.skip(self.pos as int)),
            ensures
                self.wf(),
                self.text@ == t0,
                p0 <= self.pos,
                alpha_run(t0.skip(p0)) == self.pos - p0,
            decreases self@.len(),
        {
            match self.peek_char() {
                Option::Some(nc) => {
                    if char_is_alphabetic(nc) {
                        proof {
                            assert(nc == t0.skip(self.pos as int)[0]);
                            assert(t0.skip(self.pos as int).drop_first() =~= t0.skip(
                                self.pos as int + 1,
                            ));
                        }
                        let _ = self.read_char();
                    } else {
                        proof {
                            assert(nc == t0.skip(self.pos as int)[0]);
                            assert(alpha_run(t0.skip(self.pos as int)) == 0);
                        }
                        break ;
                    }
                },
                Option::None => {
                    proof {
                        assert(t0.skip(self.pos as int).len() == 0);
                        assert(alpha_run(t0.skip(self.pos as int)) == 0);
                    }
                    break ;
                },
            }
        }
        let s: &str = self.text.as_str().substring_char(start, self.pos);
        let ident: String = s.to_owned();
        proof {
            let n = alpha_run(t0.skip(p0));
            assert(ident@ =~= seq![c] + t0.skip(p0).take(n));
            assert(self@ =~= t0.skip(p0).skip(n));
        }
        ident
    }

    /// Scans the rest of an integer literal whose first character `c` was
    /// just consumed: takes the maximal run of decimal digits and returns
    /// `c` followed by that run, as raw digit text.
    fn read_number(&mut self, c: char) -> (number: String)
        requires
            old(self).wf(),
            old(self).pos >= 1,
            old(self).text@[old(self).pos - 1] == c,
        ensures
            final(self).wf(),
            final(self).text@ == old(self).text@,
            number@ == seq![c] + old(self)@.take(digit_run(old(self)@)),
            final(self)@ == old(self)@.skip(digit_run(old(self)@)),
    {
        let start: usize = self.pos - 1;
        let ghost t0 = self.text@;
        let ghost p0 = self.pos as int;
        loop
            invariant
                self.wf(),
                self.text@ == t0,
                p0 <= self.pos,
                digit_run(t0.skip(p0)) == (self.pos - p0) + digit_run(t0.skip(self.pos as int)),
            ensures
                self.wf(),
                self.text@ == t0,
                p0 <= self.pos,
                digit_run(t0.skip(p0)) == self.pos - p0,
            decreases self@.len(),
        {
            match self.peek_char() {
                Option::Some(nc) => {
                    if char_is_dec_digit(nc) {
                        proof {
                            assert(nc == t0.skip(self.pos as int)[0]);
                            assert(t0.skip(self.pos as int).drop_first() =~= t0.skip(
                                self.pos as int + 1,
                            ));
                        }
                        let _ = self.read_char();
                    } else {
                        proof {
                            assert(nc == t0.skip(self.pos as int)[0]);
                            assert(digit_run(t0.skip(self.pos as int)) == 0);
                        }
                        break ;
                    }
                },
                Option::None => {
                    proof {
                        assert(t0.skip(self.pos as int).len() == 0);
                        assert(digit_run(t0.skip(self.pos as int)) == 0);
                    }
                    break ;
                },
            }
        }
        let s: &str = self.text.as_str().substring_char(start, self.pos);
        let number: String = s.to_owned();
        proof {
            let n = digit_run(t0.skip(p0));
            assert(number@ =~= seq![c] + t0.skip(p0).take(n));
            assert(self@ =~= t0.skip(p0).skip(n));
        }
        number
    }

    /// Classifies a scanned word: a reserved word becomes its fixed
    /// token, anything else an identifier.
    fn check_keyword(ident: String) -> (t: Token)
        ensures
            t@ == keyword_token(ident@),
    {
        if ident == "fn".to_owned() {
            Token::Function
        } else if ident == "if".to_owned() {
            Token::If
        } else if ident == "else".to_owned() {
            Token::Else
        } else if ident == "true".to_owned() {
            Token::True
        } else if ident == "false".to_owned() {
            Token::False
        } else if ident == "return".to_owned() {
            Token::Return
        } else if ident == "let".to_owned() {
            Token::Let
        } else if ident == "while".to_owned() {
            Token::While
        } else {
            Token::Ident(ident)
        }
    }

    /// Produces the next token, advancing the cursor past the whitespace
    /// and the characters it consumed.
    ///
    /// Returns `Some` exactly when a token remains ([`next_spec`] on the
    /// unconsumed text says which one), and `None` exactly when the input
    /// is exhausted; exhaustion is terminal, so every later call returns
    /// `None` again.
    pub fn next_token(&mut self) -> (r: Option<Token>)
        requires
            old(self).wf(),
        ensures
            final(self).wf(),
            (r is Some) == (next_spec(old(self)@) is Some),
            r is None ==> final(self)@ == Seq::<char>::empty(),
            r matches Some(tok) ==> tok@ == step_tok(old(self)@) && final(self)@ == step_rest(
                old(self)@,
            ),
    {
        self.skip_whitespace();
        match self.read_char() {
            Option::None => {
                proof {
                    assert(self@ =~= Seq::<char>::empty());
                }
                Option::None
            },
            Option::Some(c) => {
                let tok: Token = match c {
                    '!' => {
                        let two: bool = match self.peek_char() {
                            Option::Some(nc) => nc == '=',
                            Option::None => false,
                        };
                        if two {
                            let _ = self.read_char();
                            Token::NotEq
                        } else {
                            Token::Bang
                        }
                    },
                    '=' => {
                        let two: bool = match self.peek_char() {
                            Option::Some(nc) => nc == '=',
                            Option::None => false,
                        };
                        if two {
                            let _ = self.read_char();
                            Token::Eq
                        } else {
                            Token::Assign
                        }
                    },
                    '(' => Token::LParen,
                    ')' => Token::RParen,
                    '{' => Token::LBrace,
                    '}' => Token::RBrace,
                    ',' => Token::Comma,
                    ';' => Token::Semicolon,
                    '>' => Token::Gt,
                    '<' => Token::Lt,
                    '+' => Token::Plus,
                    '-' => Token::Minus,
                    '*' => Token::Asterisk,
                    '/' => Token::Slash,
                    _ => {
                        if char_is_alphabetic(c) {
                            let ident = self.read_ident(c);
                            Lexer::check_keyword(ident)
                        } else if char_is_numeric(c) {
                            let number = self.read_number(c);
                            Token::Int(number)
                        } else {
                            Token::Illegal(c)
                        }
                    },
                };
                Option::Some(tok)
            },
        }
    }
}

/// Lexes a whole input text: pulls tokens until exhaustion and returns
/// them in order.  The sequence is exactly [`lex_spec`] of the input, and
/// it never holds more tokens than the input has characters.
pub fn lex(input: &str) -> (r: Vec<Token>)
    ensures
        r@.map_values(|t: Token| t@) == lex_spec(input@),
        r@.len() <= input@.len(),
{
    let mut lx = Lexer::new(input);
    let mut out: Vec<Token> = Vec::new();
    loop
        invariant
            lx.wf(),
            out@.map_values(|t: Token| t@) + lex_spec(lx@) == lex_spec(input@),
        ensures
            out@.map_values(|t: Token| t@) == lex_spec(input@),
        decreases lx@.len(),
    {
        let ghost pre = lx@;
        match lx.next_token() {
            Option::Some(t) => {
                proof {
                    lemma_lex_step(pre);
                    lemma_step_consumes(pre);
                    assert(out@.push(t).map_values(|t: Token| t@) =~= out@.map_values(
                        |t: Token| t@,
                    ).push(t@));
                    assert(out@.map_values(|t: Token| t@).push(t@) + lex_spec(lx@) =~= out@
                        .map_values(|t: Token| t@) + (seq![t@] + lex_spec(lx@)));
                }
                out.push(t);
            },
            Option::None => {
                proof {
                    lemma_lex_step(pre);
                    assert(out@.map_values(|t: Token| t@) + lex_spec(pre) =~= out@.map_values(
                        |t: Token| t@,
                    ));
                }
                break ;
            },
        }
    }
    proof {
        crate::laws::lemma_lex_length_bounded(input@);
    }
    out
}

} // verus!

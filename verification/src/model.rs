use vstd::prelude::*;

use crate::classify::is_alphabetic;
use crate::classify::is_dec_digit;
use crate::classify::is_numeric;
use crate::classify::is_whitespace;
use crate::token::TokenModel;

verus! {

/// The input with its leading run of whitespace removed.
pub open spec fn skip_ws(s: Seq<char>) -> Seq<char>
    decreases s.len(),
{
    if s.len() > 0 && is_whitespace(s[0]) {
        skip_ws(s.drop_first())
    } else {
        s
    }
}

/// Length of the maximal leading run of alphabetic characters.
pub open spec fn alpha_run(s: Seq<char>) -> int
    decreases s.len(),
{
    if s.len() > 0 && is_alphabetic(s[0]) {
        1 + alpha_run(s.drop_first())
    } else {
        0
    }
}

/// Length of the maximal leading run of decimal digits.
pub open spec fn digit_run(s: Seq<char>) -> int
    decreases s.len(),
{
    if s.len() > 0 && is_dec_digit(s[0]) {
        1 + digit_run(s.drop_first())
    } else {
        0
    }
}

/// Classifies a scanned word: each reserved word maps to its fixed token,
/// any other word is an identifier.
pub open spec fn keyword_token(text: Seq<char>) -> TokenModel {
    if text == "fn"@ {
        TokenModel::Function
    } else if text == "if"@ {
        TokenModel::If
    } else if text == "else"@ {
        TokenModel::Else
    } else if text == "true"@ {
        TokenModel::True
    } else if text == "false"@ {
        TokenModel::False
    } else if text == "return"@ {
        TokenModel::Return
    } else if text == "let"@ {
        TokenModel::Let
    } else if text == "while"@ {
        TokenModel::While
    } else {
        TokenModel::Ident(text)
    }
}

/// The characters that begin an operator or punctuation token; they are
/// claimed before identifier, number and illegal classification.
pub open spec fn is_symbol_char(c: char) -> bool {
    ||| c == '!'
    ||| c == '='
    ||| c == '('
    ||| c == ')'
    ||| c == '{'
    ||| c == '}'
    ||| c == ','
    ||| c == ';'
    ||| c == '>'
    ||| c == '<'
    ||| c == '+'
    ||| c == '-'
    ||| c == '*'
    ||| c == '/'
}

/// One step of lexing: skip leading whitespace, then either report
/// exhaustion (`None`) or produce the next token together with the text
/// that remains after it.
///
/// Two-character operators are decided by one character of lookahead
/// before the one-character form is chosen; identifier and number scans
/// take the maximal run of eligible characters.
pub open spec fn next_spec(s: Seq<char>) -> Option<(TokenModel, Seq<char>)> {
    let t = skip_ws(s);
    if t.len() == 0 {
        Option::None
    } else {
        let c = t[0];
        let r = t.drop_first();
        if c == '!' {
            if r.len() > 0 && r[0] == '=' {
                Option::Some((TokenModel::NotEq, r.drop_first()))
            } else {
                Option::Some((TokenModel::Bang, r))
            }
        } else if c == '=' {
            if r.len() > 0 && r[0] == '=' {
                Option::Some((TokenModel::Eq, r.drop_first()))
            } else {
                Option::Some((TokenModel::Assign, r))
            }
        } else if c == '(' {
            Option::Some((TokenModel::LParen, r))
        } else if c == ')' {
            Option::Some((TokenModel::RParen, r))
        } else if c == '{' {
            Option::Some((TokenModel::LBrace, r))
        } else if c == '}' {
            Option::Some((TokenModel::RBrace, r))
        } else if c == ',' {
            Option::Some((TokenModel::Comma, r))
        } else if c == ';' {
            Option::Some((TokenModel::Semicolon, r))
        } else if c == '>' {
            Option::Some((TokenModel::Gt, r))
        } else if c == '<' {
            Option::Some((TokenModel::Lt, r))
        } else if c == '+' {
            Option::Some((TokenModel::Plus, r))
        } else if c == '-' {
            Option::Some((TokenModel::Minus, r))
        } else if c == '*' {
            Option::Some((TokenModel::Asterisk, r))
        } else if c == '/' {
            Option::Some((TokenModel::Slash, r))
        } else if is_alphabetic(c) {
            let n = alpha_run(r);
            Option::Some((keyword_token(seq![c] + r.take(n)), r.skip(n)))
        } else if is_numeric(c) {
            let n = digit_run(r);
            Option::Some((TokenModel::Int(seq![c] + r.take(n)), r.skip(n)))
        } else {
            Option::Some((TokenModel::Illegal(c), r))
        }
    }
}

/// The token of the next lexing step.
pub open spec fn step_tok(s: Seq<char>) -> TokenModel
    recommends
        next_spec(s) is Some,
{
    match next_spec(s) {
        Option::Some(p) => p.0,
        Option::None => TokenModel::Illegal(' '),
    }
}

/// The text remaining after the next lexing step.
pub open spec fn step_rest(s: Seq<char>) -> Seq<char> {
    match next_spec(s) {
        Option::Some(p) => p.1,
        Option::None => Seq::empty(),
    }
}

/// The full token sequence of an input text: lexing steps taken until
/// exhaustion.
pub open spec fn lex_spec(s: Seq<char>) -> Seq<TokenModel>
    decreases s.len(),
{
    match next_spec(s) {
        Option::None => Seq::empty(),
        Option::Some(p) => {
            if p.1.len() < s.len() {
                seq![p.0] + lex_spec(p.1)
            } else {
                seq![p.0]
            }
        },
    }
}

/// Whether `r` is a token boundary of `s`: the text still to be lexed
/// after some number of lexing steps (zero steps included, so `s` itself
/// is one).
pub open spec fn is_rest_point(s: Seq<char>, r: Seq<char>) -> bool
    decreases s.len(),
{
    ||| r == s
    ||| (next_spec(s) is Some && step_rest(s).len() < s.len() && is_rest_point(step_rest(s), r))
}

/// A token boundary is never longer than the text it lies in.
pub proof fn lemma_rest_point_len(s: Seq<char>, r: Seq<char>)
    requires
        is_rest_point(s, r),
    ensures
        r.len() <= s.len(),
    decreases s.len(),
{
    if r != s {
        lemma_rest_point_len(step_rest(s), r);
    }
}

/// A token boundary as long as the text is the text itself.
pub proof fn lemma_rest_point_whole(s: Seq<char>, r: Seq<char>)
    requires
        is_rest_point(s, r),
        r.len() == s.len(),
    ensures
        r == s,
{
    if r != s {
        lemma_rest_point_len(step_rest(s), r);
    }
}

pub proof fn lemma_skip_ws_len(s: Seq<char>)
    ensures
        skip_ws(s).len() <= s.len(),
    decreases s.len(),
{
    if s.len() > 0 && is_whitespace(s[0]) {
        lemma_skip_ws_len(s.drop_first());
    }
}

pub proof fn lemma_alpha_run_bounds(s: Seq<char>)
    ensures
        0 <= alpha_run(s) <= s.len(),
    decreases s.len(),
{
    if s.len() > 0 && is_alphabetic(s[0]) {
        lemma_alpha_run_bounds(s.drop_first());
    }
}

pub proof fn lemma_digit_run_bounds(s: Seq<char>)
    ensures
        0 <= digit_run(s) <= s.len(),
    decreases s.len(),
{
    if s.len() > 0 && is_dec_digit(s[0]) {
        lemma_digit_run_bounds(s.drop_first());
    }
}

/// Every produced token consumes at least one character: the text
/// remaining after a step is strictly shorter.
pub proof fn lemma_step_consumes(s: Seq<char>)
    requires
        next_spec(s) is Some,
    ensures
        step_rest(s).len() < s.len(),
{
    lemma_skip_ws_len(s);
    let t = skip_ws(s);
    let r = t.drop_first();
    lemma_alpha_run_bounds(r);
    lemma_digit_run_bounds(r);
}

/// What survives whitespace skipping never starts with whitespace.
pub proof fn lemma_skip_ws_head(s: Seq<char>)
    ensures
        skip_ws(s).len() > 0 ==> !is_whitespace(skip_ws(s)[0]),
    decreases s.len(),
{
    if s.len() > 0 && is_whitespace(s[0]) {
        lemma_skip_ws_head(s.drop_first());
    }
}

/// Whitespace skipping removes a whitespace prefix and nothing else: what
/// survives is a suffix of the input.
pub proof fn lemma_skip_ws_suffix(s: Seq<char>)
    ensures
        skip_ws(s) == s.skip(s.len() - skip_ws(s).len()),
        forall|i: int| 0 <= i < s.len() - skip_ws(s).len() ==> is_whitespace(s[i]),
    decreases s.len(),
{
    lemma_skip_ws_len(s);
    if s.len() > 0 && is_whitespace(s[0]) {
        lemma_skip_ws_suffix(s.drop_first());
        lemma_skip_ws_len(s.drop_first());
        assert(s.drop_first().skip(s.drop_first().len() - skip_ws(s).len()) =~= s.skip(
            s.len() - skip_ws(s).len(),
        ));
        assert forall|i: int| 0 <= i < s.len() - skip_ws(s).len() implies is_whitespace(
            s[i],
        ) by {
            if i > 0 {
                assert(s[i] == s.drop_first()[i - 1]);
            }
        }
    } else {
        assert(s.skip(0) =~= s);
    }
}

/// Every character inside an alphabetic run is alphabetic, and the first
/// character after it, if any, is not.
pub proof fn lemma_alpha_run_shape(s: Seq<char>)
    ensures
        forall|i: int| 0 <= i < alpha_run(s) ==> is_alphabetic(s[i]),
        alpha_run(s) < s.len() ==> !is_alphabetic(s[alpha_run(s)]),
    decreases s.len(),
{
    lemma_alpha_run_bounds(s);
    if s.len() > 0 && is_alphabetic(s[0]) {
        lemma_alpha_run_shape(s.drop_first());
        lemma_alpha_run_bounds(s.drop_first());
        assert forall|i: int| 0 <= i < alpha_run(s) implies is_alphabetic(s[i]) by {
            if i > 0 {
                assert(s[i] == s.drop_first()[i - 1]);
            }
        }
        if alpha_run(s) < s.len() {
            assert(s[alpha_run(s)] == s.drop_first()[alpha_run(s.drop_first())]);
        }
    }
}

/// Every character inside a digit run is a decimal digit, and the first
/// character after it, if any, is not.
pub proof fn lemma_digit_run_shape(s: Seq<char>)
    ensures
        forall|i: int| 0 <= i < digit_run(s) ==> is_dec_digit(s[i]),
        digit_run(s) < s.len() ==> !is_dec_digit(s[digit_run(s)]),
    decreases s.len(),
{
    lemma_digit_run_bounds(s);
    if s.len() > 0 && is_dec_digit(s[0]) {
        lemma_digit_run_shape(s.drop_first());
        lemma_digit_run_bounds(s.drop_first());
        assert forall|i: int| 0 <= i < digit_run(s) implies is_dec_digit(s[i]) by {
            if i > 0 {
                assert(s[i] == s.drop_first()[i - 1]);
            }
        }
        if digit_run(s) < s.len() {
            assert(s[digit_run(s)] == s.drop_first()[digit_run(s.drop_first())]);
        }
    }
}

/// The text remaining after a lexing step is a suffix of the input.
pub proof fn lemma_step_rest_is_suffix(s: Seq<char>)
    requires
        next_spec(s) is Some,
    ensures
        step_rest(s) == s.skip(s.len() - step_rest(s).len()),
{
    lemma_skip_ws_suffix(s);
    lemma_skip_ws_len(s);
    let t = skip_ws(s);
    let k = s.len() - t.len();
    let r = t.drop_first();
    lemma_alpha_run_bounds(r);
    lemma_digit_run_bounds(r);
    assert(r =~= s.skip(k + 1));
    if r.len() > 0 {
        assert(r.drop_first() =~= s.skip(k + 2));
    }
    assert(r.skip(alpha_run(r)) =~= s.skip(k + 1 + alpha_run(r)));
    assert(r.skip(digit_run(r)) =~= s.skip(k + 1 + digit_run(r)));
}

/// Unfolds one step of [`lex_spec`].
pub proof fn lemma_lex_step(s: Seq<char>)
    ensures
        next_spec(s) is None ==> lex_spec(s) == Seq::<TokenModel>::empty(),
        next_spec(s) is Some ==> lex_spec(s) == seq![step_tok(s)] + lex_spec(step_rest(s)),
{
    if next_spec(s) is Some {
        lemma_step_consumes(s);
    }
}

} // verus!

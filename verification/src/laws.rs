use vstd::prelude::*;

use crate::classify::is_alphabetic;
use crate::classify::is_dec_digit;
use crate::classify::is_numeric;
use crate::classify::is_whitespace;
use crate::model::alpha_run;
use crate::model::digit_run;
use crate::model::is_rest_point;
use crate::model::is_symbol_char;
use crate::model::keyword_token;
use crate::model::lemma_alpha_run_bounds;
use crate::model::lemma_alpha_run_shape;
use crate::model::lemma_digit_run_bounds;
use crate::model::lemma_digit_run_shape;
use crate::model::lemma_lex_step;
use crate::model::lemma_rest_point_len;
use crate::model::lemma_rest_point_whole;
use crate::model::lemma_skip_ws_head;
use crate::model::lemma_skip_ws_len;
use crate::model::lemma_skip_ws_suffix;
use crate::model::lemma_step_consumes;
use crate::model::lemma_step_rest_is_suffix;
use crate::model::lex_spec;
use crate::model::next_spec;
use crate::model::skip_ws;
use crate::model::step_rest;
use crate::model::step_tok;
use crate::token::TokenModel;

verus! {

/// Lexing is total and bounded: the token sequence of any text is finite,
/// and no longer than the text itself, because every token consumes at
/// least one character.
pub proof fn lemma_lex_length_bounded(s: Seq<char>)
    ensures
        lex_spec(s).len() <= s.len(),
    decreases s.len(),
{
    lemma_lex_step(s);
    if next_spec(s) is Some {
        lemma_step_consumes(s);
        lemma_lex_length_bounded(step_rest(s));
    }
}

/// Lexing is deterministic: the token sequence is a function of the input
/// text alone, so lexing the same text twice yields identical sequences.
pub proof fn lemma_lex_deterministic(s1: Seq<char>, s2: Seq<char>)
    requires
        s1 == s2,
    ensures
        lex_spec(s1) == lex_spec(s2),
{
}

/// Skipping whitespace runs through a whitespace prefix.
proof fn lemma_skip_ws_prepend(ws: Seq<char>, s: Seq<char>)
    requires
        forall|i: int| 0 <= i < ws.len() ==> is_whitespace(ws[i]),
    ensures
        skip_ws(ws + s) == skip_ws(s),
    decreases ws.len(),
{
    if ws.len() == 0 {
        assert(ws + s =~= s);
    } else {
        assert(is_whitespace((ws + s)[0]));
        assert((ws + s).drop_first() =~= ws.drop_first() + s);
        lemma_skip_ws_prepend(ws.drop_first(), s);
    }
}

/// Whitespace before the tokens is invisible: a run of whitespace
/// standing before the text still to be lexed may be inserted or removed
/// without changing the token sequence.  This is the leading case of
/// [`lemma_whitespace_between_tokens_invisible`], and the step the full
/// statement recurses on.
pub proof fn lemma_whitespace_invisible(ws: Seq<char>, s: Seq<char>)
    requires
        forall|i: int| 0 <= i < ws.len() ==> is_whitespace(ws[i]),
    ensures
        lex_spec(ws + s) == lex_spec(s),
{
    lemma_skip_ws_prepend(ws, s);
    assert(next_spec(ws + s) == next_spec(s));
    lemma_lex_step(ws + s);
    lemma_lex_step(s);
    if next_spec(s) is Some {
        assert(step_tok(ws + s) == step_tok(s));
        assert(step_rest(ws + s) == step_rest(s));
    }
}

/// Skipping whitespace stops inside `s` when something of `s` survives
/// it, whatever text follows.
proof fn lemma_skip_ws_append(s: Seq<char>, u: Seq<char>)
    requires
        skip_ws(s).len() > 0,
    ensures
        skip_ws(s + u) == skip_ws(s) + u,
    decreases s.len(),
{
    if s.len() > 0 && is_whitespace(s[0]) {
        assert((s + u).drop_first() =~= s.drop_first() + u);
        lemma_skip_ws_append(s.drop_first(), u);
    } else {
        assert((s + u)[0] == s[0]);
    }
}

/// A text of whitespace alone is skipped whole.
proof fn lemma_skip_ws_all(s: Seq<char>)
    requires
        forall|i: int| 0 <= i < s.len() ==> is_whitespace(s[i]),
    ensures
        skip_ws(s).len() == 0,
    decreases s.len(),
{
    if s.len() > 0 {
        lemma_skip_ws_all(s.drop_first());
    }
}

/// A text skipped whole passes whitespace skipping on to what follows.
proof fn lemma_skip_ws_append_empty(s: Seq<char>, u: Seq<char>)
    requires
        skip_ws(s).len() == 0,
    ensures
        skip_ws(s + u) == skip_ws(u),
    decreases s.len(),
{
    if s.len() == 0 {
        assert(s + u =~= u);
    } else {
        assert(is_whitespace(s[0]));
        assert((s + u).drop_first() =~= s.drop_first() + u);
        lemma_skip_ws_append_empty(s.drop_first(), u);
    }
}

/// An alphabetic run is not extended by a following text whose first
/// character is not alphabetic.
proof fn lemma_alpha_run_append(r: Seq<char>, u: Seq<char>)
    requires
        u.len() > 0 ==> !is_alphabetic(u[0]),
    ensures
        alpha_run(r + u) == alpha_run(r),
    decreases r.len(),
{
    if r.len() == 0 {
        assert(r + u =~= u);
    } else {
        assert((r + u)[0] == r[0]);
        if is_alphabetic(r[0]) {
            assert((r + u).drop_first() =~= r.drop_first() + u);
            lemma_alpha_run_append(r.drop_first(), u);
        }
    }
}

/// A digit run is not extended by a following text whose first character
/// is not a decimal digit.
proof fn lemma_digit_run_append(r: Seq<char>, u: Seq<char>)
    requires
        u.len() > 0 ==> !is_dec_digit(u[0]),
    ensures
        digit_run(r + u) == digit_run(r),
    decreases r.len(),
{
    if r.len() == 0 {
        assert(r + u =~= u);
    } else {
        assert((r + u)[0] == r[0]);
        if is_dec_digit(r[0]) {
            assert((r + u).drop_first() =~= r.drop_first() + u);
            lemma_digit_run_append(r.drop_first(), u);
        }
    }
}

/// Whitespace after the tokens is invisible too: a run of whitespace
/// appended to any text may be inserted or removed without changing the
/// token sequence, even where the text ends inside an identifier, a
/// number, or a pending two-character operator.
///
/// The run's first character must also not continue a token or a
/// two-character operator (it must not be alphabetic, a decimal digit, or
/// `'='`), which no whitespace character is.
pub proof fn lemma_whitespace_suffix_invisible(s: Seq<char>, ws: Seq<char>)
    requires
        forall|i: int| 0 <= i < ws.len() ==> is_whitespace(ws[i]),
        ws.len() > 0 ==> !is_alphabetic(ws[0]) && !is_dec_digit(ws[0]) && ws[0] != '=',
    ensures
        lex_spec(s + ws) == lex_spec(s),
    decreases s.len(),
{
    lemma_lex_step(s);
    lemma_lex_step(s + ws);
    if next_spec(s) is None {
        lemma_skip_ws_append_empty(s, ws);
        lemma_skip_ws_all(ws);
    } else {
        let t = skip_ws(s);
        lemma_skip_ws_append(s, ws);
        let c = t[0];
        let r = t.drop_first();
        assert((t + ws)[0] == c);
        assert((t + ws).drop_first() =~= r + ws);
        if c == '!' || c == '=' {
            if r.len() > 0 {
                assert((r + ws)[0] == r[0]);
                if r[0] == '=' {
                    assert((r + ws).drop_first() =~= r.drop_first() + ws);
                }
            } else {
                assert(r + ws =~= ws);
            }
        } else if is_symbol_char(c) {
        } else if is_alphabetic(c) {
            lemma_alpha_run_append(r, ws);
            let n = alpha_run(r);
            lemma_alpha_run_bounds(r);
            assert((r + ws).take(n) =~= r.take(n));
            assert((r + ws).skip(n) =~= r.skip(n) + ws);
        } else if is_numeric(c) {
            lemma_digit_run_append(r, ws);
            let n = digit_run(r);
            lemma_digit_run_bounds(r);
            assert((r + ws).take(n) =~= r.take(n));
            assert((r + ws).skip(n) =~= r.skip(n) + ws);
        }
        assert(step_tok(s + ws) == step_tok(s));
        assert(step_rest(s + ws) =~= step_rest(s) + ws);
        lemma_step_consumes(s);
        lemma_whitespace_suffix_invisible(step_rest(s), ws);
    }
}

/// A token is cut where it is by what follows it: replacing the text
/// after the first token with any text that equally fails to continue it
/// yields the same token, now followed by the replacement.
proof fn lemma_refit(s: Seq<char>, x: Seq<char>)
    requires
        next_spec(s) is Some,
        x.len() > 0 ==> (step_rest(s).len() > 0 && x[0] == step_rest(s)[0]) || (!is_alphabetic(
            x[0],
        ) && !is_dec_digit(x[0]) && x[0] != '='),
    ensures
        next_spec(s.take(s.len() - step_rest(s).len()) + x) is Some,
        step_tok(s.take(s.len() - step_rest(s).len()) + x) == step_tok(s),
        step_rest(s.take(s.len() - step_rest(s).len()) + x) == x,
{
    lemma_skip_ws_suffix(s);
    lemma_skip_ws_len(s);
    lemma_skip_ws_head(s);
    let t = skip_ws(s);
    let k = s.len() - t.len();
    let c = t[0];
    let r = t.drop_first();
    let rest = step_rest(s);
    let toklen = t.len() - rest.len();
    lemma_step_consumes(s);
    lemma_alpha_run_bounds(r);
    lemma_digit_run_bounds(r);
    let y = t.take(toklen) + x;
    assert(s.take(s.len() - rest.len()) + x =~= s.take(k) + y);
    assert(forall|i: int| 0 <= i < k ==> is_whitespace(s.take(k)[i]));
    lemma_skip_ws_prepend(s.take(k), y);
    assert(y[0] == c);
    assert(skip_ws(y) == y);
    let r2 = y.drop_first();
    if c == '!' || c == '=' {
        if r.len() > 0 && r[0] == '=' {
            assert(r2 =~= seq!['='] + x);
            assert(r2.drop_first() =~= x);
        } else {
            assert(r2 =~= x);
        }
    } else if is_symbol_char(c) {
        assert(r2 =~= x);
    } else if is_alphabetic(c) {
        let n = alpha_run(r);
        lemma_alpha_run_shape(r);
        assert(r2 =~= r.take(n) + x);
        lemma_alpha_run_append(r.take(n), x);
        lemma_alpha_run_all(r.take(n));
        assert(alpha_run(r2) == n);
        assert(r2.take(n) =~= r.take(n));
        assert(r2.skip(n) =~= x);
    } else if is_numeric(c) {
        let n = digit_run(r);
        lemma_digit_run_shape(r);
        assert(r2 =~= r.take(n) + x);
        lemma_digit_run_append(r.take(n), x);
        lemma_digit_run_all(r.take(n));
        assert(digit_run(r2) == n);
        assert(r2.take(n) =~= r.take(n));
        assert(r2.skip(n) =~= x);
    } else {
        assert(r2 =~= x);
    }
}

/// Whitespace between tokens is invisible, in full: a run of whitespace
/// inserted at any token boundary of a text — before the first token,
/// between two tokens, or after the last — does not change the token
/// sequence; removing such a run is the same statement read backwards.
///
/// `r` names the boundary: the text still to be lexed after some number
/// of tokens ([`is_rest_point`]); the inserted run stands where the
/// consumed part of the text ends and `r` begins.  The run's first
/// character must also not continue a token or a two-character operator
/// (it must not be alphabetic, a decimal digit, or `'='`), which no
/// whitespace character is.
pub proof fn lemma_whitespace_between_tokens_invisible(
    s: Seq<char>,
    ws: Seq<char>,
    r: Seq<char>,
)
    requires
        is_rest_point(s, r),
        forall|i: int| 0 <= i < ws.len() ==> is_whitespace(ws[i]),
        ws.len() > 0 ==> !is_alphabetic(ws[0]) && !is_dec_digit(ws[0]) && ws[0] != '=',
    ensures
        lex_spec(s.take(s.len() - r.len()) + ws + r) == lex_spec(s),
    decreases s.len(),
{
    lemma_rest_point_len(s, r);
    if r == s {
        assert(s.take(0) + ws + r =~= ws + s);
        lemma_whitespace_invisible(ws, s);
    } else {
        let rest = step_rest(s);
        lemma_step_consumes(s);
        lemma_rest_point_len(rest, r);
        lemma_step_rest_is_suffix(s);
        let m = s.len() - rest.len();
        let consumed = s.take(m);
        let mid = rest.take(rest.len() - r.len());
        let x = mid + ws + r;
        assert(s.take(s.len() - r.len()) =~= consumed + mid);
        assert(s.take(s.len() - r.len()) + ws + r =~= consumed + x);
        if x.len() > 0 {
            if mid.len() > 0 {
                assert(x[0] == rest[0]);
            } else {
                lemma_rest_point_whole(rest, r);
                if ws.len() > 0 {
                    assert(x[0] == ws[0]);
                } else {
                    assert(x =~= r);
                }
            }
        }
        lemma_refit(s, x);
        lemma_lex_step(consumed + x);
        lemma_whitespace_between_tokens_invisible(rest, ws, r);
        lemma_lex_step(s);
    }
}

/// A run of alphabetic characters scans whole.
proof fn lemma_alpha_run_all(s: Seq<char>)
    requires
        forall|i: int| 0 <= i < s.len() ==> is_alphabetic(s[i]),
    ensures
        alpha_run(s) == s.len(),
    decreases s.len(),
{
    if s.len() > 0 {
        lemma_alpha_run_all(s.drop_first());
    }
}

/// A run of decimal digits scans whole.
proof fn lemma_digit_run_all(s: Seq<char>)
    requires
        forall|i: int| 0 <= i < s.len() ==> is_dec_digit(s[i]),
    ensures
        digit_run(s) == s.len(),
    decreases s.len(),
{
    if s.len() > 0 {
        lemma_digit_run_all(s.drop_first());
    }
}

/// Maximal munch for words: a non-empty text made entirely of alphabetic
/// characters lexes to exactly one token — the reserved word's fixed
/// token if the whole text is one, else a single identifier carrying the
/// whole text — never to several shorter ones.
///
/// The first character must also not be classified by an earlier rule
/// (whitespace or an operator character), which no alphabetic character
/// is.
pub proof fn lemma_maximal_munch_ident(s: Seq<char>)
    requires
        s.len() > 0,
        forall|i: int| 0 <= i < s.len() ==> is_alphabetic(s[i]),
        !is_whitespace(s[0]),
        !is_symbol_char(s[0]),
    ensures
        lex_spec(s) == seq![keyword_token(s)],
{
    let r = s.drop_first();
    assert(skip_ws(s) == s);
    lemma_alpha_run_all(r);
    let n = alpha_run(r);
    assert(seq![s[0]] + r.take(n) =~= s);
    assert(r.skip(n) =~= Seq::<char>::empty());
    assert(next_spec(s) is Some);
    assert(step_tok(s) == keyword_token(s));
    lemma_lex_step(s);
    assert(skip_ws(Seq::<char>::empty()) =~= Seq::<char>::empty());
    lemma_lex_step(Seq::<char>::empty());
    assert(lex_spec(s) =~= seq![keyword_token(s)]);
}

/// Maximal munch for integer literals: a non-empty text made entirely of
/// decimal digits lexes to exactly one `Int` token carrying the whole
/// digit text, never to several shorter ones.
///
/// The first character must also start a number and not be classified by
/// an earlier rule (whitespace, an operator character, or an identifier
/// start), which holds of every decimal digit.
pub proof fn lemma_maximal_munch_int(s: Seq<char>)
    requires
        s.len() > 0,
        forall|i: int| 0 <= i < s.len() ==> is_dec_digit(s[i]),
        is_numeric(s[0]),
        !is_alphabetic(s[0]),
        !is_whitespace(s[0]),
        !is_symbol_char(s[0]),
    ensures
        lex_spec(s) == seq![TokenModel::Int(s)],
{
    let r = s.drop_first();
    assert(skip_ws(s) == s);
    lemma_digit_run_all(r);
    let n = digit_run(r);
    assert(seq![s[0]] + r.take(n) =~= s);
    assert(r.skip(n) =~= Seq::<char>::empty());
    assert(next_spec(s) is Some);
    assert(step_tok(s) == TokenModel::Int(s));
    lemma_lex_step(s);
    assert(skip_ws(Seq::<char>::empty()) =~= Seq::<char>::empty());
    lemma_lex_step(Seq::<char>::empty());
    assert(lex_spec(s) =~= seq![TokenModel::Int(s)]);
}

} // verus!

//! Tokenizer for the plain English command language.
//!
//! The lexical grammar is stated by the spec functions below, over the
//! sequence of characters of the input: from a position, whitespace is
//! skipped, and the first character that follows decides the kind of token
//! and the run of characters that it takes.

use vstd::prelude::*;

use crate::grammar::text::{
    chars_of,
    char_is_alphanumeric,
    char_is_numeric,
    char_is_whitespace,
    is_ascii_digit,
    is_alphanumeric,
    is_numeric,
    is_whitespace,
    lowercase,
    string_from_chars,
    to_lowercase,
};

verus! {

/// Token types of the command language.
#[derive(Debug, Clone, PartialEq)]
pub enum Token {
    /// A regular word, lowercased
    Word(String),
    /// A file path
    Path(String),
    /// A format such as `.mp4`, lowercased
    Format(String),
    /// A numeric value, held as its decimal notation: ASCII digits with at
    /// most one `.`, a text that `f64`'s parser accepts
    Number(String),
    /// A run of numeric characters that is no decimal notation
    Unknown(String),
}

/// A token with its text as a sequence of characters.
pub enum TokenView {
    Word(Seq<char>),
    Path(Seq<char>),
    Format(Seq<char>),
    Number(Seq<char>),
    Unknown(Seq<char>),
}

impl View for Token {
    type V = TokenView;

    open spec fn view(&self) -> TokenView {
        match self {
            Token::Word(s) => TokenView::Word(s@),
            Token::Path(s) => TokenView::Path(s@),
            Token::Format(s) => TokenView::Format(s@),
            Token::Number(s) => TokenView::Number(s@),
            Token::Unknown(s) => TokenView::Unknown(s@),
        }
    }
}

/// Characters that continue a word: alphanumerics, `_` and `.`.
pub open spec fn is_word_char(c: char) -> bool {
    char_is_alphanumeric(c) || c == '_' || c == '.'
}

/// Characters that always continue a path.
pub open spec fn is_path_char(c: char) -> bool {
    char_is_alphanumeric(c) || c == '/' || c == '_' || c == '-' || c == '~'
}

/// The first position at or after `p` that holds no whitespace.
pub open spec fn whitespace_end(s: Seq<char>, p: int) -> int
    decreases s.len() - p,
{
    if 0 <= p < s.len() && char_is_whitespace(s[p]) {
        whitespace_end(s, p + 1)
    } else {
        p
    }
}

/// The end of the run of word characters that starts at `p`.
pub open spec fn word_end(s: Seq<char>, p: int) -> int
    decreases s.len() - p,
{
    if 0 <= p < s.len() && is_word_char(s[p]) {
        word_end(s, p + 1)
    } else {
        p
    }
}

/// The end of the run of alphanumerics that starts at `p`.
pub open spec fn alphanumeric_end(s: Seq<char>, p: int) -> int
    decreases s.len() - p,
{
    if 0 <= p < s.len() && char_is_alphanumeric(s[p]) {
        alphanumeric_end(s, p + 1)
    } else {
        p
    }
}

/// The end of the path that starts at `p`: path characters, and each `.`
/// that an alphanumeric follows.
pub open spec fn path_end(s: Seq<char>, p: int) -> int
    decreases s.len() - p,
{
    if 0 <= p < s.len() && (is_path_char(s[p]) || (s[p] == '.' && p + 1 < s.len()
        && char_is_alphanumeric(s[p + 1]))) {
        path_end(s, p + 1)
    } else {
        p
    }
}

/// The end of the number that starts at `p`: numeric characters and at most
/// one `.` (one more when `seen_dot` is false).
pub open spec fn number_end(s: Seq<char>, p: int, seen_dot: bool) -> int
    decreases s.len() - p,
{
    if 0 <= p < s.len() && char_is_numeric(s[p]) {
        number_end(s, p + 1, seen_dot)
    } else if 0 <= p < s.len() && s[p] == '.' && !seen_dot {
        number_end(s, p + 1, true)
    } else {
        p
    }
}

/// Where the token that starts at `q` ends; its first character decides its kind.
pub open spec fn token_end(s: Seq<char>, q: int) -> int {
    if s[q] == '.' {
        alphanumeric_end(s, q + 1)
    } else if s[q] == '/' {
        path_end(s, q)
    } else if char_is_numeric(s[q]) {
        number_end(s, q, false)
    } else {
        word_end(s, q)
    }
}

/// The token that a word run `t` gives: a path where it holds a `.` that is
/// not its first character, else the lowercased word.
pub open spec fn word_token(t: Seq<char>) -> TokenView {
    if t.contains('.') && !(t.len() > 0 && t[0] == '.') {
        TokenView::Path(t)
    } else {
        TokenView::Word(lowercase(t))
    }
}

/// A decimal notation: an ASCII digit, then ASCII digits and at most one `.`.
pub open spec fn is_decimal_numeral(t: Seq<char>) -> bool {
    &&& t.len() > 0
    &&& is_ascii_digit(t[0])
    &&& forall|i: int| 0 <= i < t.len() ==> is_ascii_digit(#[trigger] t[i]) || t[i] == '.'
    &&& forall|i: int, j: int| 0 <= i < j < t.len() && #[trigger] t[i] == '.' ==> #[trigger] t[j] != '.'
}

/// The token that the characters of `s` from `q` to `e` form.
pub open spec fn token_at(s: Seq<char>, q: int, e: int) -> TokenView {
    let t = s.subrange(q, e);
    if s[q] == '.' {
        TokenView::Format(lowercase(t))
    } else if s[q] == '/' {
        TokenView::Path(t)
    } else if char_is_numeric(s[q]) {
        if is_decimal_numeral(t) {
            TokenView::Number(t)
        } else {
            TokenView::Unknown(t)
        }
    } else {
        word_token(t)
    }
}

/// The tokens of `s` from position `p` on. A character that is neither
/// whitespace nor the start of any token (such as `-` or `,` where a token
/// would start) gives no token and is passed over.
pub open spec fn lex(s: Seq<char>, p: int) -> Seq<TokenView>
    decreases s.len() - p,
{
    let q = whitespace_end(s, p);
    if q >= s.len() {
        Seq::empty()
    } else {
        let e = token_end(s, q);
        proof {
            lemma_whitespace_end(s, p);
            lemma_token_end(s, q);
        }
        if e <= q {
            lex(s, q + 1)
        } else {
            seq![token_at(s, q, e)] + lex(s, e)
        }
    }
}

/// Input that holds nothing but whitespace has no tokens.
pub proof fn law_blank_input_has_no_tokens(s: Seq<char>)
    requires
        forall|i: int| 0 <= i < s.len() ==> char_is_whitespace(#[trigger] s[i]),
    ensures
        lex(s, 0) == Seq::<TokenView>::empty(),
{
    lemma_blank_whitespace_end(s, 0);
}

proof fn lemma_blank_whitespace_end(s: Seq<char>, p: int)
    requires
        0 <= p <= s.len(),
        forall|i: int| 0 <= i < s.len() ==> char_is_whitespace(#[trigger] s[i]),
    ensures
        whitespace_end(s, p) == s.len(),
    decreases s.len() - p,
{
    if p < s.len() {
        lemma_blank_whitespace_end(s, p + 1);
    }
}

/// Once the input is used up, tokenizing again gives no tokens.
pub proof fn law_exhausted_input_has_no_tokens(s: Seq<char>, p: int)
    requires
        p >= s.len(),
    ensures
        lex(s, p) == Seq::<TokenView>::empty(),
{
}

/// A token made from the run of input characters `r`: paths and numbers
/// hold the run exactly as it stands in the input, words and formats hold
/// it lowercased.
pub open spec fn is_token_of_run(t: TokenView, r: Seq<char>) -> bool {
    ||| t == TokenView::Path(r)
    ||| t == TokenView::Number(r)
    ||| t == TokenView::Unknown(r)
    ||| t == TokenView::Word(lowercase(r))
    ||| t == TokenView::Format(lowercase(r))
}

/// Every token carries the text of a non-empty run of the input: paths,
/// numbers and unknown runs unchanged, only words and formats lowercased.
pub proof fn law_tokens_carry_their_input_text(s: Seq<char>, p: int)
    requires
        0 <= p,
    ensures
        forall|i: int|
            0 <= i < lex(s, p).len() ==> exists|q: int, e: int|
                #![trigger s.subrange(q, e)]
                p <= q < e <= s.len() && is_token_of_run(#[trigger] lex(s, p)[i], s.subrange(q, e)),
    decreases s.len() - p,
{
    let q = whitespace_end(s, p);
    lemma_whitespace_end(s, p);
    let ts = lex(s, p);
    if q >= s.len() {
        assert(ts.len() == 0);
    } else {
        let e = token_end(s, q);
        lemma_token_end(s, q);
        let next = if e <= q {
            q + 1
        } else {
            e
        };
        law_tokens_carry_their_input_text(s, next);
        let rest = lex(s, next);
        let head: Seq<TokenView> = if e <= q {
            Seq::empty()
        } else {
            seq![token_at(s, q, e)]
        };
        assert(ts == head + rest);
        if e > q {
            assert(is_token_of_run(token_at(s, q, e), s.subrange(q, e)));
        }
        assert forall|i: int| 0 <= i < ts.len() implies exists|a: int, b: int|
            #![trigger s.subrange(a, b)]
            p <= a < b <= s.len() && is_token_of_run(#[trigger] ts[i], s.subrange(a, b)) by {
            if i < head.len() {
                assert(ts[i] == token_at(s, q, e));
                assert(s.subrange(q, e) == s.subrange(q, e));
            } else {
                let k = i - head.len();
                assert(ts[i] == rest[k]);
                let (a, b) = choose|a: int, b: int|
                    #![trigger s.subrange(a, b)]
                    next <= a < b <= s.len() && is_token_of_run(rest[k], s.subrange(a, b));
                assert(s.subrange(a, b) == s.subrange(a, b));
            }
        }
    }
}

/// A word run that holds a `.` is a path holding the run unchanged; any
/// other word run is the lowercased word.
pub proof fn law_word_runs_with_a_dot_are_verbatim_paths(s: Seq<char>, q: int)
    requires
        0 <= q < s.len(),
        s[q] != '.',
        s[q] != '/',
        !char_is_numeric(s[q]),
    ensures
        ({
            let e = token_end(s, q);
            let r = s.subrange(q, e);
            &&& e == word_end(s, q)
            &&& r.contains('.') ==> token_at(s, q, e) == TokenView::Path(r)
            &&& !r.contains('.') ==> token_at(s, q, e) == TokenView::Word(lowercase(r))
        }),
{
    let e = token_end(s, q);
    lemma_word_end(s, q);
    if e > q {
        assert(s.subrange(q, e)[0] == s[q]);
    }
}

/// A token that starts with `/` is a path holding exactly the input
/// characters it covers, whatever their case.
pub proof fn law_slash_starts_a_verbatim_path(s: Seq<char>, q: int)
    requires
        0 <= q < s.len(),
        s[q] == '/',
    ensures
        token_at(s, q, token_end(s, q)) == TokenView::Path(s.subrange(q, token_end(s, q))),
        q < token_end(s, q),
{
    lemma_path_end(s, q + 1);
}

/// A number run that holds only ASCII digits and `.` is a number: it
/// starts with a digit (any digit, `0` too) and holds at most one `.`, the
/// notation that `f64`'s parser accepts.
pub proof fn law_ascii_number_runs_are_numbers(s: Seq<char>, q: int)
    requires
        0 <= q < s.len(),
        is_ascii_digit(s[q]),
        forall|i: int| q <= i < token_end(s, q) ==> is_ascii_digit(#[trigger] s[i]) || s[i] == '.',
    ensures
        token_at(s, q, token_end(s, q)) == TokenView::Number(s.subrange(q, token_end(s, q))),
{
    let e = token_end(s, q);
    assert(e == number_end(s, q, false));
    lemma_number_end(s, q + 1, false);
    lemma_number_run_dots(s, q, false);
    let t = s.subrange(q, e);
    assert forall|i: int| 0 <= i < t.len() implies is_ascii_digit(#[trigger] t[i]) || t[i] == '.' by {
        assert(t[i] == s[q + i]);
    }
    assert forall|i: int, j: int| 0 <= i < j < t.len() && #[trigger] t[i] == '.' implies #[trigger] t[j]
        != '.' by {
        assert(t[i] == s[q + i]);
        assert(t[j] == s[q + j]);
    }
}

/// A number run holds no `.` after a first one, and none at all once one
/// was seen.
proof fn lemma_number_run_dots(s: Seq<char>, p: int, seen_dot: bool)
    requires
        0 <= p,
    ensures
        forall|i: int|
            p <= i < number_end(s, p, seen_dot) && #[trigger] s[i] == '.' ==> !seen_dot && forall|
                j: int,
            |
                i < j < number_end(s, p, seen_dot) ==> #[trigger] s[j] != '.',
    decreases s.len() - p,
{
    if 0 <= p < s.len() && char_is_numeric(s[p]) {
        lemma_number_run_dots(s, p + 1, seen_dot);
    } else if 0 <= p < s.len() && s[p] == '.' && !seen_dot {
        lemma_number_run_dots(s, p + 1, true);
    }
}

/// Every token takes at least one character, so the tokens from `p` on are
/// no more than the characters from `p` on.
pub proof fn law_tokens_take_characters(s: Seq<char>, p: int)
    requires
        0 <= p,
    ensures
        lex(s, p).len() <= if p <= s.len() {
            s.len() - p
        } else {
            0
        },
    decreases s.len() - p,
{
    let q = whitespace_end(s, p);
    lemma_whitespace_end(s, p);
    if q < s.len() {
        let e = token_end(s, q);
        lemma_token_end(s, q);
        if e <= q {
            law_tokens_take_characters(s, q + 1);
        } else {
            law_tokens_take_characters(s, e);
        }
    }
}

/// The end of the run of characters other than whitespace that starts at `p`.
pub open spec fn nonwhitespace_end(s: Seq<char>, p: int) -> int
    decreases s.len() - p,
{
    if 0 <= p < s.len() && !char_is_whitespace(s[p]) {
        nonwhitespace_end(s, p + 1)
    } else {
        p
    }
}

/// The pieces of `s` from `p` on between runs of whitespace, as
/// `str::split_whitespace` gives them.
pub open spec fn split_whitespace(s: Seq<char>, p: int) -> Seq<Seq<char>>
    decreases s.len() - p,
{
    let q = whitespace_end(s, p);
    if p < 0 || q >= s.len() {
        Seq::empty()
    } else {
        let e = nonwhitespace_end(s, q);
        proof {
            lemma_whitespace_end(s, p);
            lemma_nonwhitespace_end(s, q);
        }
        seq![s.subrange(q, e)] + split_whitespace(s, e)
    }
}

/// The tokens of each piece, one piece after the other.
pub open spec fn lex_pieces(pieces: Seq<Seq<char>>) -> Seq<TokenView>
    decreases pieces.len(),
{
    if pieces.len() == 0 {
        Seq::empty()
    } else {
        lex(pieces[0], 0) + lex_pieces(pieces.drop_first())
    }
}

/// No token spans whitespace: the tokens of a text are the tokens of its
/// pieces between whitespace, one piece after the other. So texts with the
/// same pieces have the same tokens.
pub proof fn law_tokens_stay_within_whitespace_split(s: Seq<char>)
    ensures
        lex(s, 0) == lex_pieces(split_whitespace(s, 0)),
{
    lemma_lex_split(s, 0);
}

proof fn lemma_lex_split(s: Seq<char>, p: int)
    requires
        0 <= p,
    ensures
        lex(s, p) == lex_pieces(split_whitespace(s, p)),
    decreases s.len() - p,
{
    let q = whitespace_end(s, p);
    lemma_whitespace_end(s, p);
    if q < s.len() {
        let e = nonwhitespace_end(s, q);
        lemma_nonwhitespace_end(s, q);
        let w = s.subrange(q, e);
        lemma_lex_at_whitespace_end(s, p);
        lemma_lex_piece(s, q, e, q);
        lemma_lex_split(s, e);
        let pieces = split_whitespace(s, p);
        assert(pieces == seq![w] + split_whitespace(s, e));
        assert(pieces[0] == w);
        assert(pieces.drop_first() =~= split_whitespace(s, e));
        assert(lex(w, 0) + lex(s, e) == lex_pieces(pieces));
    }
}

pub proof fn lemma_nonwhitespace_end(s: Seq<char>, p: int)
    ensures
        p <= nonwhitespace_end(s, p),
        p <= s.len() ==> nonwhitespace_end(s, p) <= s.len(),
        forall|i: int| p <= i < nonwhitespace_end(s, p) ==> !char_is_whitespace(#[trigger] s[i]),
        0 <= p && nonwhitespace_end(s, p) < s.len() ==> char_is_whitespace(
            s[nonwhitespace_end(s, p)],
        ),
        0 <= p < s.len() && !char_is_whitespace(s[p]) ==> p < nonwhitespace_end(s, p),
    decreases s.len() - p,
{
    if 0 <= p < s.len() && !char_is_whitespace(s[p]) {
        lemma_nonwhitespace_end(s, p + 1);
    }
}

/// The tokens from `p` on are those from the end of the whitespace at `p`.
proof fn lemma_lex_at_whitespace_end(s: Seq<char>, p: int)
    requires
        0 <= p,
    ensures
        lex(s, p) == lex(s, whitespace_end(s, p)),
{
    let q = whitespace_end(s, p);
    lemma_whitespace_end(s, p);
    assert(whitespace_end(s, q) == q);
}

/// A whitespace character continues no token.
proof fn lemma_whitespace_continues_nothing(c: char)
    requires
        char_is_whitespace(c),
    ensures
        !char_is_alphanumeric(c),
        !char_is_numeric(c),
        !is_word_char(c),
        !is_path_char(c),
        c != '.',
{
}

/// A piece between whitespace, `s[q..e]`.
pub open spec fn is_piece(s: Seq<char>, q: int, e: int) -> bool {
    &&& 0 <= q <= e <= s.len()
    &&& forall|i: int| q <= i < e ==> !char_is_whitespace(#[trigger] s[i])
    &&& e < s.len() ==> char_is_whitespace(s[e])
}

proof fn lemma_word_end_in_piece(s: Seq<char>, q: int, e: int, p: int)
    requires
        is_piece(s, q, e),
        q <= p <= e,
    ensures
        word_end(s, p) == word_end(s.subrange(q, e), p - q) + q,
        word_end(s, p) <= e,
    decreases e - p,
{
    let w = s.subrange(q, e);
    if p < e {
        assert(w[p - q] == s[p]);
        lemma_word_end_in_piece(s, q, e, p + 1);
    } else if e < s.len() {
        lemma_whitespace_continues_nothing(s[e]);
    }
}

proof fn lemma_alphanumeric_end_in_piece(s: Seq<char>, q: int, e: int, p: int)
    requires
        is_piece(s, q, e),
        q <= p <= e,
    ensures
        alphanumeric_end(s, p) == alphanumeric_end(s.subrange(q, e), p - q) + q,
        alphanumeric_end(s, p) <= e,
    decreases e - p,
{
    let w = s.subrange(q, e);
    if p < e {
        assert(w[p - q] == s[p]);
        lemma_alphanumeric_end_in_piece(s, q, e, p + 1);
    } else if e < s.len() {
        lemma_whitespace_continues_nothing(s[e]);
    }
}

proof fn lemma_path_end_in_piece(s: Seq<char>, q: int, e: int, p: int)
    requires
        is_piece(s, q, e),
        q <= p <= e,
    ensures
        path_end(s, p) == path_end(s.subrange(q, e), p - q) + q,
        path_end(s, p) <= e,
    decreases e - p,
{
    let w = s.subrange(q, e);
    if p < e {
        assert(w[p - q] == s[p]);
        if p + 1 < e {
            assert(w[p - q + 1] == s[p + 1]);
        } else if e < s.len() {
            lemma_whitespace_continues_nothing(s[e]);
        }
        lemma_path_end_in_piece(s, q, e, p + 1);
    } else if e < s.len() {
        lemma_whitespace_continues_nothing(s[e]);
    }
}

proof fn lemma_number_end_in_piece(s: Seq<char>, q: int, e: int, p: int, seen_dot: bool)
    requires
        is_piece(s, q, e),
        q <= p <= e,
    ensures
        number_end(s, p, seen_dot) == number_end(s.subrange(q, e), p - q, seen_dot) + q,
        number_end(s, p, seen_dot) <= e,
    decreases e - p,
{
    let w = s.subrange(q, e);
    if p < e {
        assert(w[p - q] == s[p]);
        lemma_number_end_in_piece(s, q, e, p + 1, seen_dot);
        lemma_number_end_in_piece(s, q, e, p + 1, true);
    } else if e < s.len() {
        lemma_whitespace_continues_nothing(s[e]);
    }
}

/// Within a piece between whitespace, the tokens from `p` on are those of
/// the piece from the same place, then those after the piece.
proof fn lemma_lex_piece(s: Seq<char>, q: int, e: int, p: int)
    requires
        is_piece(s, q, e),
        q <= p <= e,
    ensures
        lex(s, p) == lex(s.subrange(q, e), p - q) + lex(s, e),
    decreases e - p,
{
    let w = s.subrange(q, e);
    if p == e {
        assert(lex(w, p - q) == Seq::<TokenView>::empty());
        assert(Seq::<TokenView>::empty() + lex(s, e) =~= lex(s, e));
    } else {
        let i = p - q;
        assert(w[i] == s[p]);
        assert(whitespace_end(s, p) == p);
        assert(whitespace_end(w, i) == i);
        lemma_word_end_in_piece(s, q, e, p);
        lemma_alphanumeric_end_in_piece(s, q, e, p + 1);
        lemma_path_end_in_piece(s, q, e, p);
        lemma_number_end_in_piece(s, q, e, p, false);
        let t = token_end(s, p);
        assert(token_end(w, i) == t - q);
        lemma_token_end(s, p);
        if t <= p {
            lemma_lex_piece(s, q, e, p + 1);
            assert(lex(s, p) == lex(s, p + 1));
            assert(lex(w, i) == lex(w, i + 1));
        } else {
            lemma_lex_piece(s, q, e, t);
            assert(s.subrange(p, t) =~= w.subrange(i, t - q));
            assert(token_at(s, p, t) == token_at(w, i, t - q));
            assert(lex(s, p) == seq![token_at(s, p, t)] + lex(s, t));
            assert(lex(w, i) == seq![token_at(w, i, t - q)] + lex(w, t - q));
            assert(lex(s, p) =~= lex(w, i) + lex(s, e));
        }
    }
}

pub proof fn lemma_whitespace_end(s: Seq<char>, p: int)
    ensures
        p <= whitespace_end(s, p),
        p <= s.len() ==> whitespace_end(s, p) <= s.len(),
        0 <= p && whitespace_end(s, p) < s.len() ==> !char_is_whitespace(
            s[whitespace_end(s, p)],
        ),
    decreases s.len() - p,
{
    if 0 <= p < s.len() && char_is_whitespace(s[p]) {
        lemma_whitespace_end(s, p + 1);
    }
}

pub proof fn lemma_word_end(s: Seq<char>, p: int)
    ensures
        p <= word_end(s, p),
        p <= s.len() ==> word_end(s, p) <= s.len(),
    decreases s.len() - p,
{
    if 0 <= p < s.len() && is_word_char(s[p]) {
        lemma_word_end(s, p + 1);
    }
}

pub proof fn lemma_alphanumeric_end(s: Seq<char>, p: int)
    ensures
        p <= alphanumeric_end(s, p),
        p <= s.len() ==> alphanumeric_end(s, p) <= s.len(),
    decreases s.len() - p,
{
    if 0 <= p < s.len() && char_is_alphanumeric(s[p]) {
        lemma_alphanumeric_end(s, p + 1);
    }
}

pub proof fn lemma_path_end(s: Seq<char>, p: int)
    ensures
        p <= path_end(s, p),
        p <= s.len() ==> path_end(s, p) <= s.len(),
    decreases s.len() - p,
{
    if 0 <= p < s.len() && (is_path_char(s[p]) || (s[p] == '.' && p + 1 < s.len()
        && char_is_alphanumeric(s[p + 1]))) {
        lemma_path_end(s, p + 1);
    }
}

pub proof fn lemma_number_end(s: Seq<char>, p: int, seen_dot: bool)
    ensures
        p <= number_end(s, p, seen_dot),
        p <= s.len() ==> number_end(s, p, seen_dot) <= s.len(),
    decreases s.len() - p,
{
    if 0 <= p < s.len() && char_is_numeric(s[p]) {
        lemma_number_end(s, p + 1, seen_dot);
    } else if 0 <= p < s.len() && s[p] == '.' && !seen_dot {
        lemma_number_end(s, p + 1, true);
    }
}

pub proof fn lemma_token_end(s: Seq<char>, q: int)
    requires
        q < s.len(),
    ensures
        q <= token_end(s, q) <= s.len(),
{
    lemma_alphanumeric_end(s, q + 1);
    lemma_path_end(s, q);
    lemma_number_end(s, q, false);
    lemma_word_end(s, q);
}

/// Tokenizer for converting plain English commands into tokens.
///
/// Holds the input as a vector of characters, for constant-time access to
/// each of them, and the position of the next character to read.
pub struct Tokenizer {
    chars: Vec<char>,
    position: usize,
}

impl Tokenizer {
    /// The characters of the input.
    pub closed spec fn text(&self) -> Seq<char> {
        self.chars@
    }

    /// The position of the next character to read.
    pub closed spec fn pos(&self) -> int {
        self.position as int
    }

    /// Creates a new tokenizer for the given text, at its first character.
    pub fn new(text: &str) -> (t: Self)
        ensures
            t.text() == text@,
            t.pos() == 0,
    {
        Tokenizer { chars: chars_of(text), position: 0 }
    }

    /// Peeks at the current character without advancing.
    fn peek(&self) -> (r: Option<char>)
        ensures
            r == (if 0 <= self.pos() < self.text().len() {
                Some(self.text()[self.pos()])
            } else {
                None::<char>
            }),
    {
        if self.position < self.chars.len() {
            Some(self.chars[self.position])
        } else {
            None
        }
    }

    /// Peeks at a character `offset` positions ahead without advancing.
    fn peek_at(&self, offset: usize) -> (r: Option<char>)
        requires
            self.pos() + offset <= usize::MAX,
        ensures
            r == (if self.pos() + offset < self.text().len() {
                Some(self.text()[self.pos() + offset])
            } else {
                None::<char>
            }),
    {
        let at: usize = self.position + offset;
        if at < self.chars.len() {
            Some(self.chars[at])
        } else {
            None
        }
    }

    /// The string of the characters from `start` to `end` (char indices).
    fn slice(&self, start: usize, end: usize) -> (r: String)
        requires
            start <= end <= self.text().len(),
        ensures
            r@ == self.text().subrange(start as int, end as int),
    {
        string_from_chars(&self.chars.as_slice()[start..end])
    }

    /// Whether `c` occurs among the characters from `start` to `end`.
    fn range_contains(&self, start: usize, end: usize, c: char) -> (b: bool)
        requires
            start <= end <= self.text().len(),
        ensures
            b == self.text().subrange(start as int, end as int).contains(c),
    {
        let ghost t = self.text().subrange(start as int, end as int);
        let mut i: usize = start;
        while i < end
            invariant
                start <= i <= end <= self.text().len(),
                t == self.text().subrange(start as int, end as int),
                forall|j: int| start <= j < i ==> self.text()[j] != c,
            decreases end - i,
        {
            if self.chars[i] == c {
                assert(t[i - start] == c);
                return true;
            }
            i += 1;
        }
        assert forall|j: int| 0 <= j < t.len() implies t[j] != c by {
            assert(t[j] == self.text()[start + j]);
        }
        false
    }

    /// Whether the characters from `start` to `end` are a decimal notation.
    fn is_decimal_range(&self, start: usize, end: usize) -> (b: bool)
        requires
            start <= end <= self.text().len(),
        ensures
            b == is_decimal_numeral(self.text().subrange(start as int, end as int)),
    {
        let ghost t = self.text().subrange(start as int, end as int);
        if start >= end {
            return false;
        }
        let first = self.chars[start];
        if !('0' <= first && first <= '9') {
            assert(t[0] == first);
            return false;
        }
        let mut seen_dot = false;
        let mut i: usize = start;
        while i < end
            invariant
                start < end <= self.text().len(),
                start <= i <= end,
                t == self.text().subrange(start as int, end as int),
                is_ascii_digit(t[0]),
                forall|j: int| 0 <= j < i - start ==> is_ascii_digit(#[trigger] t[j]) || t[j] == '.',
                forall|j: int, k: int|
                    0 <= j < k < i - start && #[trigger] t[j] == '.' ==> #[trigger] t[k] != '.',
                seen_dot == exists|j: int| 0 <= j < i - start && t[j] == '.',
            decreases end - i,
        {
            let c = self.chars[i];
            assert(t[i - start] == c);
            if c == '.' {
                if seen_dot {
                    let ghost j = choose|j: int| 0 <= j < i - start && t[j] == '.';
                    assert(t[j] == '.' && t[i - start] == '.');
                    return false;
                }
                seen_dot = true;
            } else if !('0' <= c && c <= '9') {
                return false;
            }
            i += 1;
        }
        true
    }

    /// Skips whitespace from the current position.
    fn skip_whitespace(&mut self)
        ensures
            final(self).text() == old(self).text(),
            final(self).pos() == whitespace_end(old(self).text(), old(self).pos()),
    {
        let ghost s = self.text();
        let ghost p = self.pos();
        loop
            invariant
                self.text() == s,
                0 <= p <= self.pos(),
                whitespace_end(s, self.pos()) == whitespace_end(s, p),
            ensures
                self.pos() == whitespace_end(s, p),
            decreases s.len() - self.pos(),
        {
            match self.peek() {
                Some(ch) => {
                    if is_whitespace(ch) {
                        assert(self.position < self.chars.len());
                        self.position += 1;
                    } else {
                        break;
                    }
                },
                None => {
                    break;
                },
            }
        }
    }


    /// Skips whitespace, then reads the token that starts there and
    /// advances past it. Returns `None`, at the first character that is no
    /// whitespace, where the input is used up or where that character starts
    /// no token; every token it returns takes at least one character.
    fn next_token(&mut self) -> (r: Option<Token>)
        ensures
            final(self).text() == old(self).text(),
            ({
                let s = old(self).text();
                let q = whitespace_end(s, old(self).pos());
                match r {
                    None => final(self).pos() == q && (q >= s.len() || token_end(s, q) <= q),
                    Some(t) => q < s.len() && q < token_end(s, q) && final(self).pos() == token_end(
                        s,
                        q,
                    ) && t@ == token_at(s, q, token_end(s, q)),
                }
            }),
    {
        // Skip whitespace
        self.skip_whitespace();

        if self.position >= self.chars.len() {
            return None;
        }
        let ch = self.chars[self.position];
        proof {
            let s = self.text();
            let q = self.pos();
            lemma_alphanumeric_end(s, q + 1);
            lemma_path_end(s, q + 1);
            lemma_number_end(s, q + 1, false);
            lemma_word_end(s, q);
        }
        if ch == '.' {
            Some(self.tokenize_format())
        } else if ch == '/' {
            Some(self.tokenize_path())
        } else if is_numeric(ch) {
            Some(self.tokenize_number())
        } else {
            let start: usize = self.position;
            let token = self.tokenize_word();
            if self.position == start {
                // The character starts no token
                return None;
            }
            Some(token)
        }
    }

    fn tokenize_word(&mut self) -> (t: Token)
        requires
            0 <= old(self).pos() < old(self).text().len(),
        ensures
            final(self).text() == old(self).text(),
            final(self).pos() == word_end(old(self).text(), old(self).pos()),
            t@ == word_token(old(self).text().subrange(old(self).pos(), final(self).pos())),
    {
        let ghost s = self.text();
        let start: usize = self.position;
        loop
            invariant
                self.text() == s,
                start <= self.pos() <= s.len(),
                word_end(s, self.pos()) == word_end(s, start as int),
            ensures
                self.pos() == word_end(s, start as int),
            decreases s.len() - self.pos(),
        {
            match self.peek() {
                Some(ch) => {
                    if is_alphanumeric(ch) || ch == '_' || ch == '.' {
                        assert(self.position < self.chars.len());
                        self.position += 1;
                    } else {
                        break;
                    }
                },
                None => {
                    break;
                },
            }
        }
        let word = self.slice(start, self.position);
        let has_dot = self.range_contains(start, self.position, '.');
        let starts_with_dot = start < self.position && self.chars[start] == '.';
        if has_dot && !starts_with_dot {
            Token::Path(word)
        } else {
            Token::Word(to_lowercase(word.as_str()))
        }
    }

    fn tokenize_path(&mut self) -> (t: Token)
        requires
            0 <= old(self).pos() < old(self).text().len(),
        ensures
            final(self).text() == old(self).text(),
            final(self).pos() == path_end(old(self).text(), old(self).pos()),
            t@ == TokenView::Path(old(self).text().subrange(old(self).pos(), final(self).pos())),
    {
        let ghost s = self.text();
        let start: usize = self.position;
        loop
            invariant
                self.text() == s,
                start <= self.pos() <= s.len(),
                path_end(s, self.pos()) == path_end(s, start as int),
            ensures
                self.pos() == path_end(s, start as int),
            decreases s.len() - self.pos(),
        {
            match self.peek() {
                Some(ch) => {
                    assert(self.position < self.chars.len());
                    if is_alphanumeric(ch) || ch == '/' || ch == '_' || ch == '-' || ch == '~' {
                        self.position += 1;
                    } else if ch == '.' {
                        // A dot belongs to the path only where an alphanumeric
                        // follows it (a file extension)
                        match self.peek_at(1) {
                            Some(next_ch) => {
                                if is_alphanumeric(next_ch) {
                                    self.position += 1;
                                } else {
                                    break;
                                }
                            },
                            None => {
                                break;
                            },
                        }
                    } else {
                        break;
                    }
                },
                None => {
                    break;
                },
            }
        }
        let path = self.slice(start, self.position);
        Token::Path(path)
    }

    fn tokenize_format(&mut self) -> (t: Token)
        requires
            0 <= old(self).pos() < old(self).text().len(),
            old(self).text()[old(self).pos()] == '.',
        ensures
            final(self).text() == old(self).text(),
            final(self).pos() == alphanumeric_end(old(self).text(), old(self).pos() + 1),
            t@ == TokenView::Format(
                lowercase(old(self).text().subrange(old(self).pos(), final(self).pos())),
            ),
    {
        let ghost s = self.text();
        let start: usize = self.position;
        match self.peek() {
            Some(ch) => {
                if ch == '.' {
                    assert(self.position < self.chars.len());
                    self.position += 1;
                }
            },
            None => {},
        }
        loop
            invariant
                self.text() == s,
                start + 1 <= self.pos() <= s.len(),
                alphanumeric_end(s, self.pos()) == alphanumeric_end(s, start + 1),
            ensures
                self.pos() == alphanumeric_end(s, start + 1),
            decreases s.len() - self.pos(),
        {
            match self.peek() {
                Some(ch) => {
                    if is_alphanumeric(ch) {
                        assert(self.position < self.chars.len());
                        self.position += 1;
                    } else {
                        break;
                    }
                },
                None => {
                    break;
                },
            }
        }
        let format = self.slice(start, self.position);
        Token::Format(to_lowercase(format.as_str()))
    }

    fn tokenize_number(&mut self) -> (t: Token)
        requires
            0 <= old(self).pos() < old(self).text().len(),
        ensures
            final(self).text() == old(self).text(),
            final(self).pos() == number_end(old(self).text(), old(self).pos(), false),
            ({
                let t_text = old(self).text().subrange(old(self).pos(), final(self).pos());
                t@ == if is_decimal_numeral(t_text) {
                    TokenView::Number(t_text)
                } else {
                    TokenView::Unknown(t_text)
                }
            }),
    {
        let ghost s = self.text();
        let start: usize = self.position;
        let mut has_decimal = false;
        loop
            invariant
                self.text() == s,
                start <= self.pos(),
                self.pos() <= s.len(),
                number_end(s, self.pos(), has_decimal) == number_end(s, start as int, false),
            ensures
                self.pos() == number_end(s, start as int, false),
            decreases s.len() - self.pos(),
        {
            match self.peek() {
                Some(ch) => {
                    assert(self.position < self.chars.len());
                    if is_numeric(ch) {
                        self.position += 1;
                    } else if ch == '.' && !has_decimal {
                        has_decimal = true;
                        self.position += 1;
                    } else {
                        break;
                    }
                },
                None => {
                    break;
                },
            }
        }
        let number_str = self.slice(start, self.position);
        if self.is_decimal_range(start, self.position) {
            Token::Number(number_str)
        } else {
            Token::Unknown(number_str)
        }
    }

    /// Tokenizes the input text from the current position into a vector of
    /// tokens, and leaves the tokenizer at the end of the input. A character
    /// that starts no token is passed over.
    pub fn tokenize(&mut self) -> (tokens: Vec<Token>)
        ensures
            final(self).text() == old(self).text(),
            final(self).pos() >= final(self).text().len(),
            tokens@.map_values(|t: Token| t@) == lex(old(self).text(), old(self).pos()),
    {
        let ghost s = self.text();
        let ghost p0 = self.pos();
        let mut tokens: Vec<Token> = Vec::new();
        assert(Seq::<TokenView>::empty() + lex(s, p0) =~= lex(s, p0));
        while self.position < self.chars.len()
            invariant
                self.text() == s,
                0 <= self.pos(),
                lex(s, p0) == tokens@.map_values(|t: Token| t@) + lex(s, self.pos()),
            decreases s.len() - self.pos(),
        {
            let ghost p = self.pos();
            let ghost before = tokens@.map_values(|t: Token| t@);
            proof {
                lemma_whitespace_end(s, p);
            }
            match self.next_token() {
                Some(token) => {
                    proof {
                        lemma_token_end(s, whitespace_end(s, p));
                    }
                    tokens.push(token);
                    assert(tokens@.map_values(|t: Token| t@) =~= before.push(token@));
                    assert(before + lex(s, p) =~= tokens@.map_values(|t: Token| t@) + lex(
                        s,
                        self.pos(),
                    ));
                },
                None => {
                    if self.position < self.chars.len() {
                        self.position += 1;
                    }
                },
            }
        }
        assert(lex(s, self.pos()) =~= Seq::<TokenView>::empty());
        assert(tokens@.map_values(|t: Token| t@) + Seq::<TokenView>::empty() =~= tokens@.map_values(
            |t: Token| t@,
        ));
        tokens
    }
}

} // verus!

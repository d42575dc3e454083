//! Laws of the scanner, proved once and for all inputs: what whole classes
//! of input tokenize to.
//!
//! Each law is stated over [`spec_lex`], the model that the contract of
//! [`crate::lexer::tokenize`] equates the executable scanner with.

use vstd::prelude::*;

use crate::chars::CharPred;
use crate::chars::is_ascii_alpha;
use crate::chars::is_digit;
use crate::chars::is_space;
use crate::lexer::records_view;
use crate::lexer::tokenize;
use crate::model::LexView;
use crate::model::digits_value;
use crate::model::dot_count;
use crate::model::false_chars;
use crate::model::lemma_dot_count_add;
use crate::model::lemma_dot_count_zero;
use crate::model::lemma_take_while_boundary;
use crate::model::lemma_take_while_full;
use crate::model::lemma_take_while_len;
use crate::model::spec_lex;
use crate::model::take_while;
use crate::model::true_chars;
use crate::token::LexError;
use crate::token::LexErrorView;
use crate::token::LiteralView;
use crate::token::Location;
use crate::token::Token;
use crate::token::TokenView;

verus! {

/// A character the scanner discards without emitting a token: whitespace
/// that starts no token class.
///
/// Real whitespace never starts a token, but the full extent of Unicode
/// whitespace is only named in this crate, so the token-start classes are
/// excluded here one by one.
pub open spec fn blank_char(c: char) -> bool {
    &&& is_space(c)
    &&& !is_digit(c)
    &&& !is_ascii_alpha(c)
    &&& c != '"'
    &&& c != '\''
    &&& c != '+'
    &&& c != '-'
    &&& c != '*'
    &&& c != '/'
    &&& c != '^'
    &&& c != '('
    &&& c != ')'
    &&& c != '{'
    &&& c != '}'
    &&& c != ':'
    &&& c != ';'
    &&& c != '<'
    &&& c != '>'
    &&& c != '&'
    &&& c != '='
    &&& c != '!'
}

/// Text made solely of whitespace and `!` line comments.
pub open spec fn blank_text(s: Seq<char>) -> bool
    decreases s.len(),
    via blank_text_decreases
{
    if s.len() == 0 {
        true
    } else if s[0] == '!' {
        blank_text(s.skip(take_while(CharPred::CommentBody, s).len() as int))
    } else {
        blank_char(s[0]) && blank_text(s.skip(1))
    }
}

#[via_fn]
proof fn blank_text_decreases(s: Seq<char>) {
    if s.len() > 0 && s[0] == '!' {
        lemma_take_while_len(CharPred::CommentBody, s);
        assert(CharPred::CommentBody.holds(s[0]));
        assert(take_while(CharPred::CommentBody, s).len() >= 1);
    }
}

/// Input consisting solely of whitespace and line comments scans to the
/// empty token sequence, from any starting line.
pub proof fn lemma_blank_scans_empty(s: Seq<char>, line: nat)
    requires
        blank_text(s),
    ensures
        spec_lex(s, line) == LexView::Completed(Seq::<(TokenView, nat)>::empty()),
    decreases s.len(),
{
    if s.len() == 0 {
    } else if s[0] == '!' {
        let k = take_while(CharPred::CommentBody, s).len();
        lemma_take_while_len(CharPred::CommentBody, s);
        assert(CharPred::CommentBody.holds(s[0]));
        assert(k >= 1);
        lemma_blank_scans_empty(s.skip(k as int), line);
    } else {
        if s[0] == '\n' {
            lemma_blank_scans_empty(s.skip(1), line + 1);
        } else {
            lemma_blank_scans_empty(s.skip(1), line);
        }
    }
}

/// A run of decimal digits alone, whose value fits a 64-bit signed integer,
/// scans to exactly one integer literal carrying that value.
pub proof fn lemma_integer_literal(s: Seq<char>, line: nat)
    requires
        s.len() > 0,
        forall|i: int| 0 <= i < s.len() ==> is_digit(#[trigger] s[i]),
        digits_value(s) <= i64::MAX,
    ensures
        spec_lex(s, line) == LexView::Completed(
            seq![(TokenView::Literal(LiteralView::Int(digits_value(s) as int)), line)],
        ),
{
    assert forall|i: int| 0 <= i < s.len() implies CharPred::NumberBody.holds(
        #[trigger] s[i],
    ) by {}
    lemma_take_while_full(CharPred::NumberBody, s);
    lemma_dot_count_zero(s);
    assert(spec_lex(s.skip(s.len() as int), line) == LexView::Completed(
        Seq::<(TokenView, nat)>::empty(),
    ));
    let t = TokenView::Literal(LiteralView::Int(digits_value(s) as int));
    assert(seq![(t, line)] + Seq::<(TokenView, nat)>::empty() =~= seq![(t, line)]);
}

/// A run of digits, one `.`, and more digits scans to exactly one float
/// literal carrying the whole run as its text.
pub proof fn lemma_float_literal(a: Seq<char>, b: Seq<char>, line: nat)
    requires
        a.len() > 0,
        b.len() > 0,
        forall|i: int| 0 <= i < a.len() ==> is_digit(#[trigger] a[i]),
        forall|i: int| 0 <= i < b.len() ==> is_digit(#[trigger] b[i]),
    ensures
        spec_lex(a + seq!['.'] + b, line) == LexView::Completed(
            seq![(TokenView::Literal(LiteralView::Float(a + seq!['.'] + b)), line)],
        ),
{
    let s = a + seq!['.'] + b;
    assert forall|i: int| 0 <= i < s.len() implies CharPred::NumberBody.holds(
        #[trigger] s[i],
    ) by {
        if i < a.len() {
            assert(s[i] == a[i]);
        } else if i == a.len() {
            assert(s[i] == '.');
        } else {
            assert(s[i] == b[i - a.len() - 1]);
        }
    }
    lemma_take_while_full(CharPred::NumberBody, s);
    lemma_dot_count_add(a + seq!['.'], b);
    lemma_dot_count_add(a, seq!['.']);
    lemma_dot_count_zero(a);
    lemma_dot_count_zero(b);
    assert(dot_count(seq!['.']) == 1) by {
        assert(seq!['.'].drop_last() =~= Seq::<char>::empty());
        assert(dot_count(Seq::<char>::empty()) == 0);
        assert(seq!['.'].last() == '.');
    }
    assert(s[0] == a[0]);
    assert(spec_lex(s.skip(s.len() as int), line) == LexView::Completed(
        Seq::<(TokenView, nat)>::empty(),
    ));
    let t = TokenView::Literal(LiteralView::Float(s));
    assert(seq![(t, line)] + Seq::<(TokenView, nat)>::empty() =~= seq![(t, line)]);
}

/// A quoted body without `"` scans to exactly one string literal whose value
/// is the body, character for character: no escape processing.
pub proof fn lemma_string_literal(body: Seq<char>, line: nat)
    requires
        forall|i: int| 0 <= i < body.len() ==> #[trigger] body[i] != '"',
    ensures
        spec_lex(seq!['"'] + body + seq!['"'], line) == LexView::Completed(
            seq![(TokenView::Literal(LiteralView::String(body)), line)],
        ),
{
    let s = seq!['"'] + body + seq!['"'];
    assert(s[0] == '"');
    assert(s.skip(1) =~= body + seq!['"']);
    assert forall|i: int| 0 <= i < body.len() implies CharPred::StringBody.holds(
        #[trigger] body[i],
    ) by {}
    lemma_take_while_boundary(CharPred::StringBody, body, seq!['"']);
    assert(take_while(CharPred::StringBody, s.skip(1)) == body);
    assert(s.len() == body.len() + 2);
    assert(spec_lex(s.skip(s.len() as int), line) == LexView::Completed(
        Seq::<(TokenView, nat)>::empty(),
    ));
    let t = TokenView::Literal(LiteralView::String(body));
    assert(seq![(t, line)] + Seq::<(TokenView, nat)>::empty() =~= seq![(t, line)]);
}

/// An opening quote followed by a body without `"` and no closing quote
/// fails with an unterminated-string error at the line where scanning began.
pub proof fn lemma_unterminated_string(body: Seq<char>, line: nat)
    requires
        forall|i: int| 0 <= i < body.len() ==> #[trigger] body[i] != '"',
    ensures
        spec_lex(seq!['"'] + body, line) == LexView::Failed(
            LexErrorView::UnterminatedString(line),
        ),
{
    let s = seq!['"'] + body;
    assert(s[0] == '"');
    assert(s.skip(1) =~= body);
    assert forall|i: int| 0 <= i < body.len() implies CharPred::StringBody.holds(
        #[trigger] body[i],
    ) by {}
    lemma_take_while_full(CharPred::StringBody, body);
}

/// A quoted body without `'` scans to exactly one character literal when the
/// body is a single character, and fails with an invalid-character-literal
/// error carrying the body for every other body length.
pub proof fn lemma_char_literal(body: Seq<char>, line: nat)
    requires
        forall|i: int| 0 <= i < body.len() ==> #[trigger] body[i] != '\'',
    ensures
        body.len() == 1 ==> spec_lex(seq!['\''] + body + seq!['\''], line)
            == LexView::Completed(
            seq![(TokenView::Literal(LiteralView::Char(body[0])), line)],
        ),
        body.len() != 1 ==> spec_lex(seq!['\''] + body + seq!['\''], line) == LexView::Failed(
            LexErrorView::InvalidCharacterLiteral(body, line),
        ),
{
    let s = seq!['\''] + body + seq!['\''];
    assert(s[0] == '\'');
    assert(s.skip(1) =~= body + seq!['\'']);
    assert forall|i: int| 0 <= i < body.len() implies CharPred::CharBody.holds(
        #[trigger] body[i],
    ) by {}
    lemma_take_while_boundary(CharPred::CharBody, body, seq!['\'']);
    assert(take_while(CharPred::CharBody, s.skip(1)) == body);
    if body.len() == 1 {
        assert(s.len() == 3);
        assert(spec_lex(s.skip(3), line) == LexView::Completed(
            Seq::<(TokenView, nat)>::empty(),
        ));
        let t = TokenView::Literal(LiteralView::Char(body[0]));
        assert(seq![(t, line)] + Seq::<(TokenView, nat)>::empty() =~= seq![(t, line)]);
    }
}

/// A run of identifier characters that starts with an ASCII letter scans to
/// exactly one token, over the whole run: a boolean literal for the
/// spellings `true` and `false`, an identifier carrying the run otherwise.
pub proof fn lemma_identifier_run(s: Seq<char>, line: nat)
    requires
        s.len() > 0,
        is_ascii_alpha(s[0]),
        forall|i: int| 0 <= i < s.len() ==> CharPred::IdentBody.holds(#[trigger] s[i]),
    ensures
        spec_lex(s, line) == LexView::Completed(
            seq![
                (
                    if s == true_chars() {
                        TokenView::Literal(LiteralView::Bool(true))
                    } else if s == false_chars() {
                        TokenView::Literal(LiteralView::Bool(false))
                    } else {
                        TokenView::Identifier(s)
                    },
                    line,
                ),
            ],
        ),
{
    lemma_take_while_full(CharPred::IdentBody, s);
    assert(!is_digit(s[0]));
    assert(spec_lex(s.skip(s.len() as int), line) == LexView::Completed(
        Seq::<(TokenView, nat)>::empty(),
    ));
    let t = if s == true_chars() {
        TokenView::Literal(LiteralView::Bool(true))
    } else if s == false_chars() {
        TokenView::Literal(LiteralView::Bool(false))
    } else {
        TokenView::Identifier(s)
    };
    assert(seq![(t, line)] + Seq::<(TokenView, nat)>::empty() =~= seq![(t, line)]);
}

/// Scanning is a pure function of the input text: two scans of the same
/// input succeed or fail together, return equal token sequences paired with
/// equal lines, or equal errors.  There is no hidden state between calls.
pub fn tokenize_twice(input: &str) -> (r: (
    Result<Vec<(Token, Location)>, LexError>,
    Result<Vec<(Token, Location)>, LexError>,
))
    ensures
        match r {
            (Ok(a), Ok(b)) => records_view(a@) == records_view(b@),
            (Err(a), Err(b)) => a@ == b@,
            _ => false,
        },
{
    (tokenize(input), tokenize(input))
}

} // verus!

//! The scanner: one classifier per token class, each consuming characters
//! from a shared [`Cursor`], and the top-level dispatch loop that folds them
//! over the whole input.
//!
//! Every contract here is stated against [`spec_step`] and [`spec_lex`], the
//! mathematical model of the scan.

use vstd::prelude::*;

use crate::chars::CharPred;
use crate::chars::check_ascii_alpha;
use crate::chars::check_digit;
use crate::chars::check_space;
use crate::chars::is_ascii_alpha;
use crate::chars::is_digit;
use crate::cursor::Cursor;
use crate::cursor::chars_to_string;
use crate::cursor::consume_run;
use crate::model::LexView;
use crate::model::StepView;
use crate::model::digits_value;
use crate::model::dot_count;
use crate::model::false_chars;
use crate::model::lemma_dot_count_zero;
use crate::model::lemma_step_bounds;
use crate::model::lemma_take_while_chars;
use crate::model::lemma_take_while_len;
use crate::model::lex_prepend;
use crate::model::spec_lex;
use crate::model::spec_step;
use crate::model::take_while;
use crate::model::true_chars;
use crate::token::LexError;
use crate::token::LiteralKind;
use crate::token::LiteralView;
use crate::token::Location;
use crate::token::Token;
use crate::token::TokenView;

verus! {

/// The mathematical value of an emitted record sequence: each token's view,
/// paired with its line.
pub open spec fn records_view(rs: Seq<(Token, Location)>) -> Seq<(TokenView, nat)> {
    rs.map(|i: int, r: (Token, Location)| (r.0@, r.1.line as nat))
}

proof fn lemma_records_view_push(rs: Seq<(Token, Location)>, t: Token, loc: Location)
    ensures
        records_view(rs.push((t, loc))) == records_view(rs) + seq![(t@, loc.line as nat)],
{
    assert(records_view(rs.push((t, loc))) =~= records_view(rs) + seq![(t@, loc.line as nat)]);
}

proof fn lemma_prepend_nil(rest: LexView)
    ensures
        lex_prepend(Seq::empty(), rest) == rest,
{
    match rest {
        LexView::Completed(r) => {
            assert(Seq::empty() + r =~= r);
        },
        LexView::Failed(_) => {},
    }
}

proof fn lemma_prepend_assoc(a: Seq<(TokenView, nat)>, b: Seq<(TokenView, nat)>, rest: LexView)
    ensures
        lex_prepend(a, lex_prepend(b, rest)) == lex_prepend(a + b, rest),
{
    match rest {
        LexView::Completed(r) => {
            assert(a + (b + r) =~= (a + b) + r);
        },
        LexView::Failed(_) => {},
    }
}

/// Consume the maximal run of characters satisfying `condition` and return
/// it as a `String`.
///
/// The run never includes the first character that fails the predicate: that
/// character stays available to the caller.  This primitive never fails.
pub fn consume_while(cur: &mut Cursor, condition: CharPred) -> (r: String)
    requires
        old(cur).wf(),
    ensures
        final(cur).wf(),
        r@ == take_while(condition, old(cur).remaining()),
        final(cur).remaining() == old(cur).remaining().skip(r@.len() as int),
{
    let run = consume_run(cur, condition);
    chars_to_string(&run)
}

/// The value of a run of decimal digits, as a 64-bit signed integer, or
/// `None` when the value is too large for one.
fn parse_int_run(run: &Vec<char>) -> (r: Option<i64>)
    requires
        forall|i: int| 0 <= i < run@.len() ==> is_digit(#[trigger] run@[i]),
    ensures
        match r {
            Some(v) => v >= 0 && digits_value(run@) <= i64::MAX && v as nat == digits_value(
                run@,
            ),
            None => digits_value(run@) > i64::MAX,
        },
{
    let mut acc: i64 = 0;
    let mut i: usize = 0;
    while i < run.len()
        invariant
            i <= run@.len(),
            forall|j: int| 0 <= j < run@.len() ==> is_digit(#[trigger] run@[j]),
            0 <= acc,
            acc as nat == digits_value(run@.take(i as int)),
        decreases run@.len() - i,
    {
        let c = run[i];
        let d = (c as u32) as i64 - 48;
        proof {
            assert(is_digit(run@[i as int]));
            assert(run@.take(i as int + 1).drop_last() =~= run@.take(i as int));
            assert(run@.take(i as int + 1).last() == run@[i as int]);
        }
        if acc > 922_337_203_685_477_580i64 || (acc == 922_337_203_685_477_580i64 && d > 7) {
            proof {
                assert(digits_value(run@.take(i as int + 1)) > i64::MAX);
                lemma_digits_value_prefix(run@, i as int + 1);
            }
            return None;
        }
        acc = acc * 10 + d;
        i = i + 1;
    }
    proof {
        assert(run@.take(run@.len() as int) =~= run@);
    }
    Some(acc)
}

/// The value of a digit run never shrinks when more digits follow.
proof fn lemma_digits_value_prefix(s: Seq<char>, k: int)
    requires
        0 <= k <= s.len(),
    ensures
        digits_value(s.take(k)) <= digits_value(s),
    decreases s.len() - k,
{
    if k < s.len() {
        lemma_digits_value_prefix(s.drop_last(), k);
        assert(s.drop_last().take(k) =~= s.take(k));
        assert(digits_value(s.drop_last()) * 10 >= digits_value(s.drop_last()));
    } else {
        assert(s.take(k) =~= s);
    }
}

/// How many `.` characters the run holds.
fn count_dots(run: &Vec<char>) -> (n: usize)
    ensures
        n as nat == dot_count(run@),
{
    let mut n: usize = 0;
    let mut i: usize = 0;
    while i < run.len()
        invariant
            i <= run@.len(),
            n <= i,
            n as nat == dot_count(run@.take(i as int)),
        decreases run@.len() - i,
    {
        proof {
            assert(run@.take(i as int + 1).drop_last() =~= run@.take(i as int));
            assert(run@.take(i as int + 1).last() == run@[i as int]);
        }
        if run[i] == '.' {
            n = n + 1;
        }
        i = i + 1;
    }
    proof {
        assert(run@.take(run@.len() as int) =~= run@);
    }
    n
}

/// Scan a numeric literal: the maximal run of ASCII digits and `.`.
///
/// A run without a `.` is a 64-bit signed integer literal; a run with
/// exactly one `.` is a float literal carrying the run's text.  A run with
/// more than one `.`, or an integer too large for `i64`, is a
/// malformed-number error at `line`.
pub fn tokenize_number(cur: &mut Cursor, line: usize) -> (r: Result<Token, LexError>)
    requires
        old(cur).wf(),
        old(cur).remaining().len() > 0,
        is_digit(old(cur).remaining()[0]),
    ensures
        final(cur).wf(),
        ({
            let step = spec_step(old(cur).remaining(), line as nat);
            &&& final(cur).remaining() == old(cur).remaining().skip(step.1 as int)
            &&& step.2 == line as nat
            &&& match r {
                Ok(t) => step.0 == StepView::Emit(t@),
                Err(e) => step.0 == StepView::Abort(e@),
            }
        }),
{
    let ghost s = old(cur).remaining();
    let run = consume_run(cur, CharPred::NumberBody);
    let dots = count_dots(&run);
    proof {
        lemma_take_while_chars(CharPred::NumberBody, s);
    }
    if dots == 0 {
        proof {
            lemma_dot_count_zero(run@);
            assert forall|i: int| 0 <= i < run@.len() implies is_digit(#[trigger] run@[i]) by {
                assert(run@[i] == s.take(run@.len() as int)[i]);
                assert(CharPred::NumberBody.holds(s[i]));
            }
        }
        match parse_int_run(&run) {
            Some(value) => Ok(Token::Literal(LiteralKind::Int { value })),
            None => Err(
                LexError::MalformedNumber(chars_to_string(&run), Location { line }),
            ),
        }
    } else if dots == 1 {
        Ok(Token::Literal(LiteralKind::Float { text: chars_to_string(&run) }))
    } else {
        Err(LexError::MalformedNumber(chars_to_string(&run), Location { line }))
    }
}

/// Scan a string literal: the opening `"`, the maximal run of characters
/// other than `"`, and the closing `"`.
///
/// No escape processing: a backslash is an ordinary character, and the
/// literal's value is exactly the characters between the quotes.  When the
/// input ends before the closing quote, the error is an unterminated string
/// at `line`.
pub fn tokenize_string(cur: &mut Cursor, line: usize) -> (r: Result<Token, LexError>)
    requires
        old(cur).wf(),
        old(cur).remaining().len() > 0,
        old(cur).remaining()[0] == '"',
    ensures
        final(cur).wf(),
        ({
            let step = spec_step(old(cur).remaining(), line as nat);
            &&& final(cur).remaining() == old(cur).remaining().skip(step.1 as int)
            &&& step.2 == line as nat
            &&& match r {
                Ok(t) => step.0 == StepView::Emit(t@),
                Err(e) => step.0 == StepView::Abort(e@),
            }
        }),
{
    let ghost s = old(cur).remaining();
    cur.advance();
    let body = consume_run(cur, CharPred::StringBody);
    proof {
        lemma_take_while_len(CharPred::StringBody, s.skip(1));
        assert(s.skip(1).skip(body@.len() as int) =~= s.skip(1 + body@.len() as int));
    }
    match cur.peek() {
        Some(_) => {
            cur.advance();
            proof {
                assert(s.skip(1 + body@.len() as int).skip(1) =~= s.skip(
                    2 + body@.len() as int,
                ));
            }
            Ok(Token::Literal(LiteralKind::String { value: chars_to_string(&body) }))
        },
        None => {
            proof {
                assert(1 + body@.len() == s.len());
            }
            Err(LexError::UnterminatedString(Location { line }))
        },
    }
}

/// Scan a character literal: the opening `'`, the maximal run of characters
/// other than `'`, and — when the input has not ended — the closing `'`.
///
/// The run between the quotes must be exactly one character; an empty or
/// longer run is an invalid-character-literal error at `line`, carrying the
/// offending run.
pub fn tokenize_char(cur: &mut Cursor, line: usize) -> (r: Result<Token, LexError>)
    requires
        old(cur).wf(),
        old(cur).remaining().len() > 0,
        old(cur).remaining()[0] == '\'',
    ensures
        final(cur).wf(),
        ({
            let step = spec_step(old(cur).remaining(), line as nat);
            &&& final(cur).remaining() == old(cur).remaining().skip(step.1 as int)
            &&& step.2 == line as nat
            &&& match r {
                Ok(t) => step.0 == StepView::Emit(t@),
                Err(e) => step.0 == StepView::Abort(e@),
            }
        }),
{
    let ghost s = old(cur).remaining();
    cur.advance();
    let body = consume_run(cur, CharPred::CharBody);
    proof {
        lemma_take_while_len(CharPred::CharBody, s.skip(1));
        assert(s.skip(1).skip(body@.len() as int) =~= s.skip(1 + body@.len() as int));
    }
    if body.len() == 1 {
        match cur.peek() {
            Some(_) => {
                cur.advance();
                proof {
                    assert(s.skip(2).skip(1) =~= s.skip(3));
                }
            },
            None => {
                proof {
                    assert(s.len() == 2);
                }
            },
        }
        Ok(Token::Literal(LiteralKind::Char { value: body[0] }))
    } else {
        Err(LexError::InvalidCharacterLiteral(chars_to_string(&body), Location { line }))
    }
}

/// Scan an identifier: the maximal run of alphabetic characters, `_`, ASCII
/// digits and `'`.
///
/// The spellings `true` and `false` become boolean literals; every other run
/// is an identifier carrying the run as its name.  This classifier never
/// fails.
pub fn tokenize_identifier(cur: &mut Cursor) -> (r: Token)
    requires
        old(cur).wf(),
        old(cur).remaining().len() > 0,
        is_ascii_alpha(old(cur).remaining()[0]),
    ensures
        final(cur).wf(),
        ({
            let run = take_while(CharPred::IdentBody, old(cur).remaining());
            &&& final(cur).remaining() == old(cur).remaining().skip(run.len() as int)
            &&& r@ == (if run == true_chars() {
                TokenView::Literal(LiteralView::Bool(true))
            } else if run == false_chars() {
                TokenView::Literal(LiteralView::Bool(false))
            } else {
                TokenView::Identifier(run)
            })
        }),
{
    let run = consume_run(cur, CharPred::IdentBody);
    let name = chars_to_string(&run);
    proof {
        reveal_strlit("true");
        reveal_strlit("false");
        assert("true"@ =~= true_chars());
        assert("false"@ =~= false_chars());
    }
    if name == "true".to_owned() {
        Token::Literal(LiteralKind::Bool { value: true })
    } else if name == "false".to_owned() {
        Token::Literal(LiteralKind::Bool { value: false })
    } else {
        Token::Identifier(name)
    }
}

/// Scan `-`, with one character of lookahead: `->` becomes the arrow token,
/// anything else leaves a single minus.  This is the scanner's only
/// multi-character operator, resolved by preferring the longer match.
pub fn tokenize_minus(cur: &mut Cursor) -> (r: Token)
    requires
        old(cur).wf(),
        old(cur).remaining().len() > 0,
        old(cur).remaining()[0] == '-',
    ensures
        final(cur).wf(),
        ({
            let s = old(cur).remaining();
            if s.len() >= 2 && s[1] == '>' {
                r@ == TokenView::Arrow && final(cur).remaining() == s.skip(2)
            } else {
                r@ == TokenView::Minus && final(cur).remaining() == s.skip(1)
            }
        }),
{
    let ghost s = old(cur).remaining();
    cur.advance();
    let arrow = match cur.peek() {
        Some(c) => c == '>',
        None => false,
    };
    if arrow {
        cur.advance();
        proof {
            assert(s.skip(1).skip(1) =~= s.skip(2));
        }
        Token::Arrow
    } else {
        Token::Minus
    }
}

/// Tokenize the whole input: the ordered sequence of tokens, each paired
/// with the 0-based line on which its first character stood, or the first
/// lexical error.
///
/// Whitespace and `!` line comments produce no tokens.  The scan is a pure
/// function of the input text: its outcome is exactly [`spec_lex`] of the
/// input's character sequence, starting at line 0.
pub fn tokenize(input: &str) -> (r: Result<Vec<(Token, Location)>, LexError>)
    ensures
        match r {
            Ok(records) => spec_lex(input@, 0) == LexView::Completed(records_view(records@)),
            Err(e) => spec_lex(input@, 0) == LexView::Failed(e@),
        },
{
    let mut cur = Cursor::new(input);
    let mut tokens: Vec<(Token, Location)> = Vec::new();
    let mut line: usize = 0;
    proof {
        assert(records_view(tokens@) =~= Seq::<(TokenView, nat)>::empty());
        lemma_prepend_nil(spec_lex(input@, 0));
    }
    loop
        invariant
            cur.wf(),
            line as nat + cur.remaining().len() <= usize::MAX,
            spec_lex(input@, 0) == lex_prepend(
                records_view(tokens@),
                spec_lex(cur.remaining(), line as nat),
            ),
        ensures
            cur.remaining().len() == 0,
            spec_lex(input@, 0) == lex_prepend(
                records_view(tokens@),
                spec_lex(cur.remaining(), line as nat),
            ),
        decreases cur.remaining().len(),
    {
        let ghost s = cur.remaining();
        let ghost line0 = line as nat;
        let c = match cur.peek() {
            Some(c) => c,
            None => { break ; },
        };
        proof {
            lemma_step_bounds(s, line0);
        }
        let token: Token = if check_digit(c) {
            match tokenize_number(&mut cur, line) {
                Ok(t) => t,
                Err(e) => {
                    return Err(e);
                },
            }
        } else if c == '"' {
            match tokenize_string(&mut cur, line) {
                Ok(t) => t,
                Err(e) => {
                    return Err(e);
                },
            }
        } else if c == '\'' {
            match tokenize_char(&mut cur, line) {
                Ok(t) => t,
                Err(e) => {
                    return Err(e);
                },
            }
        } else if check_ascii_alpha(c) {
            tokenize_identifier(&mut cur)
        } else if c == '+' {
            cur.advance();
            Token::Plus
        } else if c == '-' {
            tokenize_minus(&mut cur)
        } else if c == '*' {
            cur.advance();
            Token::Multiply
        } else if c == '/' {
            cur.advance();
            Token::Divide
        } else if c == '^' {
            cur.advance();
            Token::Carat
        } else if c == '(' {
            cur.advance();
            Token::LParen
        } else if c == ')' {
            cur.advance();
            Token::RParen
        } else if c == '{' {
            cur.advance();
            Token::LBrace
        } else if c == '}' {
            cur.advance();
            Token::RBrace
        } else if c == ':' {
            cur.advance();
            Token::Colon
        } else if c == ';' {
            cur.advance();
            Token::Semi
        } else if c == '<' {
            cur.advance();
            Token::LessThan
        } else if c == '>' {
            cur.advance();
            Token::GreaterThan
        } else if c == '&' {
            cur.advance();
            Token::And
        } else if c == '=' {
            cur.advance();
            Token::Eq
        } else if c == '!' {
            consume_run(&mut cur, CharPred::CommentBody);
            continue ;
        } else if check_space(c) {
            if c == '\n' {
                line = line + 1;
            }
            cur.advance();
            continue ;
        } else {
            return Err(LexError::UnexpectedCharacter(c, Location { line }));
        };
        let loc = Location { line };
        proof {
            let step = spec_step(s, line0);
            assert(step.0 == StepView::Emit(token@));
            lemma_records_view_push(tokens@, token, loc);
            lemma_prepend_assoc(
                records_view(tokens@),
                seq![(token@, line0)],
                spec_lex(cur.remaining(), line as nat),
            );
        }
        tokens.push((token, loc));
    }
    proof {
        assert(spec_lex(cur.remaining(), line as nat) == LexView::Completed(
            Seq::<(TokenView, nat)>::empty(),
        ));
        assert(records_view(tokens@) + Seq::<(TokenView, nat)>::empty() =~= records_view(
            tokens@,
        ));
    }
    Ok(tokens)
}

} // verus!

//! The mathematical model of the scanner.
//!
//! `spec_step` says what one step of the scan does to the text in front of
//! the cursor: which token it emits, how many characters it uses, and how the
//! line counter moves.  `spec_lex` folds `spec_step` over the whole input and
//! is the single definition every contract of the executable scanner refers
//! to.

use vstd::prelude::*;

use crate::chars::CharPred;
use crate::chars::is_ascii_alpha;
use crate::chars::is_digit;
use crate::chars::is_space;
use crate::token::LexErrorView;
use crate::token::LiteralView;
use crate::token::TokenView;

verus! {

/// The longest prefix of `s` whose characters all satisfy `p`.
pub open spec fn take_while(p: CharPred, s: Seq<char>) -> Seq<char>
    decreases s.len(),
{
    if s.len() == 0 {
        Seq::empty()
    } else if p.holds(s[0]) {
        seq![s[0]] + take_while(p, s.skip(1))
    } else {
        Seq::empty()
    }
}

/// A consume-while run never reaches past the end of the input.
pub proof fn lemma_take_while_len(p: CharPred, s: Seq<char>)
    ensures
        take_while(p, s).len() <= s.len(),
    decreases s.len(),
{
    if s.len() > 0 && p.holds(s[0]) {
        lemma_take_while_len(p, s.skip(1));
    }
}

/// A consume-while run is a prefix of the input, all of whose characters
/// satisfy `p`, and it stops exactly at the first character that does not.
pub proof fn lemma_take_while_chars(p: CharPred, s: Seq<char>)
    ensures
        take_while(p, s).len() <= s.len(),
        take_while(p, s) == s.take(take_while(p, s).len() as int),
        forall|i: int| 0 <= i < take_while(p, s).len() ==> p.holds(#[trigger] s[i]),
        take_while(p, s).len() < s.len() ==> !p.holds(s[take_while(p, s).len() as int]),
    decreases s.len(),
{
    lemma_take_while_len(p, s);
    if s.len() > 0 && p.holds(s[0]) {
        lemma_take_while_chars(p, s.skip(1));
        let n = take_while(p, s).len() as int;
        assert(take_while(p, s) =~= s.take(n));
        assert forall|i: int| 0 <= i < n implies p.holds(#[trigger] s[i]) by {
            if i > 0 {
                assert(p.holds(s.skip(1)[i - 1]));
            }
        }
    } else {
        assert(take_while(p, s) =~= s.take(0));
    }
}

/// On input whose characters all satisfy `p`, a consume-while run takes
/// everything.
pub proof fn lemma_take_while_full(p: CharPred, s: Seq<char>)
    requires
        forall|i: int| 0 <= i < s.len() ==> p.holds(#[trigger] s[i]),
    ensures
        take_while(p, s) == s,
    decreases s.len(),
{
    if s.len() > 0 {
        lemma_take_while_full(p, s.skip(1));
        assert(take_while(p, s) =~= s);
    } else {
        assert(take_while(p, s) =~= s);
    }
}

/// A consume-while run on `x + y`, where every character of `x` satisfies
/// `p` and the first character of `y` does not, takes exactly `x`.
pub proof fn lemma_take_while_boundary(p: CharPred, x: Seq<char>, y: Seq<char>)
    requires
        forall|i: int| 0 <= i < x.len() ==> p.holds(#[trigger] x[i]),
        y.len() > 0,
        !p.holds(y[0]),
    ensures
        take_while(p, x + y) == x,
{
    let s = x + y;
    let w = take_while(p, s);
    lemma_take_while_chars(p, s);
    if w.len() < x.len() {
        assert(p.holds(x[w.len() as int]));
        assert(s[w.len() as int] == x[w.len() as int]);
        assert(false);
    }
    if w.len() > x.len() {
        assert(p.holds(s[x.len() as int]));
        assert(s[x.len() as int] == y[0]);
        assert(false);
    }
    assert(w =~= x);
}

/// The numeric value of a digit character.
pub open spec fn digit_val(c: char) -> nat {
    (c as u32 - 48) as nat
}

/// The value of a run of decimal digits, read left to right.
pub open spec fn digits_value(s: Seq<char>) -> nat
    decreases s.len(),
{
    if s.len() == 0 {
        0
    } else {
        digits_value(s.drop_last()) * 10 + digit_val(s.last())
    }
}

/// How many `.` characters a run contains.
pub open spec fn dot_count(s: Seq<char>) -> nat
    decreases s.len(),
{
    if s.len() == 0 {
        0
    } else {
        dot_count(s.drop_last()) + if s.last() == '.' {
            1nat
        } else {
            0nat
        }
    }
}

/// A run contains no `.` exactly when no position holds one.
pub proof fn lemma_dot_count_zero(s: Seq<char>)
    ensures
        dot_count(s) == 0 <==> (forall|i: int| 0 <= i < s.len() ==> #[trigger] s[i] != '.'),
    decreases s.len(),
{
    if s.len() > 0 {
        lemma_dot_count_zero(s.drop_last());
        if dot_count(s) == 0 {
            assert(forall|i: int| 0 <= i < s.len() - 1 ==> s.drop_last()[i] == #[trigger] s[i]);
        }
    }
}

/// Dots are counted piecewise across concatenation.
pub proof fn lemma_dot_count_add(x: Seq<char>, y: Seq<char>)
    ensures
        dot_count(x + y) == dot_count(x) + dot_count(y),
    decreases y.len(),
{
    if y.len() == 0 {
        assert(x + y =~= x);
    } else {
        lemma_dot_count_add(x, y.drop_last());
        assert((x + y).drop_last() =~= x + y.drop_last());
        assert((x + y).last() == y.last());
    }
}

/// The spelling of the boolean literal `true`.
pub open spec fn true_chars() -> Seq<char> {
    seq!['t', 'r', 'u', 'e']
}

/// The spelling of the boolean literal `false`.
pub open spec fn false_chars() -> Seq<char> {
    seq!['f', 'a', 'l', 's', 'e']
}

/// What one step of the scan produces: a token, nothing (whitespace or a
/// comment), or the error that aborts the scan.
pub enum StepView {
    Emit(TokenView),
    Skip,
    Abort(LexErrorView),
}

/// The outcome of a whole scan: the ordered token sequence, each token paired
/// with its 0-based line, or the first lexical error.
pub enum LexView {
    Completed(Seq<(TokenView, nat)>),
    Failed(LexErrorView),
}

/// One step of the scan on the nonempty text `s` with the line counter at
/// `line`: the outcome, the number of characters the step uses (always at
/// least one), and the line counter afterwards.
///
/// The branches stand in the scanner's classification precedence: digit,
/// string quote, character quote, ASCII letter, the fixed one-character
/// symbols, `-` with one character of lookahead, the `!` line comment,
/// whitespace, and — for everything else — the unexpected-character error.
pub open spec fn spec_step(s: Seq<char>, line: nat) -> (StepView, nat, nat) {
    let c = s[0];
    if is_digit(c) {
        let run = take_while(CharPred::NumberBody, s);
        if dot_count(run) == 0 {
            if digits_value(run) <= i64::MAX {
                (StepView::Emit(TokenView::Literal(LiteralView::Int(digits_value(run) as int))), run.len(), line)
            } else {
                (StepView::Abort(LexErrorView::MalformedNumber(run, line)), run.len(), line)
            }
        } else if dot_count(run) == 1 {
            (StepView::Emit(TokenView::Literal(LiteralView::Float(run))), run.len(), line)
        } else {
            (StepView::Abort(LexErrorView::MalformedNumber(run, line)), run.len(), line)
        }
    } else if c == '"' {
        let body = take_while(CharPred::StringBody, s.skip(1));
        if 1 + body.len() < s.len() {
            (StepView::Emit(TokenView::Literal(LiteralView::String(body))), 2 + body.len(), line)
        } else {
            (StepView::Abort(LexErrorView::UnterminatedString(line)), s.len(), line)
        }
    } else if c == '\'' {
        let body = take_while(CharPred::CharBody, s.skip(1));
        if body.len() == 1 {
            (StepView::Emit(TokenView::Literal(LiteralView::Char(body[0]))), if 2 < s.len() {
                3nat
            } else {
                2nat
            }, line)
        } else {
            (StepView::Abort(LexErrorView::InvalidCharacterLiteral(body, line)), 1 + body.len(), line)
        }
    } else if is_ascii_alpha(c) {
        let run = take_while(CharPred::IdentBody, s);
        if run == true_chars() {
            (StepView::Emit(TokenView::Literal(LiteralView::Bool(true))), run.len(), line)
        } else if run == false_chars() {
            (StepView::Emit(TokenView::Literal(LiteralView::Bool(false))), run.len(), line)
        } else {
            (StepView::Emit(TokenView::Identifier(run)), run.len(), line)
        }
    } else if c == '+' {
        (StepView::Emit(TokenView::Plus), 1, line)
    } else if c == '-' {
        if s.len() >= 2 && s[1] == '>' {
            (StepView::Emit(TokenView::Arrow), 2, line)
        } else {
            (StepView::Emit(TokenView::Minus), 1, line)
        }
    } else if c == '*' {
        (StepView::Emit(TokenView::Multiply), 1, line)
    } else if c == '/' {
        (StepView::Emit(TokenView::Divide), 1, line)
    } else if c == '^' {
        (StepView::Emit(TokenView::Carat), 1, line)
    } else if c == '(' {
        (StepView::Emit(TokenView::LParen), 1, line)
    } else if c == ')' {
        (StepView::Emit(TokenView::RParen), 1, line)
    } else if c == '{' {
        (StepView::Emit(TokenView::LBrace), 1, line)
    } else if c == '}' {
        (StepView::Emit(TokenView::RBrace), 1, line)
    } else if c == ':' {
        (StepView::Emit(TokenView::Colon), 1, line)
    } else if c == ';' {
        (StepView::Emit(TokenView::Semi), 1, line)
    } else if c == '<' {
        (StepView::Emit(TokenView::LessThan), 1, line)
    } else if c == '>' {
        (StepView::Emit(TokenView::GreaterThan), 1, line)
    } else if c == '&' {
        (StepView::Emit(TokenView::And), 1, line)
    } else if c == '=' {
        (StepView::Emit(TokenView::Eq), 1, line)
    } else if c == '!' {
        (StepView::Skip, take_while(CharPred::CommentBody, s).len(), line)
    } else if is_space(c) {
        (StepView::Skip, 1, if c == '\n' {
            line + 1
        } else {
            line
        })
    } else {
        (StepView::Abort(LexErrorView::UnexpectedCharacter(c, line)), 1, line)
    }
}

/// Every step of the scan uses at least one character and never more than
/// remain.
pub proof fn lemma_step_bounds(s: Seq<char>, line: nat)
    requires
        s.len() > 0,
    ensures
        1 <= spec_step(s, line).1 <= s.len(),
{
    let c = s[0];
    lemma_take_while_len(CharPred::NumberBody, s);
    lemma_take_while_len(CharPred::IdentBody, s);
    lemma_take_while_len(CharPred::CommentBody, s);
    lemma_take_while_len(CharPred::StringBody, s.skip(1));
    lemma_take_while_len(CharPred::CharBody, s.skip(1));
    if is_digit(c) {
        assert(CharPred::NumberBody.holds(c));
        assert(take_while(CharPred::NumberBody, s).len() >= 1);
    } else if c == '"' {
    } else if c == '\'' {
    } else if is_ascii_alpha(c) {
        assert(CharPred::IdentBody.holds(c));
        assert(take_while(CharPred::IdentBody, s).len() >= 1);
    } else if c == '!' {
        assert(CharPred::CommentBody.holds(c));
        assert(take_while(CharPred::CommentBody, s).len() >= 1);
    }
}

/// The whole scan of `s` with the line counter at `line`: fold `spec_step`
/// left to right, pairing each emitted token with the line at which its
/// first character stood, and stopping at the first error.
pub open spec fn spec_lex(s: Seq<char>, line: nat) -> LexView
    decreases s.len(),
    via lex_decreases
{
    if s.len() == 0 {
        LexView::Completed(Seq::empty())
    } else {
        let step = spec_step(s, line);
        match step.0 {
            StepView::Emit(t) => match spec_lex(s.skip(step.1 as int), step.2) {
                LexView::Completed(rest) => LexView::Completed(seq![(t, line)] + rest),
                LexView::Failed(e) => LexView::Failed(e),
            },
            StepView::Skip => spec_lex(s.skip(step.1 as int), step.2),
            StepView::Abort(e) => LexView::Failed(e),
        }
    }
}

#[via_fn]
proof fn lex_decreases(s: Seq<char>, line: nat) {
    if s.len() > 0 {
        lemma_step_bounds(s, line);
    }
}

/// `rest` with the already-collected records `ts` put in front: the shape of
/// the scanner's loop invariant.
pub open spec fn lex_prepend(ts: Seq<(TokenView, nat)>, rest: LexView) -> LexView {
    match rest {
        LexView::Completed(r) => LexView::Completed(ts + r),
        LexView::Failed(e) => LexView::Failed(e),
    }
}

} // verus!

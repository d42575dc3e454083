//! The character cursor: a forward-only, one-character-lookahead walk over
//! the input's Unicode scalar sequence, and the consume-while primitive every
//! classifier is built on.

use vstd::prelude::*;
use vstd::string::StrSliceExecFns;

use crate::chars::CharPred;
use crate::model::take_while;

verus! {

/// A forward-only cursor over the input text.
///
/// The input is materialized as its scalar sequence once; the cursor's only
/// state is the position of the next unconsumed character.
pub struct Cursor {
    text: Vec<char>,
    pos: usize,
}

impl Cursor {
    /// The cursor position never passes the end of the text.
    pub closed spec fn wf(self) -> bool {
        self.pos <= self.text@.len()
    }

    /// The characters not yet consumed, in order.
    pub closed spec fn remaining(self) -> Seq<char> {
        self.text@.skip(self.pos as int)
    }

    /// A cursor standing at the first character of `input`.
    pub fn new(input: &str) -> (c: Cursor)
        ensures
            c.wf(),
            c.remaining() == input@,
            c.remaining().len() <= usize::MAX,
    {
        let n = input.unicode_len();
        let mut text: Vec<char> = Vec::new();
        let mut i: usize = 0;
        while i < n
            invariant
                i <= n,
                n == input@.len(),
                text@ == input@.take(i as int),
            decreases n - i,
        {
            let ch = input.get_char(i);
            text.push(ch);
            i = i + 1;
            proof {
                assert(text@ =~= input@.take(i as int));
            }
        }
        proof {
            assert(text@ =~= input@);
        }
        let c = Cursor { text, pos: 0 };
        proof {
            assert(c.remaining() =~= input@);
        }
        c
    }

    /// The next character, if any, without consuming it.
    pub fn peek(&self) -> (r: Option<char>)
        requires
            self.wf(),
        ensures
            r == (if self.remaining().len() > 0 {
                Some(self.remaining()[0])
            } else {
                Option::<char>::None
            }),
    {
        if self.pos < self.text.len() {
            Some(self.text[self.pos])
        } else {
            None
        }
    }

    /// Consume one character.
    pub fn advance(&mut self)
        requires
            old(self).wf(),
            old(self).remaining().len() > 0,
        ensures
            final(self).wf(),
            final(self).remaining() == old(self).remaining().skip(1),
    {
        let n = self.text.len();
        proof {
            assert(old(self).remaining().len() == n - self.pos);
        }
        self.pos = self.pos + 1;
        proof {
            assert(final(self).remaining() =~= old(self).remaining().skip(1));
        }
    }
}

/// Relies on `String::push`: appends the given character to the end of the
/// string.
#[verifier::external_body]
pub(crate) fn string_push(s: &mut String, c: char)
    ensures
        final(s)@ == old(s)@.push(c),
{
    s.push(c)
}

/// The characters of `v`, joined into a `String`.
pub(crate) fn chars_to_string(v: &Vec<char>) -> (s: String)
    ensures
        s@ == v@,
{
    let mut s = String::new();
    let mut i: usize = 0;
    while i < v.len()
        invariant
            i <= v@.len(),
            s@ == v@.take(i as int),
        decreases v@.len() - i,
    {
        string_push(&mut s, v[i]);
        i = i + 1;
        proof {
            assert(s@ =~= v@.take(i as int));
        }
    }
    proof {
        assert(s@ =~= v@);
    }
    s
}

/// Consume the maximal run of characters satisfying `p` and return it.
///
/// The first character that fails `p` is not consumed: it stays available to
/// the caller.
pub fn consume_run(cur: &mut Cursor, p: CharPred) -> (v: Vec<char>)
    requires
        old(cur).wf(),
    ensures
        final(cur).wf(),
        v@ == take_while(p, old(cur).remaining()),
        final(cur).remaining() == old(cur).remaining().skip(v@.len() as int),
{
    let mut out: Vec<char> = Vec::new();
    loop
        invariant
            cur.wf(),
            cur.remaining() == old(cur).remaining().skip(out@.len() as int),
            out@.len() <= old(cur).remaining().len(),
            take_while(p, old(cur).remaining()) == out@ + take_while(p, cur.remaining()),
        ensures
            cur.wf(),
            cur.remaining() == old(cur).remaining().skip(out@.len() as int),
            take_while(p, old(cur).remaining()) == out@,
        decreases cur.remaining().len(),
    {
        proof {
            assert(out@ + take_while(p, cur.remaining()) == take_while(
                p,
                old(cur).remaining(),
            ));
        }
        let next = cur.peek();
        match next {
            Option::None => {
                proof {
                    assert(take_while(p, cur.remaining()) =~= Seq::<char>::empty());
                    assert(take_while(p, old(cur).remaining()) =~= out@);
                }
                break ;
            },
            Option::Some(c) => {
                if p.check(c) {
                    let ghost rem = cur.remaining();
                    cur.advance();
                    out.push(c);
                    proof {
                        assert(take_while(p, rem) =~= seq![rem[0]] + take_while(
                            p,
                            rem.skip(1),
                        ));
                        assert(out@ =~= out@.drop_last() + seq![c]);
                        assert(out@.drop_last() + (seq![c] + take_while(p, cur.remaining()))
                            =~= (out@.drop_last() + seq![c]) + take_while(p, cur.remaining()));
                        assert(cur.remaining() =~= old(cur).remaining().skip(
                            out@.len() as int,
                        ));
                    }
                } else {
                    proof {
                        assert(take_while(p, cur.remaining()) =~= Seq::<char>::empty());
                        assert(take_while(p, old(cur).remaining()) =~= out@);
                    }
                    break ;
                }
            },
        }
    }
    out
}

} // verus!

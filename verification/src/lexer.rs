//! The scanner: an input line, a cursor, and the current token.

use vstd::prelude::*;

verus! {

use crate::scan::find_token;
use crate::scan::lemma_scan_len_bounds;
use crate::scan::scan_len;
use crate::scan::scan_ok;
use crate::scan::scan_token;
use crate::scan::scannable;
use crate::token::LexError;
use crate::token::Token;

/// Scanner over one line of input. Each call of [`Lexer::advance`]
/// classifies the next run of characters into one token and moves the
/// cursor past it; the accessors read the kind, the matched text and
/// the position markers of the current token.
pub struct Lexer<'input> {
    text: &'input str,
    prev_end: usize,
    cur_start: usize,
    cur_end: usize,
    token: Token,
}

impl<'input> Lexer<'input> {
    /// The scanned line, as a sequence of characters.
    pub closed spec fn spec_text(self) -> Seq<char> {
        self.text@
    }

    /// End offset of the token before the current one.
    pub closed spec fn spec_prev_end(self) -> nat {
        self.prev_end as nat
    }

    /// Start offset of the current token.
    pub closed spec fn spec_cur_start(self) -> nat {
        self.cur_start as nat
    }

    /// End offset of the current token.
    pub closed spec fn spec_cur_end(self) -> nat {
        self.cur_end as nat
    }

    /// Kind of the current token.
    pub closed spec fn spec_token(self) -> Token {
        self.token
    }

    /// The cursor invariant: the position markers are ordered and stay
    /// within the line.
    pub open spec fn wf(self) -> bool {
        self.spec_prev_end() <= self.spec_cur_start() <= self.spec_cur_end()
            <= self.spec_text().len()
    }

    /// A fresh scanner over `text`: all offsets at 0 and the token at
    /// end-of-input.
    pub fn new(text: &'input str) -> (l: Lexer<'input>)
        ensures
            l.wf(),
            l.spec_text() == text@,
            l.spec_prev_end() == 0,
            l.spec_cur_start() == 0,
            l.spec_cur_end() == 0,
            l.spec_token() == Token::EOF,
    {
        Lexer { text, prev_end: 0, cur_start: 0, cur_end: 0, token: Token::EOF }
    }

    /// Kind of the current token.
    pub fn peek(&self) -> (t: Token)
        ensures
            t == self.spec_token(),
    {
        self.token
    }

    /// The matched text of the current token: the span
    /// `[current start, current end)` of the line.
    pub fn content(&self) -> (s: &'input str)
        requires
            self.wf(),
        ensures
            s@ == self.spec_text().subrange(
                self.spec_cur_start() as int,
                self.spec_cur_end() as int,
            ),
    {
        self.text.substring_char(self.cur_start, self.cur_end)
    }

    /// Start offset of the current token.
    pub fn start_loc(&self) -> (n: usize)
        ensures
            n == self.spec_cur_start(),
    {
        self.cur_start
    }

    /// End offset of the token before the current one.
    pub fn previous_end_loc(&self) -> (n: usize)
        ensures
            n == self.spec_prev_end(),
    {
        self.prev_end
    }

    /// Steps the scanner: closes the previous span, classifies the
    /// remaining suffix of the line, and moves the cursor past the
    /// matched token. On success the new span begins exactly where the
    /// previous one ended; on failure the scan position is recorded in
    /// the start marker and the rest of the state is untouched.
    pub fn advance(&mut self) -> (r: Result<(), LexError>)
        requires
            old(self).wf(),
        ensures
            final(self).wf(),
            final(self).spec_text() == old(self).spec_text(),
            final(self).spec_prev_end() == old(self).spec_cur_end(),
            final(self).spec_cur_start() == old(self).spec_cur_end(),
            ({
                let rest = old(self).spec_text().skip(old(self).spec_cur_end() as int);
                if scan_ok(rest) {
                    &&& r is Ok
                    &&& final(self).spec_cur_end() == old(self).spec_cur_end() + scan_len(rest)
                    &&& final(self).spec_token() == scan_token(rest)
                } else {
                    &&& r == Err::<(), LexError>(LexError::InvalidCharacter(rest[0]))
                    &&& final(self).spec_cur_end() == old(self).spec_cur_end()
                    &&& final(self).spec_token() == old(self).spec_token()
                }
            }),
    {
        self.prev_end = self.cur_end;
        self.cur_start = self.cur_end;
        let len = self.text.unicode_len();
        let rest = self.text.substring_char(self.cur_start, len);
        match find_token(rest) {
            Ok((tok, tok_len)) => {
                self.cur_end = self.cur_start + tok_len;
                self.token = tok;
                Ok(())
            },
            Err(e) => Err(e),
        }
    }
}

/// Law: between two calls of `advance`, every accessor returns the
/// same value both times: the accessors read the scanner without
/// changing it.
pub fn accessors_idempotent(l: &Lexer) -> (r: bool)
    requires
        l.wf(),
    ensures
        r,
{
    let t1 = l.peek();
    let t2 = l.peek();
    let s1: usize = l.start_loc();
    let s2: usize = l.start_loc();
    let p1: usize = l.previous_end_loc();
    let p2: usize = l.previous_end_loc();
    let c1 = l.content();
    let c2 = l.content();
    assert(c1@ == c2@);
    t1 == t2 && s1 == s2 && p1 == p2
}

/// Law: scanning a whole line yields token spans that exactly
/// partition it. On success the spans are adjacent (each begins where
/// the one before it ended), the first begins at offset 0, the last is
/// the zero-length end-of-input span at the line's length, and each
/// span carries the token classified at its own start. The scan
/// succeeds exactly when no invalid character is reached.
pub fn tokenize(text: &str) -> (r: Result<Vec<(Token, usize, usize)>, LexError>)
    ensures
        r is Ok <==> scannable(text@),
        r is Ok ==> ({
            let sp = r->Ok_0@;
            &&& sp.len() >= 1
            &&& sp[0].1 == 0
            &&& sp.last().0 == Token::EOF
            &&& sp.last().1 == text@.len()
            &&& sp.last().2 == text@.len()
            &&& forall|i: int| 0 <= i < sp.len() ==> (#[trigger] sp[i]).1 <= sp[i].2 <= text@.len()
            &&& forall|i: int| 0 <= i < sp.len() - 1 ==> (#[trigger] sp[i]).2 == sp[i + 1].1
            &&& forall|i: int|
                0 <= i < sp.len() ==> (#[trigger] sp[i]).0 == scan_token(
                    text@.skip(sp[i].1 as int),
                )
            &&& forall|i: int|
                0 <= i < sp.len() ==> (#[trigger] sp[i]).2 - sp[i].1 == scan_len(
                    text@.skip(sp[i].1 as int),
                )
            &&& forall|i: int| 0 <= i < sp.len() - 1 ==> (#[trigger] sp[i]).0 != Token::EOF
        }),
        r is Err ==> exists|p: int|
            0 <= p < text@.len() && !scan_ok(#[trigger] text@.skip(p)) && r->Err_0
                == LexError::InvalidCharacter(text@[p]),
{
    let mut lexer = Lexer::new(text);
    let mut spans: Vec<(Token, usize, usize)> = Vec::new();
    proof {
        assert(text@.skip(0) =~= text@);
    }
    loop
        invariant
            lexer.wf(),
            lexer.spec_text() == text@,
            lexer.spec_cur_end() == if spans@.len() == 0 {
                0nat
            } else {
                spans@.last().2 as nat
            },
            scannable(text@) <==> scannable(text@.skip(lexer.spec_cur_end() as int)),
            spans@.len() > 0 ==> spans@[0].1 == 0,
            forall|i: int|
                0 <= i < spans@.len() ==> (#[trigger] spans@[i]).1 <= spans@[i].2 <= text@.len(),
            forall|i: int| 0 <= i < spans@.len() - 1 ==> (#[trigger] spans@[i]).2 == spans@[i
                + 1].1,
            forall|i: int|
                0 <= i < spans@.len() ==> (#[trigger] spans@[i]).0 == scan_token(
                    text@.skip(spans@[i].1 as int),
                ),
            forall|i: int|
                0 <= i < spans@.len() ==> (#[trigger] spans@[i]).2 - spans@[i].1 == scan_len(
                    text@.skip(spans@[i].1 as int),
                ),
            forall|i: int| 0 <= i < spans@.len() ==> (#[trigger] spans@[i]).0 != Token::EOF,
            spans@.len() > 0 ==> spans@.last().1 <= lexer.spec_cur_end(),
        decreases text@.len() - lexer.spec_cur_end(),
    {
        let ghost pos = lexer.spec_cur_end() as int;
        let ghost rest = text@.skip(pos);
        let step = lexer.advance();
        proof {
            lemma_scan_len_bounds(rest);
        }
        match step {
            Ok(()) => {},
            Err(e) => {
                proof {
                    assert(!scannable(rest));
                    assert(0 <= pos < text@.len() && !scan_ok(text@.skip(pos)));
                }
                return Err(e);
            },
        }
        let t = lexer.peek();
        spans.push((t, lexer.cur_start, lexer.cur_end));
        proof {
            assert(text@.skip(lexer.spec_cur_end() as int) =~= rest.skip(scan_len(rest) as int));
        }
        if t == Token::EOF {
            proof {
                assert(rest.len() == 0);
            }
            return Ok(spans);
        }
        proof {
            assert(rest.len() > 0);
        }
    }
}

/// Sum of the lengths of the spans of `sp`.
pub open spec fn spans_len_sum(sp: Seq<(Token, usize, usize)>) -> int
    decreases sp.len(),
{
    if sp.len() == 0 {
        0
    } else {
        spans_len_sum(sp.drop_last()) + (sp.last().2 - sp.last().1)
    }
}

/// Law: adjacent spans that begin at offset 0 cover each position at
/// most once and leave no gaps, so their lengths sum to the end of the
/// last span — for a scan of a whole line, to the line's length.
pub proof fn lemma_partition_sum(sp: Seq<(Token, usize, usize)>)
    requires
        sp.len() >= 1,
        sp[0].1 == 0,
        forall|i: int| 0 <= i < sp.len() ==> (#[trigger] sp[i]).1 <= sp[i].2,
        forall|i: int| 0 <= i < sp.len() - 1 ==> (#[trigger] sp[i]).2 == sp[i + 1].1,
    ensures
        spans_len_sum(sp) == sp.last().2,
    decreases sp.len(),
{
    if sp.len() == 1 {
        assert(spans_len_sum(sp.drop_last()) == 0);
    } else {
        lemma_partition_sum(sp.drop_last());
        assert(sp.drop_last().last() == sp[sp.len() - 2]);
        assert(sp[sp.len() - 2].2 == sp[sp.len() - 1].1);
    }
}

} // verus!

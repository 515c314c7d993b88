//! A lexical scanner for a parenthesized, Lisp-like notation.
//!
//! A [`Lexer`] borrows the input text and hands out one [`tokens::Token`]
//! per call to [`Lexer::next_token`], ending with a single
//! [`tokens::Token::EOF`]; calls after that return `None`.

use vstd::prelude::*;
use vstd::string::StrSliceExecFns;

pub mod chars;
pub mod scan;
pub mod tokens;

pub use chars::{is_operator, is_valid_ident};
pub use tokens::{LitteralKind, Token};

use scan::{lemma_ident_run_end_determined, lemma_scan_from_unfold, lemma_scan_step_advances,
    scan_from, scan_step, scanned_tokens_of};

verus! {

/// The mathematical state of a [`Lexer`]: the scanned text, the cursor
/// position (in characters), and whether the end marker was already produced.
pub struct LexerModel {
    pub input: Seq<char>,
    pub pos: int,
    pub eof: bool,
}

/// A stateful scanner over a borrowed input text.
///
/// The input is borrowed, never copied; the cursor only moves forward.
pub struct Lexer<'a> {
    input: &'a str,
    pos: usize,
    has_reached_eof: bool,
}

impl<'a> View for Lexer<'a> {
    type V = LexerModel;

    closed spec fn view(&self) -> LexerModel {
        LexerModel { input: self.input@, pos: self.pos as int, eof: self.has_reached_eof }
    }
}

impl<'a> Lexer<'a> {
    /// The cursor stays within the text, and the end marker is produced
    /// only once the whole text has been consumed.
    pub closed spec fn wf(&self) -> bool {
        &&& 0 <= self@.pos <= self@.input.len()
        &&& (self@.eof ==> self@.pos == self@.input.len())
    }

    /// Creates a scanner at the start of `input`.
    pub fn new(input: &'a str) -> (r: Self)
        ensures
            r.wf(),
            r@.input == input@,
            r@.pos == 0,
            !r@.eof,
    {
        Lexer { input: input, pos: 0, has_reached_eof: false }
    }

    /// Produces the next token, advancing the cursor past its source span.
    ///
    /// Returns `Some` of the token starting at the current position —
    /// [`Token::EOF`] once the text is exhausted — and `None` on every call
    /// after `EOF` was produced.
    pub fn next_token(&mut self) -> (r: Option<Token>)
        requires
            old(self).wf(),
        ensures
            final(self).wf(),
            final(self)@.input == old(self)@.input,
            old(self)@.eof ==> r is None && final(self)@ == old(self)@,
            !old(self)@.eof ==> ({
                let step = scan_step(old(self)@.input, old(self)@.pos);
                &&& match r {
                    Some(t) => t@ == step.token,
                    None => false,
                }
                &&& final(self)@.pos == step.end
                &&& final(self)@.eof == (old(self)@.pos == old(self)@.input.len())
            }),
    {
        if self.has_reached_eof {
            return None;
        }
        let n = self.input.unicode_len();
        if self.pos == n {
            self.has_reached_eof = true;
            return Some(Token::EOF);
        }
        let c = self.input.get_char(self.pos);
        if c == '(' {
            self.pos = self.pos + 1;
            Some(Token::OpenParen)
        } else if c == ')' {
            self.pos = self.pos + 1;
            Some(Token::CloseParen)
        } else if c.is_whitespace() {
            self.pos = self.pos + 1;
            Some(Token::Whitespace)
        } else if is_valid_ident(c) {
            let ghost s = self.input@;
            let start = self.pos;
            self.pos = self.pos + 1;
            while self.pos < n && is_valid_ident(self.input.get_char(self.pos))
                invariant
                    self.input@ == s,
                    n == s.len(),
                    0 <= start < self.pos <= n,
                    !self.has_reached_eof,
                    forall|k: int| start <= k < self.pos ==> chars::is_ident_char(s[k]),
                decreases n - self.pos,
            {
                self.pos = self.pos + 1;
            }
            proof {
                lemma_ident_run_end_determined(s, start as int, self.pos as int);
            }
            let text = self.input.substring_char(start, self.pos);
            Some(Token::Identifier(text.to_owned()))
        } else {
            self.pos = self.pos + 1;
            Some(Token::InvalidToken)
        }
    }
}

/// Scans a whole text in one call: every token the scanner produces, in
/// order, with [`Token::EOF`] as the last element.
pub fn tokenize(input: &str) -> (r: Vec<Token>)
    ensures
        r@.len() == scanned_tokens_of(input@).len(),
        forall|i: int| 0 <= i < r@.len() ==> r@[i]@ == scanned_tokens_of(input@)[i].token,
{
    let ghost s = input@;
    let ghost full = scanned_tokens_of(s);
    let mut lexer = Lexer::new(input);
    let mut out: Vec<Token> = Vec::new();
    loop
        invariant
            lexer.wf(),
            lexer@.input == s,
            full == scanned_tokens_of(s),
            !lexer@.eof ==> {
                &&& out@.len() + scan_from(s, lexer@.pos).len() == full.len()
                &&& forall|i: int|
                    0 <= i < scan_from(s, lexer@.pos).len() ==> scan_from(s, lexer@.pos)[i]
                        == full[out@.len() + i]
            },
            lexer@.eof ==> out@.len() == full.len(),
            forall|i: int| 0 <= i < out@.len() ==> out@[i]@ == full[i].token,
        ensures
            out@.len() == full.len(),
            forall|i: int| 0 <= i < out@.len() ==> out@[i]@ == full[i].token,
        decreases (if lexer@.eof { 0int } else { s.len() - lexer@.pos + 1 }),
    {
        let ghost p0 = lexer@.pos;
        let ghost was_eof = lexer@.eof;
        let t = lexer.next_token();
        proof {
            if !was_eof {
                lemma_scan_from_unfold(s, p0);
                if p0 < s.len() {
                    lemma_scan_step_advances(s, p0);
                    assert(forall|i: int|
                        0 <= i < scan_from(s, scan_step(s, p0).end).len() ==> scan_from(
                            s,
                            scan_step(s, p0).end,
                        )[i] == scan_from(s, p0)[i + 1]);
                }
            }
        }
        match t {
            Some(tok) => out.push(tok),
            None => break,
        }
    }
    out
}

} // verus!

//! The scanner: turns a source text into its sequence of tokens, keeping count
//! of the lines, and stops at the first text that is no token.

use crate::lerror::{Diagnostic, LoxError};
use crate::lexical::{
    comparison, lemma_scan_from_ends, lemma_scan_well_formed, lemma_step_well_formed, punctuation,
    scan_from, step_at, Lexeme, Scan,
};
use crate::text::{
    chars_of, digit, lemma_newlines_bound, letter, newlines, push_char, run_len, skip_run, text_of,
    CharClass,
};
use crate::token::{lookup_keyword, token_views, Token, TokenType, TokenView};
use vstd::prelude::*;

verus! {

/// A scanner over one source text.
pub struct Scanner {
    source: String,
    chars: Vec<char>,
    tokens: Vec<Token>,
    current: usize,
    breaks: usize,
}

/// The mathematical value of a [`Scanner`]: the source it reads, the tokens it
/// has found so far, the position of the next character it will read, and the
/// line that position lies on, counted from 1.
pub struct ScannerView {
    pub source: Seq<char>,
    pub tokens: Seq<TokenView>,
    pub current: nat,
    pub line: nat,
}

impl ScannerView {
    /// A scanner that has read nothing of `source` yet.
    pub open spec fn fresh(source: Seq<char>) -> ScannerView {
        ScannerView { source, tokens: Seq::empty(), current: 0, line: 1 }
    }

    /// Whether the state is one a scanner can be in: the position lies within
    /// the source or at its end, the line is 1 with at most one more for each
    /// character passed, and each token held carries text of its kind and
    /// lies on a line from 1 to the current one.
    pub open spec fn valid(self) -> bool {
        &&& self.current <= self.source.len()
        &&& 1 <= self.line <= self.current + 1
        &&& forall|i: int|
            0 <= i < self.tokens.len() ==> {
                &&& (#[trigger] self.tokens[i]).kind.well_formed()
                &&& 1 <= self.tokens[i].line <= self.line
            }
    }

    /// What is found from the current position on.
    pub open spec fn outcome(self) -> Scan {
        scan_from(self.source, self.current, self.line)
    }

    /// The scanner after it has scanned from its current position up to the
    /// first error, or else to the end: the tokens found are added to those
    /// it had, and it rests where the scan stopped.
    pub open spec fn scanned(self) -> ScannerView {
        let found = self.outcome();
        ScannerView {
            source: self.source,
            tokens: self.tokens + found.tokens,
            current: found.stop,
            line: found.line,
        }
    }
}

/// A scan leaves the scanner in a state it can be in: at the end of the
/// source unless an error stopped it, and with each line feed it passed
/// counted as one line.
pub proof fn lemma_scanned_valid(v: ScannerView)
    requires
        v.valid(),
    ensures
        v.scanned().valid(),
        v.current <= v.scanned().current,
        v.outcome().error is None ==> v.scanned().current == v.source.len(),
        v.scanned().line == v.line + newlines(
            v.source.subrange(v.current as int, v.scanned().current as int),
        ),
{
    lemma_scan_from_ends(v.source, v.current, v.line);
    lemma_scan_well_formed(v.source, v.current, v.line);
    lemma_newlines_bound(v.source.subrange(v.current as int, v.scanned().current as int));
}

/// Scanning again changes nothing: a scan that met no error leaves a scanner
/// that a second scan leaves as it is, without an error.
pub proof fn lemma_scanned_twice(v: ScannerView)
    requires
        v.valid(),
        v.outcome().error is None,
    ensures
        v.scanned().scanned() == v.scanned(),
        v.scanned().outcome().error is None,
{
    lemma_scan_from_ends(v.source, v.current, v.line);
    assert(v.scanned().tokens + Seq::<TokenView>::empty() =~= v.scanned().tokens);
}

/// Scanning is repeatable: what a scanner finds depends on the source, the
/// position and the line alone, so two fresh scanners over one source find
/// the same tokens and meet the same error.
pub proof fn lemma_scan_repeatable(a: ScannerView, b: ScannerView)
    requires
        a.source == b.source,
        a.current == b.current,
        a.line == b.line,
    ensures
        a.outcome() == b.outcome(),
        a.tokens == b.tokens ==> a.scanned() == b.scanned(),
{
}

/// The token of the one character `c`, if it is one by itself.
fn punctuation_type(c: char) -> (r: Option<TokenType>)
    ensures
        r is Some == punctuation(c) is Some,
        r matches Some(t) ==> Some(t@) == punctuation(c),
{
    if c == '(' {
        Some(TokenType::LParen)
    } else if c == ')' {
        Some(TokenType::RParen)
    } else if c == '{' {
        Some(TokenType::LBrace)
    } else if c == '}' {
        Some(TokenType::RBrace)
    } else if c == ',' {
        Some(TokenType::Comma)
    } else if c == '.' {
        Some(TokenType::Dot)
    } else if c == ';' {
        Some(TokenType::Semicolon)
    } else if c == '-' {
        Some(TokenType::Minus)
    } else if c == '+' {
        Some(TokenType::Plus)
    } else if c == '*' {
        Some(TokenType::Star)
    } else {
        None
    }
}

/// The operator that begins with `c`, which is `!`, `=`, `<` or `>`: the one
/// with `=` when `with_equal` is set, the one of `c` alone when it is not.
fn comparison_type(c: char, with_equal: bool) -> (r: Option<TokenType>)
    ensures
        r is Some == comparison(c) is Some,
        r matches Some(t) ==> t@ == if with_equal {
            comparison(c)->0.with_equal
        } else {
            comparison(c)->0.alone
        },
{
    if c == '!' {
        Some(if with_equal { TokenType::BangEqual } else { TokenType::Bang })
    } else if c == '=' {
        Some(if with_equal { TokenType::EqualEqual } else { TokenType::Equal })
    } else if c == '<' {
        Some(if with_equal { TokenType::LessEqual } else { TokenType::Less })
    } else if c == '>' {
        Some(if with_equal { TokenType::GreaterEqual } else { TokenType::Greater })
    } else {
        None
    }
}

impl Scanner {
    #[verifier::type_invariant]
    spec fn inv(self) -> bool {
        &&& self.chars@ == self.source@
        &&& self.state().valid()
    }

    /// The state of the scanner.
    pub closed spec fn state(&self) -> ScannerView {
        ScannerView {
            source: self.chars@,
            tokens: token_views(self.tokens@),
            current: self.current as nat,
            line: (self.breaks + 1) as nat,
        }
    }

    /// A scanner that is about to read `src` from its first character, on
    /// line 1, and has found no token yet.
    pub fn new(src: String) -> (s: Scanner)
        ensures
            s@ == ScannerView::fresh(src@),
            s@.valid(),
    {
        let chars = chars_of(src.as_str());
        let s = Scanner { source: src, chars, tokens: Vec::new(), current: 0, breaks: 0 };
        assert(token_views(s.tokens@) =~= Seq::empty());
        s
    }

    fn at_end(&self) -> (r: bool)
        ensures
            r == (self.current >= self.chars.len()),
    {
        self.current >= self.chars.len()
    }

    /// Scans from the current position until the source is exhausted or a
    /// piece of text is no token. The tokens found are added to those already
    /// held. The first error ends the scan and is returned; the tokens found
    /// before it are kept.
    ///
    /// A scan without an error ends at the end of the source. Whether it ends
    /// there or at an error, it has counted one line for each line feed it
    /// passed.
    pub fn scan_tokens(&mut self) -> (r: Result<(), LoxError>)
        ensures
            final(self)@ == old(self)@.scanned(),
            match old(self)@.outcome().error {
                None => r is Ok,
                Some(diagnostic) => r matches Err(e) && e@ == diagnostic,
            },
            final(self)@.valid(),
            old(self)@.current <= final(self)@.current,
            r is Ok ==> final(self)@.current == final(self)@.source.len(),
            final(self)@.line == old(self)@.line + newlines(
                old(self)@.source.subrange(
                    old(self)@.current as int,
                    final(self)@.current as int,
                ),
            ),
    {
        proof {
            use_type_invariant(&*self);
            lemma_scanned_valid(self@);
        }
        let ghost total = self@.outcome();
        while !self.at_end()
            invariant
                self.inv(),
                old(self)@.valid(),
                self@.source == old(self)@.source,
                self@.tokens + self@.outcome().tokens == old(self)@.tokens + total.tokens,
                self@.outcome().error == total.error,
                self@.outcome().stop == total.stop,
                self@.outcome().line == total.line,
                total == old(self)@.outcome(),
            decreases self.chars.len() - self.current,
        {
            let ghost before = self@;
            match self.scan_token() {
                Err(e) => {
                    proof {
                        use_type_invariant(&*self);
                        lemma_scanned_valid(old(self)@);
                    }
                    return Err(e);
                },
                Ok(()) => {
                    proof {
                        use_type_invariant(&*self);
                        let step = step_at(before.source, before.current as int);
                        if step.found is Token {
                            let rest = self@.outcome();
                            assert(before.tokens + (seq![self@.tokens.last()] + rest.tokens)
                                =~= self@.tokens + rest.tokens);
                        }
                    }
                },
            }
        }
        Ok(())
    }

    /// The number of tokens found so far.
    pub fn len(&self) -> (n: usize)
        ensures
            n == self@.tokens.len(),
    {
        self.tokens.len()
    }

    /// The token at index `at` of those found so far.
    pub fn token_at(&self, at: usize) -> (t: &Token)
        requires
            at < self@.tokens.len(),
        ensures
            t@ == self@.tokens[at as int],
    {
        &self.tokens[at]
    }

    /// The line of the current position, counted from 1.
    fn line(&self) -> (n: usize)
        requires
            self.breaks < self.current,
        ensures
            n == self.breaks + 1,
    {
        self.breaks + 1
    }

    /// Scans the one token, blank or error that begins at the current
    /// position.
    fn scan_token(&mut self) -> (r: Result<(), LoxError>)
        requires
            old(self)@.current < old(self)@.source.len(),
        ensures
            ({
                let step = step_at(old(self)@.source, old(self)@.current as int);
                let line = old(self)@.line + step.breaks;
                &&& final(self)@.source == old(self)@.source
                &&& final(self)@.current == old(self)@.current + 1 + step.extra
                &&& final(self)@.line == line
                &&& match step.found {
                    Lexeme::Blank => r is Ok && final(self)@.tokens == old(self)@.tokens,
                    Lexeme::Token(kind) => r is Ok && final(self)@.tokens == old(self)@.tokens.push(
                        TokenView { line, kind },
                    ),
                    Lexeme::Error(message) => final(self)@.tokens == old(self)@.tokens && (
                    r matches Err(e) && e@ == Diagnostic { message, line }),
                }
            }),
    {
        proof {
            use_type_invariant(&*self);
            lemma_step_well_formed(self@.source, self@.current);
        }
        let a: char = self.advance();
        if a == ' ' || a == '\t' || a == '\r' {
            Ok(())
        } else if a == '\n' {
            self.breaks += 1;
            Ok(())
        } else if let Some(t) = punctuation_type(a) {
            self.add_token(Token::new(self.line(), t));
            Ok(())
        } else if comparison_type(a, false).is_some() {
            let matches: bool = self.matches_expected('=');
            match comparison_type(a, matches) {
                Some(t) => {
                    self.add_token(Token::new(self.line(), t));
                },
                None => {},
            }
            Ok(())
        } else if a == '/' {
            if self.matches_expected('/') {
                self.skip(CharClass::NotNewline);
            } else {
                self.add_token(Token::new(self.line(), TokenType::Slash));
            }
            Ok(())
        } else if a == '"' {
            let start: usize = self.current;
            while !self.at_end() && self.curr_char() != '"'
                invariant
                    self.inv(),
                    self.chars == old(self).chars,
                    self.source == old(self).source,
                    self.tokens == old(self).tokens,
                    start == old(self).current + 1,
                    start <= self.current <= self.chars.len(),
                    run_len(self.chars@, start as int, CharClass::NotQuote) == (self.current
                        - start) + run_len(self.chars@, self.current as int, CharClass::NotQuote),
                    self.breaks == old(self).breaks + newlines(
                        self.chars@.subrange(start as int, self.current as int),
                    ),
                    self.breaks < self.current,
                decreases self.chars.len() - self.current,
            {
                let c: char = self.advance();
                if c == '\n' {
                    self.breaks += 1;
                }
                proof {
                    assert(self.chars@.subrange(start as int, self.current as int).drop_last()
                        =~= self.chars@.subrange(start as int, self.current - 1));
                }
            }
            if self.at_end() {
                return Err(
                    LoxError { msg: String::from_str("Unclosed string"), line_no: self.line() },
                );
            }
            let s: String = text_of(&self.chars, start, self.current);
            self.advance();
            self.add_token(Token::new(self.line(), TokenType::String(s)));
            Ok(())
        } else if digit(a) {
            let start: usize = self.current;
            self.skip(CharClass::Digit);
            if self.curr_char() == '.' && digit(self.next_char()) {
                self.advance();
                self.skip(CharClass::Digit);
            }
            let lexeme: String = text_of(&self.chars, start - 1, self.current);
            self.add_token(Token::new(self.line(), TokenType::Number(lexeme)));
            Ok(())
        } else if letter(a) || a == '_' {
            let start: usize = self.current;
            self.skip(CharClass::Alphanumeric);
            match lookup_keyword(&self.chars, start - 1, self.current) {
                Some(t) => {
                    self.add_token(Token::new(self.line(), t));
                },
                None => {
                    let lexeme: String = text_of(&self.chars, start - 1, self.current);
                    self.add_token(Token::new(self.line(), TokenType::Identifier(lexeme)));
                },
            }
            Ok(())
        } else {
            let mut err_msg: String = String::from_str("Unrecognized character '");
            push_char(&mut err_msg, a);
            push_char(&mut err_msg, '\'');
            Err(LoxError { msg: err_msg, line_no: self.line() })
        }
    }

    /// Passes the character at the current position and returns it.
    fn advance(&mut self) -> (prev: char)
        requires
            old(self).current < old(self).chars.len(),
        ensures
            prev == old(self).chars@[old(self).current as int],
            final(self).current == old(self).current + 1,
            final(self).chars == old(self).chars,
            final(self).source == old(self).source,
            final(self).tokens == old(self).tokens,
            final(self).breaks == old(self).breaks,
    {
        proof {
            use_type_invariant(&*self);
        }
        let prev: char = self.curr_char();
        self.current += 1;
        prev
    }

    /// Passes the longest run of characters of `class` that begins at the
    /// current position.
    fn skip(&mut self, class: CharClass)
        ensures
            final(self).current == old(self).current + run_len(
                old(self).chars@,
                old(self).current as int,
                class,
            ),
            old(self).current <= final(self).current <= old(self).chars.len(),
            final(self).chars == old(self).chars,
            final(self).source == old(self).source,
            final(self).tokens == old(self).tokens,
            final(self).breaks == old(self).breaks,
    {
        proof {
            use_type_invariant(&*self);
        }
        self.current = skip_run(&self.chars, self.current, class);
    }

    /// Adds `t` to the tokens found.
    fn add_token(&mut self, t: Token)
        requires
            t@.kind.well_formed(),
            t.line_no == old(self).breaks + 1,
        ensures
            final(self).tokens@ == old(self).tokens@.push(t),
            final(self)@.tokens == old(self)@.tokens.push(t@),
            final(self).current == old(self).current,
            final(self).chars == old(self).chars,
            final(self).source == old(self).source,
            final(self).breaks == old(self).breaks,
    {
        proof {
            use_type_invariant(&*self);
        }
        let mut tokens: Vec<Token> = Vec::new();
        std::mem::swap(&mut tokens, &mut self.tokens);
        tokens.push(t);
        assert(token_views(tokens@) =~= token_views(old(self).tokens@).push(t@));
        self.tokens = tokens;
    }

    /// The character at the current position, or NUL at the end of the source.
    fn curr_char(&self) -> (c: char)
        ensures
            c == if self.current < self.chars.len() {
                self.chars@[self.current as int]
            } else {
                '\0'
            },
    {
        if self.at_end() {
            return '\0';
        }
        self.chars[self.current]
    }

    /// The source text.
    pub fn print_source(&self) -> (s: String)
        ensures
            s@ == self@.source,
    {
        proof {
            use_type_invariant(self);
        }
        self.source.clone()
    }

    /// The tokens found so far, in order, each an independent copy.
    pub fn print_tokens(&self) -> (v: Vec<Token>)
        ensures
            token_views(v@) == self@.tokens,
    {
        let mut v: Vec<Token> = Vec::new();
        let mut i: usize = 0;
        while i < self.tokens.len()
            invariant
                0 <= i <= self.tokens.len(),
                v@ == self.tokens@.take(i as int),
            decreases self.tokens.len() - i,
        {
            v.push(self.tokens[i].clone());
            i += 1;
        }
        assert(v@ =~= self.tokens@);
        v
    }

    /// Passes the character at the current position if it is `expected`, and
    /// says whether it did.
    fn matches_expected(&mut self, expected: char) -> (r: bool)
        ensures
            r == (old(self).current < old(self).chars.len() && old(self).chars@[old(
                self,
            ).current as int] == expected),
            final(self).current == if r {
                old(self).current + 1
            } else {
                old(self).current as int
            },
            final(self).chars == old(self).chars,
            final(self).source == old(self).source,
            final(self).tokens == old(self).tokens,
            final(self).breaks == old(self).breaks,
    {
        proof {
            use_type_invariant(&*self);
        }
        if self.at_end() {
            return false;
        }
        if self.curr_char() != expected {
            return false;
        }
        self.current += 1;
        true
    }

    /// The character after the one at the current position, or NUL when there
    /// is none.
    fn next_char(&self) -> (c: char)
        ensures
            c == if self.current + 1 < self.chars.len() {
                self.chars@[self.current + 1]
            } else {
                '\0'
            },
    {
        if self.current >= self.chars.len() || self.current + 1 >= self.chars.len() {
            return '\0';
        }
        self.chars[self.current + 1]
    }
}

impl View for Scanner {
    type V = ScannerView;

    open spec fn view(&self) -> ScannerView {
        self.state()
    }
}

} // verus!

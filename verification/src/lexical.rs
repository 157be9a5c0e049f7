//! The lexical structure of the language: what token, if any, begins at a
//! position of the source, and the token sequence of a whole source text.

use crate::decimal::is_numeral;
use crate::lerror::Diagnostic;
use crate::text::{
    is_digit, lemma_newlines_concat, lemma_newlines_none, lemma_run_len_bound,
    lemma_run_len_exact, lemma_run_len_maximal, lemma_run_len_subrange, newlines, run_len, starts_word, CharClass,
};
use crate::token::{keyword, word_kind, TokenKind, TokenView};
use vstd::prelude::*;

verus! {

/// What the scanner finds at a position of the source.
pub enum Lexeme {
    /// White space or a comment: nothing to report.
    Blank,
    /// A token of the given kind.
    Token(TokenKind),
    /// Text that is no token, with the message that says why.
    Error(Seq<char>),
}

/// One step of the scanner: what it finds at a position, how many characters
/// it consumes beyond the first, and how many line feeds are among those it
/// consumes.
pub struct Step {
    pub found: Lexeme,
    pub extra: nat,
    pub breaks: nat,
}

/// The message for a string literal that the source ends in the middle of.
pub open spec fn unclosed_string() -> Seq<char> {
    "Unclosed string"@
}

/// The message for a character `c` that begins no token.
pub open spec fn unrecognized_character(c: char) -> Seq<char> {
    "Unrecognized character '"@.push(c).push('\'')
}

/// The token that the one character `c` is by itself, if it is one.
pub open spec fn punctuation(c: char) -> Option<TokenKind> {
    if c == '(' {
        Some(TokenKind::LParen)
    } else if c == ')' {
        Some(TokenKind::RParen)
    } else if c == '{' {
        Some(TokenKind::LBrace)
    } else if c == '}' {
        Some(TokenKind::RBrace)
    } else if c == ',' {
        Some(TokenKind::Comma)
    } else if c == '.' {
        Some(TokenKind::Dot)
    } else if c == ';' {
        Some(TokenKind::Semicolon)
    } else if c == '-' {
        Some(TokenKind::Minus)
    } else if c == '+' {
        Some(TokenKind::Plus)
    } else if c == '*' {
        Some(TokenKind::Star)
    } else {
        None
    }
}

/// The two operators that begin with one character: the one it is alone, and
/// the one it is when `=` follows it.
pub struct OperatorPair {
    pub alone: TokenKind,
    pub with_equal: TokenKind,
}

/// The operators that begin with `c`, if `c` is `!`, `=`, `<` or `>`.
pub open spec fn comparison(c: char) -> Option<OperatorPair> {
    if c == '!' {
        Some(OperatorPair { alone: TokenKind::Bang, with_equal: TokenKind::BangEqual })
    } else if c == '=' {
        Some(OperatorPair { alone: TokenKind::Equal, with_equal: TokenKind::EqualEqual })
    } else if c == '<' {
        Some(OperatorPair { alone: TokenKind::Less, with_equal: TokenKind::LessEqual })
    } else if c == '>' {
        Some(OperatorPair { alone: TokenKind::Greater, with_equal: TokenKind::GreaterEqual })
    } else {
        None
    }
}

/// The number of characters, beyond its first digit, of the number literal
/// that begins at `pos`: the rest of the longest run of digits, and then, if a
/// decimal point and at least one digit follow, the point and the longest run
/// of digits after it.
pub open spec fn number_extra(s: Seq<char>, pos: int) -> nat {
    let whole = run_len(s, pos + 1, CharClass::Digit);
    let point = pos + 1 + whole;
    if point + 1 < s.len() && s[point] == '.' && is_digit(s[point + 1]) {
        whole + 1 + run_len(s, point + 1, CharClass::Digit)
    } else {
        whole
    }
}

/// What the scanner finds at position `pos` of the source `s`, by the first
/// character there:
/// - a space, a tab or a carriage return is skipped, and so is a line feed,
///   which counts as a line break;
/// - a punctuation character is a token by itself;
/// - `!`, `=`, `<` and `>` make one token with a `=` that follows at once;
/// - `//` begins a comment that runs up to, and not including, the next line
///   feed, while a `/` before anything else is a token by itself;
/// - `"` begins a string literal that runs to the next `"`, line feeds
///   included and counted, and is an error if there is no next `"`;
/// - a digit begins a number literal;
/// - a letter or `_` begins a word, which runs as far as letters and digits
///   follow, and is a reserved word or else an identifier;
/// - any other character is an error.
pub open spec fn step_at(s: Seq<char>, pos: int) -> Step
    recommends
        0 <= pos < s.len(),
{
    let c = s[pos];
    if c == ' ' || c == '\t' || c == '\r' {
        Step { found: Lexeme::Blank, extra: 0, breaks: 0 }
    } else if c == '\n' {
        Step { found: Lexeme::Blank, extra: 0, breaks: 1 }
    } else if punctuation(c) is Some {
        Step { found: Lexeme::Token(punctuation(c)->0), extra: 0, breaks: 0 }
    } else if comparison(c) is Some {
        if pos + 1 < s.len() && s[pos + 1] == '=' {
            Step { found: Lexeme::Token(comparison(c)->0.with_equal), extra: 1, breaks: 0 }
        } else {
            Step { found: Lexeme::Token(comparison(c)->0.alone), extra: 0, breaks: 0 }
        }
    } else if c == '/' {
        if pos + 1 < s.len() && s[pos + 1] == '/' {
            Step {
                found: Lexeme::Blank,
                extra: 1 + run_len(s, pos + 2, CharClass::NotNewline),
                breaks: 0,
            }
        } else {
            Step { found: Lexeme::Token(TokenKind::Slash), extra: 0, breaks: 0 }
        }
    } else if c == '"' {
        let inside = run_len(s, pos + 1, CharClass::NotQuote);
        let contents = s.subrange(pos + 1, pos + 1 + inside);
        if pos + 1 + inside < s.len() {
            Step {
                found: Lexeme::Token(TokenKind::String(contents)),
                extra: inside + 1,
                breaks: newlines(contents),
            }
        } else {
            Step {
                found: Lexeme::Error(unclosed_string()),
                extra: inside,
                breaks: newlines(contents),
            }
        }
    } else if is_digit(c) {
        let extra = number_extra(s, pos);
        Step {
            found: Lexeme::Token(TokenKind::Number(s.subrange(pos, pos + 1 + extra))),
            extra,
            breaks: 0,
        }
    } else if starts_word(c) {
        let extra = run_len(s, pos + 1, CharClass::Alphanumeric);
        Step {
            found: Lexeme::Token(word_kind(s.subrange(pos, pos + 1 + extra))),
            extra,
            breaks: 0,
        }
    } else {
        Step { found: Lexeme::Error(unrecognized_character(c)), extra: 0, breaks: 0 }
    }
}

/// The outcome of scanning: the tokens found, in order; the error that
/// stopped the scan, if one did; and the position and the line at which the
/// scan stopped.
pub struct Scan {
    pub tokens: Seq<TokenView>,
    pub error: Option<Diagnostic>,
    pub stop: nat,
    pub line: nat,
}

/// How many characters of a text of `len` characters are left at position
/// `pos`: none when `pos` is at or past the end.
pub open spec fn remaining(len: nat, pos: nat) -> nat {
    if pos < len {
        (len - pos) as nat
    } else {
        0
    }
}

/// The outcome of scanning the source `s` from position `pos`, which lies on
/// line `line`, up to the first error or else to the end. A token, and an
/// error, carries the line on which its last character lies.
pub open spec fn scan_from(s: Seq<char>, pos: nat, line: nat) -> Scan
    decreases remaining(s.len(), pos),
{
    if pos >= s.len() {
        Scan { tokens: Seq::empty(), error: None, stop: pos, line }
    } else {
        let step = step_at(s, pos as int);
        let next = pos + 1 + step.extra;
        let line_after = line + step.breaks;
        match step.found {
            Lexeme::Blank => scan_from(s, next, line_after),
            Lexeme::Token(kind) => {
                let rest = scan_from(s, next, line_after);
                Scan {
                    tokens: seq![TokenView { line: line_after, kind }] + rest.tokens,
                    error: rest.error,
                    stop: rest.stop,
                    line: rest.line,
                }
            },
            Lexeme::Error(message) => Scan {
                tokens: Seq::empty(),
                error: Some(Diagnostic { message, line: line_after }),
                stop: next,
                line: line_after,
            },
        }
    }
}

/// The outcome of scanning the whole of the source `s`, from its first
/// character on line 1.
pub open spec fn scan(s: Seq<char>) -> Scan {
    scan_from(s, 0, 1)
}

/// A step stays within the source.
pub proof fn lemma_step_within(s: Seq<char>, pos: nat)
    requires
        pos < s.len(),
    ensures
        pos + 1 + step_at(s, pos as int).extra <= s.len(),
{
    let p = pos as int;
    let c = s[p];
    lemma_run_len_bound(s, p + 1, CharClass::NotQuote);
    lemma_run_len_bound(s, p + 1, CharClass::Digit);
    lemma_run_len_bound(s, p + 1, CharClass::Alphanumeric);
    if c == '/' && p + 1 < s.len() && s[p + 1] == '/' {
        lemma_run_len_bound(s, p + 2, CharClass::NotNewline);
    }
    let point = p + 1 + run_len(s, p + 1, CharClass::Digit);
    if point + 1 < s.len() {
        lemma_run_len_bound(s, point + 1, CharClass::Digit);
    }
}

/// The line breaks of a step are the line feeds among the characters it
/// consumes.
pub proof fn lemma_step_breaks(s: Seq<char>, pos: nat)
    requires
        pos < s.len(),
    ensures
        step_at(s, pos as int).breaks == newlines(
            s.subrange(pos as int, pos as int + 1 + step_at(s, pos as int).extra),
        ),
{
    let p = pos as int;
    let c = s[p];
    lemma_step_within(s, pos);
    let step = step_at(s, p);
    let next = p + 1 + step.extra;
    let taken = s.subrange(p, next);
    if c == '\n' {
        assert(taken.drop_last() =~= Seq::<char>::empty());
        assert(newlines(Seq::<char>::empty()) == 0);
    } else if c == '"' {
        let inside = run_len(s, p + 1, CharClass::NotQuote);
        let contents = s.subrange(p + 1, p + 1 + inside);
        let quote = seq!['"'];
        lemma_newlines_none(quote);
        lemma_newlines_concat(quote, contents);
        if p + 1 + inside < s.len() {
            lemma_run_len_maximal(s, p + 1, CharClass::NotQuote);
            lemma_newlines_concat(quote + contents, quote);
            assert(taken =~= quote + contents + quote);
        } else {
            assert(taken =~= quote + contents);
        }
    } else {
        if c == '/' && p + 1 < s.len() && s[p + 1] == '/' {
            lemma_run_len_maximal(s, p + 2, CharClass::NotNewline);
        } else if is_digit(c) {
            lemma_run_len_maximal(s, p + 1, CharClass::Digit);
            let point = p + 1 + run_len(s, p + 1, CharClass::Digit);
            if point + 1 < s.len() {
                lemma_run_len_maximal(s, point + 1, CharClass::Digit);
            }
        } else if starts_word(c) {
            lemma_run_len_maximal(s, p + 1, CharClass::Alphanumeric);
        }
        assert forall|i: int| 0 <= i < taken.len() implies taken[i] != '\n' by {
            assert(taken[i] == s[p + i]);
        }
        lemma_newlines_none(taken);
    }
}

/// Where a scan ends. A scan that begins within the source stops within it,
/// at the end unless an error stopped it. The line it stops on is the line it
/// began on and one more for each line feed it passed. And each token it
/// finds lies on a line between the two.
pub proof fn lemma_scan_from_ends(s: Seq<char>, pos: nat, line: nat)
    requires
        pos <= s.len(),
    ensures
        pos <= scan_from(s, pos, line).stop <= s.len(),
        scan_from(s, pos, line).error is None ==> scan_from(s, pos, line).stop == s.len(),
        scan_from(s, pos, line).line == line + newlines(
            s.subrange(pos as int, scan_from(s, pos, line).stop as int),
        ),
        forall|i: int|
            0 <= i < scan_from(s, pos, line).tokens.len() ==> line <= (#[trigger] scan_from(
                s,
                pos,
                line,
            ).tokens[i]).line <= scan_from(s, pos, line).line,
    decreases s.len() - pos,
{
    let out = scan_from(s, pos, line);
    if pos < s.len() {
        let step = step_at(s, pos as int);
        let next = pos + 1 + step.extra;
        lemma_step_within(s, pos);
        lemma_step_breaks(s, pos);
        if !(step.found is Error) {
            lemma_scan_from_ends(s, next, line + step.breaks);
            let rest = scan_from(s, next, line + step.breaks);
            lemma_newlines_concat(
                s.subrange(pos as int, next as int),
                s.subrange(next as int, rest.stop as int),
            );
            assert(s.subrange(pos as int, rest.stop as int) =~= s.subrange(pos as int, next as int)
                + s.subrange(next as int, rest.stop as int));
            if step.found is Token {
                assert forall|i: int| 0 <= i < out.tokens.len() implies line <= (
                #[trigger] out.tokens[i]).line <= out.line by {
                    if i > 0 {
                        assert(out.tokens[i] == rest.tokens[i - 1]);
                    }
                }
            }
        }
    } else {
        assert(s.subrange(pos as int, pos as int) =~= Seq::<char>::empty());
    }
}

/// Whether `name` is a name: a letter or `_`, then letters and digits alone,
/// and no reserved word.
pub open spec fn is_name(name: Seq<char>) -> bool {
    &&& name.len() >= 1
    &&& starts_word(name[0])
    &&& 1 + run_len(name, 1, CharClass::Alphanumeric) == name.len()
    &&& keyword(name) is None
}

impl TokenKind {
    /// Whether the text the kind carries is text of its kind: the name of an
    /// identifier is a name, the digits of a number are a numeral, and the
    /// contents of a string hold no double quote.
    pub open spec fn well_formed(self) -> bool {
        match self {
            TokenKind::Identifier(name) => is_name(name),
            TokenKind::Number(digits) => is_numeral(digits),
            TokenKind::String(contents) => run_len(contents, 0, CharClass::NotQuote)
                == contents.len(),
            _ => true,
        }
    }
}

/// The token of a step carries text of its kind.
pub proof fn lemma_step_well_formed(s: Seq<char>, pos: nat)
    requires
        pos < s.len(),
    ensures
        step_at(s, pos as int).found matches Lexeme::Token(kind) ==> kind.well_formed(),
{
    let p = pos as int;
    let c = s[p];
    lemma_step_within(s, pos);
    let step = step_at(s, p);
    let end = p + 1 + step.extra;
    if c == '"' {
        let inside = run_len(s, p + 1, CharClass::NotQuote);
        if p + 1 + inside < s.len() {
            lemma_run_len_subrange(s, p + 1, p + 1 + inside, 0, CharClass::NotQuote);
        }
    } else if is_digit(c) {
        let digits = s.subrange(p, end);
        let whole = run_len(s, p + 1, CharClass::Digit) as int;
        let point = p + 1 + whole;
        lemma_run_len_bound(s, p + 1, CharClass::Digit);
        lemma_run_len_maximal(s, p + 1, CharClass::Digit);
        lemma_run_len_subrange(s, p, end, 1, CharClass::Digit);
        assert(digits[0] == c);
        assert(run_len(digits, 0, CharClass::Digit) == 1 + run_len(digits, 1, CharClass::Digit));
        if point + 1 < s.len() && s[point] == '.' && is_digit(s[point + 1]) {
            lemma_run_len_subrange(s, p, end, whole + 2, CharClass::Digit);
            assert(digits[whole + 1] == s[point]);
        }
    } else if starts_word(c) {
        let word = s.subrange(p, end);
        lemma_run_len_subrange(s, p, end, 1, CharClass::Alphanumeric);
        assert(word[0] == c);
    }
}

/// Every token that a scan finds carries text of its kind.
pub proof fn lemma_scan_well_formed(s: Seq<char>, pos: nat, line: nat)
    ensures
        forall|i: int|
            0 <= i < scan_from(s, pos, line).tokens.len() ==> (#[trigger] scan_from(
                s,
                pos,
                line,
            ).tokens[i]).kind.well_formed(),
    decreases remaining(s.len(), pos),
{
    let out = scan_from(s, pos, line);
    if pos < s.len() {
        let step = step_at(s, pos as int);
        let next = pos + 1 + step.extra;
        lemma_step_well_formed(s, pos);
        if !(step.found is Error) {
            lemma_scan_well_formed(s, next, line + step.breaks);
            let rest = scan_from(s, next, line + step.breaks);
            if step.found is Token {
                assert forall|i: int| 0 <= i < out.tokens.len() implies (
                #[trigger] out.tokens[i]).kind.well_formed() by {
                    if i > 0 {
                        assert(out.tokens[i] == rest.tokens[i - 1]);
                    }
                }
            }
        }
    }
}

/// A string literal comes back as it went in. The source made of a double
/// quote, any `contents` without a double quote, and a double quote holds one
/// token, the string of those contents, on the line the literal closes on;
/// and that token is written as the source was.
pub proof fn lemma_string_round_trip(contents: Seq<char>)
    requires
        forall|i: int| 0 <= i < contents.len() ==> contents[i] != '"',
    ensures
        ({
            let source = seq!['"'] + contents + seq!['"'];
            let kind = TokenKind::String(contents);
            &&& scan(source).error is None
            &&& scan(source).tokens == seq![TokenView { line: 1 + newlines(contents), kind }]
            &&& kind.spelling() == source
        }),
{
    let source = seq!['"'] + contents + seq!['"'];
    let inside = contents.len();
    assert forall|i: int| 1 <= i < 1 + inside implies CharClass::NotQuote.holds(
        #[trigger] source[i],
    ) by {
        assert(source[i] == contents[i - 1]);
    }
    lemma_run_len_exact(source, 1, inside, CharClass::NotQuote);
    assert(source.subrange(1, 1 + inside as int) =~= contents);
    let step = step_at(source, 0);
    assert(step.found == Lexeme::Token(TokenKind::String(contents)));
    assert(step.extra == inside + 1);
    let rest = scan_from(source, (1 + step.extra) as nat, 1 + step.breaks);
    assert(rest.tokens =~= Seq::empty());
    assert(scan(source).tokens =~= seq![
        TokenView { line: 1 + newlines(contents), kind: TokenKind::String(contents) },
    ]);
    reveal_strlit("\"");
    assert("\""@ =~= seq!['"']);
}

/// A string literal that is not closed is an error. The source made of a
/// double quote and any `contents` without a double quote holds no token and
/// is reported as an unclosed string, on the line on which the source ends:
/// the first, where the contents hold no line feed.
pub proof fn lemma_unclosed_string(contents: Seq<char>)
    requires
        forall|i: int| 0 <= i < contents.len() ==> contents[i] != '"',
    ensures
        scan(seq!['"'] + contents) == (Scan {
            tokens: Seq::empty(),
            error: Some(
                Diagnostic { message: unclosed_string(), line: 1 + newlines(contents) },
            ),
            stop: 1 + contents.len(),
            line: 1 + newlines(contents),
        }),
{
    let source = seq!['"'] + contents;
    let inside = contents.len();
    assert forall|i: int| 1 <= i < 1 + inside implies CharClass::NotQuote.holds(
        #[trigger] source[i],
    ) by {
        assert(source[i] == contents[i - 1]);
    }
    lemma_run_len_exact(source, 1, inside, CharClass::NotQuote);
    assert(source.subrange(1, 1 + inside as int) =~= contents);
}

/// Whether some token, white space or a comment may begin with `c`.
pub open spec fn begins_lexeme(c: char) -> bool {
    ||| c == ' ' || c == '\t' || c == '\r' || c == '\n'
    ||| punctuation(c) is Some
    ||| comparison(c) is Some
    ||| c == '/'
    ||| c == '"'
    ||| is_digit(c)
    ||| starts_word(c)
}

/// A character that begins nothing is an error that names it. Where such a
/// character `c` stands at position `pos`, the scan from there on line `line`
/// finds no token, reports `c` as unrecognized on that line, and stops behind
/// it.
pub proof fn lemma_unrecognized_character(s: Seq<char>, pos: nat, line: nat)
    requires
        pos < s.len(),
        !begins_lexeme(s[pos as int]),
    ensures
        scan_from(s, pos, line) == (Scan {
            tokens: Seq::empty(),
            error: Some(
                Diagnostic { message: unrecognized_character(s[pos as int]), line },
            ),
            stop: pos + 1,
            line,
        }),
        unrecognized_character(s[pos as int]).contains(s[pos as int]),
{
    let message = unrecognized_character(s[pos as int]);
    assert(message[message.len() - 2] == s[pos as int]);
}

/// The empty source holds no token and no error.
pub proof fn lemma_scan_empty()
    ensures
        scan(Seq::empty()) == (Scan { tokens: Seq::empty(), error: None, stop: 0, line: 1 }),
{
}

} // verus!

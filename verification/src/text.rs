//! Characters and runs of characters: the classes the scanner sorts characters
//! into, the length of a run drawn from one class, and the conversions between
//! `String` and a vector of characters.

use vstd::prelude::*;

verus! {

/// The ten ASCII decimal digits.
pub open spec fn is_digit(c: char) -> bool {
    '0' <= c <= '9'
}

/// The ASCII letters, upper and lower case.
pub open spec fn is_letter(c: char) -> bool {
    ('a' <= c <= 'z') || ('A' <= c <= 'Z')
}

/// The ASCII letters and digits. The underscore is not among them.
pub open spec fn is_alphanumeric(c: char) -> bool {
    is_letter(c) || is_digit(c)
}

/// The characters an identifier or keyword may begin with: a letter or `_`.
pub open spec fn starts_word(c: char) -> bool {
    is_letter(c) || c == '_'
}

/// A class of characters from which a run of the source is drawn.
#[derive(Clone, Copy, Debug, PartialEq, Eq)]
pub enum CharClass {
    /// An ASCII decimal digit.
    Digit,
    /// An ASCII letter or digit.
    Alphanumeric,
    /// Anything but a line feed.
    NotNewline,
    /// Anything but a double quote.
    NotQuote,
    /// Anything but a full stop.
    NotPoint,
    /// The digit zero.
    Zero,
}

impl CharClass {
    /// Whether `c` belongs to the class.
    pub open spec fn holds(self, c: char) -> bool {
        match self {
            CharClass::Digit => is_digit(c),
            CharClass::Alphanumeric => is_alphanumeric(c),
            CharClass::NotNewline => c != '\n',
            CharClass::NotQuote => c != '"',
            CharClass::NotPoint => c != '.',
            CharClass::Zero => c == '0',
        }
    }

    /// Decides whether `c` belongs to the class.
    pub fn contains(&self, c: char) -> (r: bool)
        ensures
            r == self.holds(c),
    {
        match self {
            CharClass::Digit => digit(c),
            CharClass::Alphanumeric => alphanumeric(c),
            CharClass::NotNewline => c != '\n',
            CharClass::NotQuote => c != '"',
            CharClass::NotPoint => c != '.',
            CharClass::Zero => c == '0',
        }
    }
}

/// Decides whether `c` is an ASCII decimal digit.
pub fn digit(c: char) -> (r: bool)
    ensures
        r == is_digit(c),
{
    '0' <= c && c <= '9'
}

/// Decides whether `c` is an ASCII letter.
pub fn letter(c: char) -> (r: bool)
    ensures
        r == is_letter(c),
{
    ('a' <= c && c <= 'z') || ('A' <= c && c <= 'Z')
}

/// Decides whether `c` is an ASCII letter or digit.
pub fn alphanumeric(c: char) -> (r: bool)
    ensures
        r == is_alphanumeric(c),
{
    letter(c) || digit(c)
}

/// The length of the longest run of characters of `class` that starts at
/// `from`. It is zero when `from` is not a position of `s`.
pub open spec fn run_len(s: Seq<char>, from: int, class: CharClass) -> nat
    decreases s.len() - from,
{
    if 0 <= from < s.len() && class.holds(s[from]) {
        1 + run_len(s, from + 1, class)
    } else {
        0
    }
}

/// The number of line feeds in `s`.
pub open spec fn newlines(s: Seq<char>) -> nat
    decreases s.len(),
{
    if s.len() == 0 {
        0
    } else {
        newlines(s.drop_last()) + if s.last() == '\n' {
            1nat
        } else {
            0nat
        }
    }
}

/// A run never leaves the sequence.
pub proof fn lemma_run_len_bound(s: Seq<char>, from: int, class: CharClass)
    requires
        0 <= from <= s.len(),
    ensures
        from + run_len(s, from, class) <= s.len(),
    decreases s.len() - from,
{
    if from < s.len() && class.holds(s[from]) {
        lemma_run_len_bound(s, from + 1, class);
    }
}

/// A run is the longest of its kind: every character in it belongs to the
/// class, and the character after it, if there is one, does not.
pub proof fn lemma_run_len_maximal(s: Seq<char>, from: int, class: CharClass)
    requires
        0 <= from <= s.len(),
    ensures
        forall|i: int| from <= i < from + run_len(s, from, class) ==> class.holds(#[trigger] s[i]),
        from + run_len(s, from, class) < s.len() ==> !class.holds(
            s[from + run_len(s, from, class)],
        ),
    decreases s.len() - from,
{
    if from < s.len() && class.holds(s[from]) {
        lemma_run_len_maximal(s, from + 1, class);
    }
}

/// A stretch of characters of the class that ends at the end of the sequence
/// or before a character outside the class is a run.
pub proof fn lemma_run_len_exact(s: Seq<char>, from: int, n: nat, class: CharClass)
    requires
        0 <= from,
        from + n <= s.len(),
        forall|i: int| from <= i < from + n ==> class.holds(#[trigger] s[i]),
        from + n < s.len() ==> !class.holds(s[from + n]),
    ensures
        run_len(s, from, class) == n,
    decreases n,
{
    if n > 0 {
        lemma_run_len_exact(s, from + 1, (n - 1) as nat, class);
    }
}

/// A run within a part of a sequence is the run within the whole, cut off at
/// the end of the part.
pub proof fn lemma_run_len_subrange(s: Seq<char>, a: int, b: int, from: int, class: CharClass)
    requires
        0 <= a <= a + from <= b <= s.len(),
    ensures
        run_len(s.subrange(a, b), from, class) == if a + from + run_len(s, a + from, class) <= b {
            run_len(s, a + from, class)
        } else {
            (b - a - from) as nat
        },
    decreases b - a - from,
{
    let part = s.subrange(a, b);
    if a + from < b {
        assert(part[from] == s[a + from]);
        if class.holds(s[a + from]) {
            lemma_run_len_subrange(s, a, b, from + 1, class);
        }
    }
}

/// There are no more line feeds in a sequence than characters.
pub proof fn lemma_newlines_bound(s: Seq<char>)
    ensures
        newlines(s) <= s.len(),
    decreases s.len(),
{
    if s.len() > 0 {
        lemma_newlines_bound(s.drop_last());
    }
}

/// The line feeds of two sequences joined are those of the one and those of
/// the other.
pub proof fn lemma_newlines_concat(a: Seq<char>, b: Seq<char>)
    ensures
        newlines(a + b) == newlines(a) + newlines(b),
    decreases b.len(),
{
    if b.len() == 0 {
        assert(a + b =~= a);
    } else {
        assert((a + b).drop_last() =~= a + b.drop_last());
        lemma_newlines_concat(a, b.drop_last());
    }
}

/// A sequence without a line feed has none to count.
pub proof fn lemma_newlines_none(s: Seq<char>)
    requires
        forall|i: int| 0 <= i < s.len() ==> s[i] != '\n',
    ensures
        newlines(s) == 0,
    decreases s.len(),
{
    if s.len() > 0 {
        lemma_newlines_none(s.drop_last());
    }
}

/// Skips the longest run of characters of `class` that starts at `from`, and
/// returns the position after it.
pub(crate) fn skip_run(chars: &Vec<char>, from: usize, class: CharClass) -> (end: usize)
    requires
        from <= chars.len(),
    ensures
        end == from + run_len(chars@, from as int, class),
        from <= end <= chars.len(),
{
    let mut i: usize = from;
    while i < chars.len() && class.contains(chars[i])
        invariant
            from <= i <= chars.len(),
            run_len(chars@, from as int, class) == (i - from) + run_len(chars@, i as int, class),
        decreases chars.len() - i,
    {
        i += 1;
    }
    i
}

/// The characters of `s`, in order.
pub fn chars_of(s: &str) -> (v: Vec<char>)
    ensures
        v@ == s@,
{
    let mut v: Vec<char> = Vec::new();
    for c in it: s.chars()
        invariant
            v@ == it.seq().take(it.index() as int),
            it.seq() == s@,
    {
        v.push(c);
    }
    v
}

/// `String::push` of the standard library: appends the one character `c` to the
/// end of `s` and leaves what `s` held before in place.
#[verifier::external_body]
pub(crate) fn push_char(s: &mut String, c: char)
    ensures
        final(s)@ == old(s)@.push(c),
{
    s.push(c);
}

/// Appends `chars[from..to]` to `s`.
pub(crate) fn append_chars(s: &mut String, chars: &Vec<char>, from: usize, to: usize)
    requires
        from <= to <= chars.len(),
    ensures
        final(s)@ == old(s)@ + chars@.subrange(from as int, to as int),
{
    let mut i: usize = from;
    while i < to
        invariant
            from <= i <= to <= chars.len(),
            s@ == old(s)@ + chars@.subrange(from as int, i as int),
        decreases to - i,
    {
        push_char(s, chars[i]);
        i += 1;
    }
}

/// The string made of `chars[from..to]`.
pub(crate) fn text_of(chars: &Vec<char>, from: usize, to: usize) -> (s: String)
    requires
        from <= to <= chars.len(),
    ensures
        s@ == chars@.subrange(from as int, to as int),
{
    let mut s = String::new();
    append_chars(&mut s, chars, from, to);
    s
}

/// Decides whether `chars[from..to]` spells `word`.
pub(crate) fn spells(chars: &Vec<char>, from: usize, to: usize, word: &str) -> (r: bool)
    requires
        from <= to <= chars.len(),
    ensures
        r == (chars@.subrange(from as int, to as int) == word@),
{
    let n: usize = word.unicode_len();
    if to - from != n {
        return false;
    }
    let mut i: usize = 0;
    while i < n
        invariant
            from <= to <= chars.len(),
            to - from == n,
            n == word@.len(),
            0 <= i <= n,
            forall|j: int| 0 <= j < i ==> chars@[from + j] == word@[j],
        decreases n - i,
    {
        if chars[from + i] != word.get_char(i) {
            assert(chars@.subrange(from as int, to as int)[i as int] != word@[i as int]);
            return false;
        }
        i += 1;
    }
    assert(chars@.subrange(from as int, to as int) =~= word@);
    true
}

} // verus!

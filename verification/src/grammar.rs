//! The lexical rules, stated over texts as sequences of characters.
//!
//! [`scan`] says what stands at the head of a text: how much whitespace to
//! pass, and then one token or one malformed unit, with the number of
//! characters each takes. The scanner is proved against it.

use crate::token::{operator, punctuation, word_kind, TokenKind};
use vstd::prelude::*;

verus! {

/// Whether `c` is a decimal digit, `0` to `9`.
pub open spec fn is_digit(c: char) -> bool {
    '0' <= c <= '9'
}

/// Whether `c` can start a word: an ASCII letter or `_`.
pub open spec fn is_word_start(c: char) -> bool {
    'a' <= c <= 'z' || 'A' <= c <= 'Z' || c == '_'
}

/// Whether `c` can continue a word: an ASCII letter, a digit or `_`.
pub open spec fn is_word_char(c: char) -> bool {
    is_word_start(c) || is_digit(c)
}

/// Whether `c` is whitespace: one of the characters that Unicode lists as
/// `White_Space`.
pub open spec fn is_whitespace(c: char) -> bool {
    ||| '\u{9}' <= c <= '\u{d}'
    ||| c == ' '
    ||| c == '\u{85}'
    ||| c == '\u{a0}'
    ||| c == '\u{1680}'
    ||| '\u{2000}' <= c <= '\u{200a}'
    ||| c == '\u{2028}'
    ||| c == '\u{2029}'
    ||| c == '\u{202f}'
    ||| c == '\u{205f}'
    ||| c == '\u{3000}'
}

/// A class of characters of which the scanner takes runs.
#[derive(Debug, Clone, Copy, PartialEq, Eq, Structural)]
pub enum CharClass {
    /// Whitespace, which separates tokens.
    Whitespace,
    /// The decimal digits.
    Digit,
    /// The characters of identifiers and keywords.
    Word,
}

impl CharClass {
    /// Whether `c` belongs to the class.
    pub open spec fn contains(self, c: char) -> bool {
        match self {
            CharClass::Whitespace => is_whitespace(c),
            CharClass::Digit => is_digit(c),
            CharClass::Word => is_word_char(c),
        }
    }

    /// Whether `c` belongs to the class.
    pub fn has(&self, c: char) -> (found: bool)
        ensures
            found == self.contains(c),
    {
        match self {
            CharClass::Whitespace => match c {
                '\u{9}'..='\u{d}' | ' ' | '\u{85}' | '\u{a0}' | '\u{1680}' | '\u{2000}'..='\u{200a}'
                | '\u{2028}' | '\u{2029}' | '\u{202f}' | '\u{205f}' | '\u{3000}' => true,
                _ => false,
            },
            CharClass::Digit => match c {
                '0'..='9' => true,
                _ => false,
            },
            CharClass::Word => match c {
                'a'..='z' | 'A'..='Z' | '0'..='9' | '_' => true,
                _ => false,
            },
        }
    }
}

/// The length of the longest prefix of `s` whose characters all belong to
/// `class`.
pub open spec fn run_len(s: Seq<char>, class: CharClass) -> nat
    decreases s.len(),
{
    if s.len() > 0 && class.contains(s[0]) {
        1 + run_len(s.drop_first(), class)
    } else {
        0
    }
}

/// The length of the numeric literal at the head of `s`, which starts with a
/// digit.
///
/// The literal is the digits at the head and, where a `.` follows them, the
/// `.` and the digits after it. A `.` that neither a digit nor another `.`
/// follows is left out: it is a token of its own. A second `.` always ends
/// the literal.
pub open spec fn number_len(s: Seq<char>) -> nat {
    let whole = run_len(s, CharClass::Digit) as int;
    let fraction = run_len(s.skip(whole + 1), CharClass::Digit) as int;
    let end = whole + 1 + fraction;
    if !(whole < s.len() && s[whole] == '.') {
        whole as nat
    } else if fraction == 0 && !(end < s.len() && s[end] == '.') {
        whole as nat
    } else {
        end as nat
    }
}

/// The index of the quote that closes a string literal, looking from index
/// `from` of `s` on. A backslash takes the character after it along, so that
/// an escaped quote does not close the literal.
pub open spec fn closing_quote(s: Seq<char>, from: int) -> Option<int>
    decreases s.len() - from,
{
    if from < 0 || from >= s.len() {
        None
    } else if s[from] == '"' {
        Some(from)
    } else if s[from] == '\\' {
        if from + 1 < s.len() {
            closing_quote(s, from + 2)
        } else {
            None
        }
    } else {
        closing_quote(s, from + 1)
    }
}

/// What stands at the head of a text.
pub enum Lexed {
    /// A token of `kind`, whose lexeme is the first `len` characters. The
    /// scanner goes on after `used` characters.
    Token { kind: TokenKind, len: nat, used: nat },
    /// A character that starts no token. The scanner goes on after it.
    Unexpected { token: char },
    /// A string literal that nothing closes. It takes the rest of the text.
    Unterminated,
}

/// What stands at the head of `s`, a text that is not empty and does not
/// start with whitespace.
pub open spec fn lex(s: Seq<char>) -> Lexed {
    let c = s[0];
    if let Some(kind) = punctuation(c) {
        Lexed::Token { kind, len: 1, used: 1 }
    } else if let Some(kinds) = operator(c) {
        let gap = run_len(s.skip(1), CharClass::Whitespace);
        if 1 + gap < s.len() && s[1 + gap as int] == '=' {
            Lexed::Token { kind: kinds.with_equal, len: gap + 2, used: gap + 2 }
        } else {
            Lexed::Token { kind: kinds.alone, len: 1, used: gap + 1 }
        }
    } else if c == '"' {
        match closing_quote(s, 1) {
            Some(close) => Lexed::Token {
                kind: TokenKind::String,
                len: (close + 1) as nat,
                used: (close + 1) as nat,
            },
            None => Lexed::Unterminated,
        }
    } else if is_digit(c) {
        Lexed::Token { kind: TokenKind::Number, len: number_len(s), used: number_len(s) }
    } else if is_word_start(c) {
        let len = run_len(s, CharClass::Word);
        Lexed::Token { kind: word_kind(s.take(len as int)), len, used: len }
    } else {
        Lexed::Unexpected { token: c }
    }
}

/// The number of characters that `lexed`, found at the head of `s`, takes.
pub open spec fn taken(s: Seq<char>, lexed: Lexed) -> nat {
    match lexed {
        Lexed::Token { used, .. } => used,
        Lexed::Unexpected { .. } => 1,
        Lexed::Unterminated => s.len(),
    }
}

/// One step of the scanner on the text `s`: the number of whitespace
/// characters to pass, and what stands after them; `None` where only
/// whitespace is left.
pub open spec fn scan(s: Seq<char>) -> Option<(nat, Lexed)> {
    let skipped = run_len(s, CharClass::Whitespace);
    if skipped == s.len() {
        None
    } else {
        Some((skipped, lex(s.skip(skipped as int))))
    }
}

/// The units of `source` from character `pos` on, in their order: each with
/// the index of its first character.
pub open spec fn units(source: Seq<char>, pos: int) -> Seq<(int, Lexed)>
    decreases source.len() - pos,
    via units_decreases
{
    if pos < 0 || pos > source.len() {
        Seq::empty()
    } else {
        match scan(source.skip(pos)) {
            None => Seq::empty(),
            Some((skipped, lexed)) => {
                let start = pos + skipped;
                seq![(start, lexed)] + units(source, start + taken(source.skip(start), lexed))
            },
        }
    }
}

#[via_fn]
proof fn units_decreases(source: Seq<char>, pos: int) {
    if 0 <= pos <= source.len() {
        lemma_scan_advances(source.skip(pos));
    }
}

/// A run is a prefix, its characters belong to the class, and the character
/// after it does not.
pub proof fn lemma_run_len(s: Seq<char>, class: CharClass)
    ensures
        run_len(s, class) <= s.len(),
        forall|i: int| 0 <= i < run_len(s, class) ==> class.contains(#[trigger] s[i]),
        run_len(s, class) < s.len() ==> !class.contains(s[run_len(s, class) as int]),
    decreases s.len(),
{
    if s.len() > 0 && class.contains(s[0]) {
        let tail = s.drop_first();
        lemma_run_len(tail, class);
        assert forall|i: int| 0 <= i < run_len(s, class) implies class.contains(#[trigger] s[i]) by {
            if i > 0 {
                assert(s[i] == tail[i - 1]);
            }
        }
    }
}

/// A prefix whose characters belong to the class, and which the text or a
/// character outside the class ends, is the run.
pub proof fn lemma_run_len_is(s: Seq<char>, class: CharClass, n: int)
    requires
        0 <= n <= s.len(),
        forall|i: int| 0 <= i < n ==> class.contains(#[trigger] s[i]),
        n < s.len() ==> !class.contains(s[n]),
    ensures
        run_len(s, class) == n,
    decreases n,
{
    if n > 0 {
        let tail = s.drop_first();
        assert forall|i: int| 0 <= i < n - 1 implies class.contains(#[trigger] tail[i]) by {
            assert(tail[i] == s[i + 1]);
        }
        lemma_run_len_is(tail, class, n - 1);
    }
}

/// The quote that closes a string literal is a quote, and stands at or after
/// the index from which it was looked for.
pub proof fn lemma_closing_quote(s: Seq<char>, from: int)
    requires
        0 <= from,
    ensures
        closing_quote(s, from) matches Some(close) ==> from <= close < s.len() && s[close] == '"',
    decreases s.len() - from,
{
    if from < s.len() && s[from] != '"' {
        if s[from] == '\\' {
            if from + 1 < s.len() {
                lemma_closing_quote(s, from + 2);
            }
        } else {
            lemma_closing_quote(s, from + 1);
        }
    }
}

/// A numeric literal holds its first digit and lies within the text.
pub proof fn lemma_number_len(s: Seq<char>)
    requires
        s.len() > 0,
        is_digit(s[0]),
    ensures
        1 <= number_len(s) <= s.len(),
{
    let whole = run_len(s, CharClass::Digit) as int;
    lemma_run_len(s, CharClass::Digit);
    lemma_run_len(s.skip(whole + 1), CharClass::Digit);
}

/// Every step of the scanner makes progress: a unit starts inside the text,
/// takes at least one character and no more than are left, and a lexeme is
/// not empty.
pub proof fn lemma_scan_advances(s: Seq<char>)
    ensures
        scan(s) matches Some((skipped, lexed)) ==> {
            &&& skipped < s.len()
            &&& 1 <= taken(s.skip(skipped as int), lexed) <= s.len() - skipped
            &&& lexed matches Lexed::Token { len, used, .. } ==> 1 <= len <= used
        },
{
    lemma_run_len(s, CharClass::Whitespace);
    if let Some((skipped, lexed)) = scan(s) {
        let t = s.skip(skipped as int);
        lemma_run_len(t.skip(1), CharClass::Whitespace);
        lemma_closing_quote(t, 1);
        if is_digit(t[0]) {
            lemma_number_len(t);
        }
        lemma_run_len(t, CharClass::Word);
    }
}

} // verus!

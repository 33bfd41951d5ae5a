//! The literal values of tokens, and how a token is displayed.
//!
//! A token is displayed as its kind, its lexeme and its literal value, with
//! one space between them. The literal value is `null` but for strings and
//! numbers. That of a string is its text without the quotes around it and
//! with the escape sequences replaced.

use crate::text::{
    first_char, lemma_char_width, lemma_encode_injective, lemma_last_byte, lemma_utf8_len_single,
    len_utf8,
    split_after,
};
use crate::token::{kind_name, Token, TokenKind, TokenView};
use std::borrow::Cow;
use vstd::prelude::*;
use vstd::string::*;
use vstd::utf8::*;

verus! {

/// The character that a backslash and `c` stand for, where they form an
/// escape sequence.
pub open spec fn escape_value(c: char) -> Option<char> {
    if c == 'n' {
        Some('\n')
    } else if c == 't' {
        Some('\t')
    } else if c == 'r' {
        Some('\r')
    } else if c == '0' {
        Some('\0')
    } else if c == '\\' {
        Some('\\')
    } else if c == '"' {
        Some('"')
    } else {
        None
    }
}

/// The text `s` with its escape sequences replaced by what they stand for.
/// A backslash before any other character stays, with that character, as it
/// is; so does a backslash at the end.
pub open spec fn decoded(s: Seq<char>) -> Seq<char>
    decreases s.len(),
{
    if s.len() == 0 {
        s
    } else if s[0] == '\\' && s.len() >= 2 {
        match escape_value(s[1]) {
            Some(value) => seq![value] + decoded(s.skip(2)),
            None => seq![s[0], s[1]] + decoded(s.skip(2)),
        }
    } else {
        seq![s[0]] + decoded(s.skip(1))
    }
}

/// The text between the quotes of `s`; `s` itself where it does not stand
/// between two quotes.
pub open spec fn unquoted(s: Seq<char>) -> Seq<char> {
    if s.len() >= 2 && s.first() == '"' && s.last() == '"' {
        s.subrange(1, s.len() - 1)
    } else {
        s
    }
}

/// The value of the string literal `s`: the text between its quotes, with the
/// escape sequences replaced.
pub open spec fn unescaped(s: Seq<char>) -> Seq<char> {
    decoded(unquoted(s))
}

/// The literal value that is displayed for a token of `kind` with the lexeme
/// `lexeme`; `number` is the text that stands for the value of a number.
pub open spec fn literal(kind: TokenKind, lexeme: Seq<char>, number: Seq<char>) -> Seq<char> {
    match kind {
        TokenKind::String => unescaped(lexeme),
        TokenKind::Number => number,
        _ => "null"@,
    }
}

/// The line that is displayed for `token`: kind, lexeme and literal value.
pub open spec fn displayed(token: TokenView, number: Seq<char>) -> Seq<char> {
    kind_name(token.kind) + " "@ + token.lexeme + " "@ + literal(token.kind, token.lexeme, number)
}

/// A text without a backslash holds no escape sequence.
pub proof fn lemma_decoded_plain(s: Seq<char>)
    requires
        !s.contains('\\'),
    ensures
        decoded(s) == s,
    decreases s.len(),
{
    if s.len() > 0 {
        let tail = s.skip(1);
        assert forall|c: char| tail.contains(c) implies s.contains(c) by {
            let i = choose|i: int| 0 <= i < tail.len() && tail[i] == c;
            assert(s[i + 1] == c);
        }
        lemma_decoded_plain(tail);
    }
}

/// The text between the quotes of `s`.
fn unquote<'a>(s: &'a str) -> (body: &'a str)
    ensures
        body@ == unquoted(s@),
{
    match first_char(s) {
        Some('"') => {},
        _ => {
            return s;
        },
    }
    proof {
        lemma_utf8_len_single('"');
        lemma_char_width('"');
        assert(s@.take(1) =~= seq!['"']);
    }
    let tail = split_after(s, 1, Ghost(1)).1;
    let bytes = tail.as_bytes();
    let n = bytes.len();
    proof {
        if tail@.len() > 0 {
            lemma_last_byte(tail@);
        }
    }
    if n == 0 || bytes[n - 1] != 0x22 {
        return s;
    }
    proof {
        encode_utf8_valid_utf8(tail@);
        is_char_boundary_iff_not_is_continuation_byte(tail.spec_bytes(), n - 1);
    }
    let body = tail.split_at(n - 1).0;
    proof {
        char_u32_cast(tail@.last(), 0x22u32);
        char_u32_cast('"', 0x22u32);
        lemma_encode_injective(body@, tail@.drop_last());
    }
    body
}

/// Whether `s` holds a backslash.
fn has_backslash(s: &str) -> (found: bool)
    ensures
        found == s@.contains('\\'),
{
    let mut rest = s;
    let ghost mut seen: int = 0;
    loop
        invariant
            0 <= seen <= s@.len(),
            rest@ == s@.skip(seen),
            forall|i: int| 0 <= i < seen ==> s@[i] != '\\',
        decreases s@.len() - seen,
    {
        match first_char(rest) {
            None => {
                return false;
            },
            Some(c) => {
                if c == '\\' {
                    return true;
                }
                proof {
                    lemma_utf8_len_single(c);
                    assert(rest@.take(1) =~= seq![c]);
                }
                rest = split_after(rest, len_utf8(c), Ghost(1)).1;
                proof {
                    seen = seen + 1;
                }
            },
        }
    }
}

/// The text of `s` with its escape sequences replaced.
fn decode(s: &str) -> (out: String)
    ensures
        out@ == decoded(s@),
{
    let mut out = String::new();
    let mut rest = s;
    loop
        invariant
            out@ + decoded(rest@) == decoded(s@),
        decreases rest@.len(),
    {
        let c = match first_char(rest) {
            Some(c) => c,
            None => {
                return out;
            },
        };
        proof {
            lemma_utf8_len_single(c);
            assert(rest@.take(1) =~= seq![c]);
        }
        let parts = split_after(rest, len_utf8(c), Ghost(1));
        let ghost so_far = out@;
        let ghost here = rest@;
        if c == '\\' {
            match first_char(parts.1) {
                Some(escaped) => {
                    proof {
                        lemma_utf8_len_single(escaped);
                        assert(parts.1@.take(1) =~= seq![escaped]);
                        assert(here.skip(1).skip(1) =~= here.skip(2));
                        reveal_strlit("\n");
                        reveal_strlit("\t");
                        reveal_strlit("\r");
                        reveal_strlit("\0");
                        reveal_strlit("\\");
                        reveal_strlit("\"");
                    }
                    let more = split_after(parts.1, len_utf8(escaped), Ghost(1));
                    match escaped {
                        'n' => out.append("\n"),
                        't' => out.append("\t"),
                        'r' => out.append("\r"),
                        '0' => out.append("\0"),
                        '\\' => out.append("\\"),
                        '"' => out.append("\""),
                        _ => {
                            out.append(parts.0);
                            out.append(more.0);
                        },
                    }
                    rest = more.1;
                    proof {
                        match escape_value(escaped) {
                            Some(value) => {
                                assert(so_far + (seq![value] + decoded(here.skip(2))) =~= out@
                                    + decoded(rest@));
                            },
                            None => {
                                assert(so_far + (seq![here[0], here[1]] + decoded(here.skip(2)))
                                    =~= out@ + decoded(rest@));
                            },
                        }
                    }
                    continue ;
                },
                None => {},
            }
        }
        out.append(parts.0);
        rest = parts.1;
    }
}

impl<'de> Token<'de> {
    /// The value of the string literal `s`: the text between its quotes, with
    /// the escape sequences replaced. The text is borrowed from `s` where it
    /// holds no backslash.
    pub fn unescape<'a>(s: &'a str) -> (value: Cow<'a, str>)
        ensures
            value@ == unescaped(s@),
            value is Owned == unquoted(s@).contains('\\'),
    {
        let body = unquote(s);
        if has_backslash(body) {
            Cow::Owned(decode(body))
        } else {
            proof {
                lemma_decoded_plain(body@);
            }
            Cow::Borrowed(body)
        }
    }

    /// The line that displays the token: its kind, its lexeme and its literal
    /// value, with one space between them. The literal value of a number is
    /// `number`; no other kind of token looks at it.
    pub fn display(&self, number: &str) -> (line: String)
        ensures
            line@ == displayed(self@, number@),
    {
        let mut line = String::from_str(self.kind().name());
        line.append(" ");
        line.append(self.lexeme());
        line.append(" ");
        match self.kind() {
            TokenKind::String => {
                let value = Token::unescape(self.lexeme());
                match &value {
                    Cow::Borrowed(text) => line.append(text),
                    Cow::Owned(text) => line.append(text.as_str()),
                }
            },
            TokenKind::Number => line.append(number),
            _ => line.append("null"),
        }
        line
    }
}

} // verus!

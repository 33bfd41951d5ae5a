//! Laws of the scanner: what follows from the lexical rules for every text.

use crate::error::{line_of, LexError};
use crate::grammar::{
    closing_quote, is_digit, is_whitespace, is_word_char, is_word_start, lemma_run_len,
    lemma_run_len_is, lemma_scan_advances, number_len, run_len, scan, taken, units, CharClass,
    Lexed,
};
use crate::lexer::{reports, reports_all, LexerView};
use crate::literal::{lemma_decoded_plain, literal, unescaped};
use crate::text::{lemma_utf8_len_single, lemma_utf8_len_split, lemma_utf8_len_take_add, utf8_len};
use crate::token::{operator, punctuation, word_kind, Token, TokenKind};
use vstd::prelude::*;

verus! {

/// Whether `c` starts no token and is no whitespace.
pub open spec fn is_unexpected(c: char) -> bool {
    &&& punctuation(c) is None
    &&& operator(c) is None
    &&& c != '"'
    &&& !is_digit(c)
    &&& !is_word_start(c)
    &&& !is_whitespace(c)
}

/// Whether two results of the scanner say the same: tokens of one kind with
/// one lexeme, or errors of one sort with one source, one place and, for a
/// character, that character.
pub open spec fn same_report(a: Result<Token<'_>, LexError>, b: Result<Token<'_>, LexError>) -> bool {
    match (a, b) {
        (Ok(x), Ok(y)) => x@ == y@,
        (Err(LexError::SingleToken(x)), Err(LexError::SingleToken(y))) => x@ == y@,
        (Err(LexError::StringTermination(x)), Err(LexError::StringTermination(y))) => x@ == y@,
        _ => false,
    }
}

/// The offset of a scanner and the bytes that are left to it add up to the
/// length of the source.
pub proof fn law_offset_and_rest(lexer: LexerView)
    requires
        lexer.pos <= lexer.source.len(),
    ensures
        lexer.offset() + utf8_len(lexer.rest()) == utf8_len(lexer.source),
{
    lemma_utf8_len_split(lexer.source, lexer.pos as int);
}

/// The line of a place at which a character starts is one more than the
/// number of line feeds before that character.
pub proof fn law_line_counts_line_feeds(source: Seq<char>, pos: int)
    requires
        0 <= pos <= source.len(),
    ensures
        line_of(source, utf8_len(source.take(pos)) as int) == 1 + source.take(pos).filter(
            |c: char| c == '\n',
        ).len(),
    decreases pos,
{
    let is_line_feed = |c: char| c == '\n';
    if pos > 0 {
        let tail = source.drop_first();
        let first = seq![source[0]];
        law_line_counts_line_feeds(tail, pos - 1);
        assert(source.take(pos) =~= first + tail.take(pos - 1));
        lemma_utf8_len_take_add(source, 1, pos - 1);
        assert(source.take(1) =~= first);
        lemma_utf8_len_single(source[0]);
        Seq::filter_distributes_over_add(first, tail.take(pos - 1), is_line_feed);
        assert(first.filter(is_line_feed).len() == if source[0] == '\n' {
            1nat
        } else {
            0nat
        }) by {
            reveal_with_fuel(Seq::filter, 2);
        }
    }
}

/// Whitespace yields no token and no error: the units of a text from a
/// place on are those from behind the whitespace that stands at the place.
pub proof fn law_whitespace_is_passed(source: Seq<char>, pos: int, n: int)
    requires
        0 <= pos,
        0 <= n,
        pos + n <= source.len(),
        forall|i: int| pos <= i < pos + n ==> is_whitespace(#[trigger] source[i]),
    ensures
        units(source, pos) == units(source, pos + n),
    decreases n,
{
    if n > 0 {
        law_whitespace_is_passed(source, pos + 1, n - 1);
        let s = source.skip(pos);
        let t = source.skip(pos + 1);
        assert(s.drop_first() =~= t);
        lemma_scan_advances(s);
        lemma_scan_advances(t);
        match scan(t) {
            None => {},
            Some((skipped, lexed)) => {
                assert(s.skip(skipped as int + 1) =~= t.skip(skipped as int));
            },
        }
    }
}

/// In a text of punctuation only, every character is a token of its own, in
/// the order of the text, and the literal value of each is `null`.
pub proof fn law_punctuation_only(source: Seq<char>, pos: int)
    requires
        0 <= pos <= source.len(),
        forall|i: int| pos <= i < source.len() ==> punctuation(#[trigger] source[i]) is Some,
    ensures
        units(source, pos).len() == source.len() - pos,
        forall|j: int|
            #![trigger units(source, pos)[j]]
            0 <= j < source.len() - pos ==> {
                let kind = punctuation(source[pos + j])->0;
                &&& units(source, pos)[j] == (pos + j, Lexed::Token { kind, len: 1, used: 1 })
                &&& forall|lexeme: Seq<char>, number: Seq<char>|
                    #[trigger] literal(kind, lexeme, number) == "null"@
            },
    decreases source.len() - pos,
{
    if pos < source.len() {
        law_punctuation_only(source, pos + 1);
    }
}

/// An operator character, any whitespace and then `=` are one token: the
/// operator with `=`. Its lexeme reaches from the operator to the `=`, and
/// the scanner goes on behind the `=`.
pub proof fn law_operator_with_equal(s: Seq<char>, gap: int)
    requires
        0 <= gap,
        gap + 1 < s.len(),
        operator(s[0]) is Some,
        forall|i: int| 1 <= i <= gap ==> is_whitespace(#[trigger] s[i]),
        s[gap + 1] == '=',
    ensures
        scan(s) == Some(
            (
                0nat,
                Lexed::Token {
                    kind: operator(s[0])->0.with_equal,
                    len: (gap + 2) as nat,
                    used: (gap + 2) as nat,
                },
            ),
        ),
{
    lemma_run_len_is(s.skip(1), CharClass::Whitespace, gap);
    assert(s.skip(0) =~= s);
}

/// Where `=` stands directly behind an operator character, the lexeme of the
/// token is the two characters.
pub proof fn law_operator_next_to_equal(s: Seq<char>)
    requires
        2 <= s.len(),
        operator(s[0]) is Some,
        s[1] == '=',
    ensures
        scan(s) == Some(
            (0nat, Lexed::Token { kind: operator(s[0])->0.with_equal, len: 2, used: 2 }),
        ),
        s.take(2) == seq![s[0], '='],
{
    law_operator_with_equal(s, 0);
}

/// An operator character that no `=` follows, after any whitespace, is a
/// token of its own. Its lexeme is that character, and the scanner goes on
/// at the character behind the whitespace, which it has not passed.
pub proof fn law_operator_alone(s: Seq<char>, gap: int)
    requires
        0 <= gap < s.len(),
        operator(s[0]) is Some,
        forall|i: int| 1 <= i <= gap ==> is_whitespace(#[trigger] s[i]),
        gap + 1 < s.len() ==> s[gap + 1] != '=' && !is_whitespace(s[gap + 1]),
    ensures
        scan(s) == Some(
            (0nat, Lexed::Token { kind: operator(s[0])->0.alone, len: 1, used: (gap + 1) as nat }),
        ),
{
    lemma_run_len_is(s.skip(1), CharClass::Whitespace, gap);
    assert(s.skip(0) =~= s);
}

/// A word is the longest run of word characters: a keyword only where the
/// whole run spells one, and otherwise an identifier.
pub proof fn law_word_is_longest_run(s: Seq<char>, n: int)
    requires
        0 < n <= s.len(),
        is_word_start(s[0]),
        forall|i: int| 0 <= i < n ==> is_word_char(#[trigger] s[i]),
        n < s.len() ==> !is_word_char(s[n]),
    ensures
        scan(s) == Some(
            (
                0nat,
                Lexed::Token { kind: word_kind(s.take(n)), len: n as nat, used: n as nat },
            ),
        ),
{
    lemma_run_len_is(s, CharClass::Word, n);
    assert(s.skip(0) =~= s);
}

/// A character that starts no token is one error, about that character
/// alone: the scanner goes on at the character behind it.
pub proof fn law_unexpected_character(source: Seq<char>, pos: int)
    requires
        0 <= pos < source.len(),
        is_unexpected(source[pos]),
    ensures
        scan(source.skip(pos)) == Some((0nat, Lexed::Unexpected { token: source[pos] })),
        units(source, pos) == seq![(pos, Lexed::Unexpected { token: source[pos] })] + units(
            source,
            pos + 1,
        ),
{
}

/// The error about a character that starts no token covers the bytes of that
/// character, and no others.
pub proof fn law_unexpected_span(
    result: Result<Token<'_>, LexError>,
    source: Seq<char>,
    pos: int,
)
    requires
        0 <= pos < source.len(),
        reports(result, source, pos, Lexed::Unexpected { token: source[pos] }),
    ensures
        result matches Err(LexError::SingleToken(error)) && {
            &&& error@.token == source[pos]
            &&& error@.span.offset == utf8_len(source.take(pos))
            &&& error@.span.offset + error@.span.len == utf8_len(source.take(pos + 1))
        },
{
    lemma_utf8_len_take_add(source, pos, 1);
    assert(source.skip(pos).take(1) =~= seq![source[pos]]);
    lemma_utf8_len_single(source[pos]);
}

/// Scanning is a function of the text: two results for one unit of one
/// source say the same.
pub proof fn law_same_text_same_report(
    first: Result<Token<'_>, LexError>,
    second: Result<Token<'_>, LexError>,
    source: Seq<char>,
    start: int,
    lexed: Lexed,
)
    requires
        reports(first, source, start, lexed),
        reports(second, source, start, lexed),
    ensures
        same_report(first, second),
{
}

/// Scanning a text again gives the same again: two runs over one source
/// hand out as many items, and each item of the one says the same as the
/// item of the other.
pub proof fn law_rescanning(
    first: Seq<Result<Token<'_>, LexError>>,
    second: Seq<Result<Token<'_>, LexError>>,
    source: Seq<char>,
    pos: int,
)
    requires
        reports_all(first, source, pos),
        reports_all(second, source, pos),
    ensures
        first.len() == second.len(),
        forall|i: int| 0 <= i < first.len() ==> same_report(#[trigger] first[i], second[i]),
{
    assert forall|i: int| 0 <= i < first.len() implies same_report(
        #[trigger] first[i],
        second[i],
    ) by {
        let unit = units(source, pos)[i];
        law_same_text_same_report(first[i], second[i], source, unit.0, unit.1);
    }
}

/// The lexeme of a number is a decimal numeral: digits, of which there is at
/// least one, and then at most one `.` with the digits behind it.
pub proof fn law_number_is_decimal(s: Seq<char>)
    requires
        s.len() > 0,
        is_digit(s[0]),
    ensures
        scan(s) == Some(
            (0nat, Lexed::Token { kind: TokenKind::Number, len: number_len(s), used: number_len(s) }),
        ),
        ({
            let whole = run_len(s, CharClass::Digit);
            &&& 1 <= whole <= number_len(s) <= s.len()
            &&& forall|i: int| 0 <= i < whole ==> is_digit(#[trigger] s[i])
            &&& whole < number_len(s) ==> s[whole as int] == '.'
            &&& forall|i: int| whole < i < number_len(s) ==> is_digit(#[trigger] s[i])
        }),
{
    let whole = run_len(s, CharClass::Digit) as int;
    let tail = s.skip(whole + 1);
    lemma_run_len(s, CharClass::Digit);
    lemma_run_len(tail, CharClass::Digit);
    assert(s.skip(0) =~= s);
    assert forall|i: int| whole < i < number_len(s) implies is_digit(#[trigger] s[i]) by {
        assert(s[i] == tail[i - whole - 1]);
    }
}

/// A `.` behind the digits of a number, which neither a digit nor another
/// `.` follows, is not part of the number: the number is the digits, and the
/// `.` is the next token.
pub proof fn law_number_before_bare_dot(s: Seq<char>, n: int)
    requires
        0 < n < s.len(),
        forall|i: int| 0 <= i < n ==> is_digit(#[trigger] s[i]),
        s[n] == '.',
        n + 1 < s.len() ==> !is_digit(s[n + 1]) && s[n + 1] != '.',
    ensures
        scan(s) == Some(
            (0nat, Lexed::Token { kind: TokenKind::Number, len: n as nat, used: n as nat }),
        ),
        scan(s.skip(n)) == Some((0nat, Lexed::Token { kind: TokenKind::Dot, len: 1, used: 1 })),
{
    lemma_run_len_is(s, CharClass::Digit, n);
    lemma_run_len_is(s.skip(n + 1), CharClass::Digit, 0);
    assert(s.skip(0) =~= s);
}

/// A number with digits on both sides of its `.` ends before a second `.`.
pub proof fn law_number_ends_at_second_dot(s: Seq<char>, n: int, m: int)
    requires
        0 < n,
        n + 1 < m < s.len(),
        forall|i: int| 0 <= i < n ==> is_digit(#[trigger] s[i]),
        s[n] == '.',
        forall|i: int| n < i < m ==> is_digit(#[trigger] s[i]),
        s[m] == '.',
    ensures
        scan(s) == Some(
            (0nat, Lexed::Token { kind: TokenKind::Number, len: m as nat, used: m as nat }),
        ),
{
    let tail = s.skip(n + 1);
    lemma_run_len_is(s, CharClass::Digit, n);
    assert forall|i: int| 0 <= i < m - n - 1 implies is_digit(#[trigger] tail[i]) by {
        assert(tail[i] == s[i + n + 1]);
    }
    lemma_run_len_is(tail, CharClass::Digit, m - n - 1);
    assert(s.skip(0) =~= s);
}

/// The quote that closes a string literal is the first quote behind the
/// opening one, where no backslash stands between them.
proof fn lemma_first_quote_closes(s: Seq<char>, from: int, n: int)
    requires
        0 <= from <= n < s.len(),
        forall|i: int| from <= i < n ==> s[i] != '"' && s[i] != '\\',
        s[n] == '"',
    ensures
        closing_quote(s, from) == Some(n),
    decreases n - from,
{
    if from < n {
        lemma_first_quote_closes(s, from + 1, n);
    }
}

/// No quote closes a string literal where no quote is left.
proof fn lemma_no_quote_closes(s: Seq<char>, from: int)
    requires
        0 <= from,
        forall|i: int| from <= i < s.len() ==> s[i] != '"',
    ensures
        closing_quote(s, from) is None,
    decreases s.len() - from,
{
    if from < s.len() {
        if s[from] == '\\' {
            if from + 1 < s.len() {
                lemma_no_quote_closes(s, from + 2);
            }
        } else {
            lemma_no_quote_closes(s, from + 1);
        }
    }
}

/// A quote, a text without quote or backslash and a quote are one string
/// literal, and its value is that text.
pub proof fn law_plain_string(s: Seq<char>, n: int)
    requires
        0 < n < s.len(),
        s[0] == '"',
        forall|i: int| 1 <= i < n ==> s[i] != '"' && s[i] != '\\',
        s[n] == '"',
    ensures
        scan(s) == Some(
            (
                0nat,
                Lexed::Token {
                    kind: TokenKind::String,
                    len: (n + 1) as nat,
                    used: (n + 1) as nat,
                },
            ),
        ),
        unescaped(s.take(n + 1)) == s.subrange(1, n),
{
    lemma_first_quote_closes(s, 1, n);
    assert(s.skip(0) =~= s);
    let body = s.subrange(1, n);
    assert(s.take(n + 1).subrange(1, n) =~= body);
    lemma_decoded_plain(body);
}

/// A quote that no other quote follows starts a string literal that nothing
/// closes: one error, which takes what is left of the text.
pub proof fn law_unterminated_string(s: Seq<char>)
    requires
        0 < s.len(),
        s[0] == '"',
        forall|i: int| 1 <= i < s.len() ==> s[i] != '"',
    ensures
        scan(s) == Some((0nat, Lexed::Unterminated)),
        taken(s, Lexed::Unterminated) == s.len(),
{
    lemma_no_quote_closes(s, 1);
    assert(s.skip(0) =~= s);
}

} // verus!

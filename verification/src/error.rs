//! The errors that the scanner reports, with their place in the source text.

use crate::text::{
    byte_len, char_width, first_char, lemma_utf8_len_prefix_order, lemma_utf8_len_single,
    lemma_utf8_len_split, lemma_utf8_len_take_add, len_utf8, split_after, utf8_len,
};
use vstd::prelude::*;
use vstd::string::*;

verus! {

/// A range of bytes of the source text: `len` bytes from byte `offset` on.
#[derive(Debug, Clone, Copy, PartialEq, Eq, Structural)]
pub struct Span {
    pub offset: usize,
    pub len: usize,
}

/// The number of line feeds among the characters of `s` that start before
/// byte `offset` of its UTF-8 encoding.
pub open spec fn newlines_before(s: Seq<char>, offset: int) -> nat
    decreases s.len(),
{
    if s.len() == 0 || offset <= 0 {
        0
    } else {
        let here: nat = if s[0] == '\n' {
            1
        } else {
            0
        };
        here + newlines_before(s.drop_first(), offset - char_width(s[0]))
    }
}

/// The number of the line, counted from 1, that holds byte `offset` of `s`.
pub open spec fn line_of(s: Seq<char>, offset: int) -> nat {
    1 + newlines_before(s, offset)
}

/// A character that starts no token.
#[derive(Debug, PartialEq)]
pub struct SingleTokenError {
    src: String,
    token: char,
    err_span: Span,
}

/// A string literal that no quote closes before the source ends.
#[derive(Debug, PartialEq)]
pub struct StringTerminationError {
    src: String,
    err_span: Span,
}

/// An error of the scanner. Each one is about a single unit of the input, and
/// the scanner goes on behind that unit.
#[derive(Debug, PartialEq)]
pub enum LexError {
    /// A character that starts no token.
    SingleToken(SingleTokenError),
    /// A string literal without its closing quote.
    StringTermination(StringTerminationError),
}

/// The number of the line that holds byte `offset` of `src`.
fn line_at(src: &str, offset: usize) -> (line: usize)
    requires
        offset < utf8_len(src@),
    ensures
        line == line_of(src@, offset as int),
{
    let total = byte_len(src);
    let mut rest = src;
    let mut at: usize = 0;
    let mut line: usize = 1;
    let ghost mut seen: int = 0;
    while at < offset
        invariant
            0 <= seen <= src@.len(),
            rest@ == src@.skip(seen),
            at == utf8_len(src@.take(seen)),
            total == utf8_len(src@),
            offset < total,
            seen <= at,
            line <= 1 + seen,
            line + newlines_before(rest@, offset - at) == line_of(src@, offset as int),
        decreases src@.len() - seen,
    {
        proof {
            lemma_utf8_len_split(src@, seen);
        }
        match first_char(rest) {
            None => {
                return line;
            },
            Some(c) => {
                let width = len_utf8(c);
                proof {
                    lemma_utf8_len_single(c);
                    assert(rest@.take(1) =~= seq![c]);
                    lemma_utf8_len_take_add(src@, seen, 1);
                    lemma_utf8_len_prefix_order(src@, seen, seen + 1);
                }
                let parts = split_after(rest, width, Ghost(1));
                if c == '\n' {
                    line = line + 1;
                }
                rest = parts.1;
                at = at + width;
                proof {
                    seen = seen + 1;
                }
            },
        }
    }
    line
}

/// What an error about one character is in contracts.
pub struct SingleTokenErrorView {
    /// The source text that the error was found in.
    pub src: Seq<char>,
    /// The character that starts no token.
    pub token: char,
    /// The bytes of the source that the character takes.
    pub span: Span,
}

/// What an error about a string literal is in contracts.
pub struct StringTerminationErrorView {
    /// The source text that the error was found in.
    pub src: Seq<char>,
    /// The bytes of the source from the opening quote to the end.
    pub span: Span,
}

impl View for SingleTokenError {
    type V = SingleTokenErrorView;

    closed spec fn view(&self) -> SingleTokenErrorView {
        SingleTokenErrorView { src: self.src@, token: self.token, span: self.err_span }
    }
}

impl View for StringTerminationError {
    type V = StringTerminationErrorView;

    closed spec fn view(&self) -> StringTerminationErrorView {
        StringTerminationErrorView { src: self.src@, span: self.err_span }
    }
}

impl SingleTokenError {
    /// What holds of every error value: its span starts inside its source.
    #[verifier::type_invariant]
    spec fn inv(&self) -> bool {
        self.err_span.offset < utf8_len(self.src@)
    }

    /// The error for the character `token` at `span` of `src`, where the span
    /// starts inside `src`; `None` where it does not.
    pub fn new(src: String, token: char, span: Span) -> (error: Option<Self>)
        ensures
            error is Some == (span.offset < utf8_len(src@)),
            error matches Some(e) ==> e@ == (SingleTokenErrorView { src: src@, token, span }),
    {
        if span.offset < byte_len(src.as_str()) {
            Some(SingleTokenError { src, token, err_span: span })
        } else {
            None
        }
    }

    /// The error for the character `token` at `span` of `src`.
    pub(crate) fn found(src: String, token: char, span: Span) -> (error: Self)
        requires
            span.offset < utf8_len(src@),
        ensures
            error@ == (SingleTokenErrorView { src: src@, token, span }),
    {
        SingleTokenError { src, token, err_span: span }
    }

    /// The source text that the error was found in.
    pub fn src(&self) -> (src: &str)
        ensures
            src@ == self@.src,
    {
        self.src.as_str()
    }

    /// The character that starts no token.
    pub fn token(&self) -> (token: char)
        ensures
            token == self@.token,
    {
        self.token
    }

    /// The bytes of the source that the character takes.
    pub fn span(&self) -> (span: Span)
        ensures
            span == self@.span,
    {
        self.err_span
    }

    /// The number of the line, counted from 1, on which the character stands.
    pub fn line(&self) -> (line: usize)
        ensures
            line == line_of(self@.src, self@.span.offset as int),
    {
        proof {
            use_type_invariant(self);
        }
        line_at(self.src.as_str(), self.err_span.offset)
    }
}

impl StringTerminationError {
    /// What holds of every error value: its span starts inside its source.
    #[verifier::type_invariant]
    spec fn inv(&self) -> bool {
        self.err_span.offset < utf8_len(self.src@)
    }

    /// The error for the string literal that takes `span` of `src`, where the
    /// span starts inside `src`; `None` where it does not.
    pub fn new(src: String, span: Span) -> (error: Option<Self>)
        ensures
            error is Some == (span.offset < utf8_len(src@)),
            error matches Some(e) ==> e@ == (StringTerminationErrorView { src: src@, span }),
    {
        if span.offset < byte_len(src.as_str()) {
            Some(StringTerminationError { src, err_span: span })
        } else {
            None
        }
    }

    /// The error for the string literal that takes `span` of `src`.
    pub(crate) fn found(src: String, span: Span) -> (error: Self)
        requires
            span.offset < utf8_len(src@),
        ensures
            error@ == (StringTerminationErrorView { src: src@, span }),
    {
        StringTerminationError { src, err_span: span }
    }

    /// The source text that the error was found in.
    pub fn src(&self) -> (src: &str)
        ensures
            src@ == self@.src,
    {
        self.src.as_str()
    }

    /// The bytes of the source from the opening quote to the end.
    pub fn span(&self) -> (span: Span)
        ensures
            span == self@.span,
    {
        self.err_span
    }

    /// The number of the line, counted from 1, on which the literal starts.
    pub fn line(&self) -> (line: usize)
        ensures
            line == line_of(self@.src, self@.span.offset as int),
    {
        proof {
            use_type_invariant(self);
        }
        line_at(self.src.as_str(), self.err_span.offset)
    }
}

} // verus!

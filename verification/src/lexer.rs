//! The scanner: a pull-based producer of tokens and errors.

use crate::error::{LexError, SingleTokenError, Span, StringTerminationError};
use crate::grammar::{
    closing_quote, is_digit, is_word_start, lemma_run_len, lemma_run_len_is, lemma_scan_advances,
    number_len, run_len, scan, taken, units, CharClass, Lexed,
};
use crate::text::{
    byte_len, char_width, first_char, lemma_utf8_len_prefix_order, lemma_utf8_len_single,
    lemma_utf8_len_split, lemma_utf8_len_take_add, len_utf8, split_after, utf8_len,
};
use crate::token::{word_kind, Token, TokenKind, TokenView};
use vstd::prelude::*;
use vstd::string::*;

verus! {

/// What a scanner is in contracts: the source text, and the number of its
/// characters that the scanner has passed.
pub struct LexerView {
    pub source: Seq<char>,
    pub pos: nat,
}

impl LexerView {
    /// The part of the source that is still to be scanned.
    pub open spec fn rest(self) -> Seq<char> {
        self.source.skip(self.pos as int)
    }

    /// The byte offset in the source at which the scanner stands.
    pub open spec fn offset(self) -> nat {
        utf8_len(self.source.take(self.pos as int))
    }

    /// The scanner over the same source that has passed `n` characters more.
    pub open spec fn after(self, n: nat) -> LexerView {
        LexerView { source: self.source, pos: self.pos + n }
    }
}

/// Whether `result` is what the scanner hands out for `lexed`, found at
/// character `start` of `source`: the token with its lexeme, or the error with
/// a copy of the source and the bytes that the malformed unit takes.
pub open spec fn reports(
    result: Result<Token<'_>, LexError>,
    source: Seq<char>,
    start: int,
    lexed: Lexed,
) -> bool {
    match lexed {
        Lexed::Token { kind, len, .. } => {
            &&& result matches Ok(token)
            &&& token@ == (TokenView { kind, lexeme: source.subrange(start, start + len) })
        },
        Lexed::Unexpected { token } => {
            &&& result matches Err(LexError::SingleToken(error))
            &&& error@.src == source
            &&& error@.token == token
            &&& error@.span.offset == utf8_len(source.take(start))
            &&& error@.span.len == char_width(token)
        },
        Lexed::Unterminated => {
            &&& result matches Err(LexError::StringTermination(error))
            &&& error@.src == source
            &&& error@.span.offset == utf8_len(source.take(start))
            &&& error@.span.len == utf8_len(source.skip(start))
        },
    }
}

/// Whether `items` are what the scanner hands out for the text of `source`
/// from character `pos` on: one item for each of the [`units`], in their
/// order.
pub open spec fn reports_all(
    items: Seq<Result<Token<'_>, LexError>>,
    source: Seq<char>,
    pos: int,
) -> bool {
    &&& items.len() == units(source, pos).len()
    &&& forall|i: int|
        #![trigger items[i]]
        0 <= i < items.len() ==> reports(
            items[i],
            source,
            units(source, pos)[i].0,
            units(source, pos)[i].1,
        )
}

/// A scanner over a source text.
///
/// `rest` is the part of `whole` that is still to be scanned, and `byte` is
/// the offset in `whole` at which `rest` starts.
pub struct Lexer<'de> {
    whole: &'de str,
    rest: &'de str,
    byte: usize,
}

impl<'de> View for Lexer<'de> {
    type V = LexerView;

    closed spec fn view(&self) -> LexerView {
        LexerView { source: self.whole@, pos: (self.whole@.len() - self.rest@.len()) as nat }
    }
}

impl<'de> Lexer<'de> {
    /// `rest` is a suffix of `whole`, and `byte` is where it starts.
    #[verifier::type_invariant]
    spec fn inv(&self) -> bool {
        &&& self.rest@.len() <= self.whole@.len()
        &&& self.rest@ == self@.rest()
        &&& self.byte == self@.offset()
    }

    /// A scanner at the start of `input`.
    pub fn new(input: &'de str) -> (lexer: Self)
        ensures
            lexer@ == (LexerView { source: input@, pos: 0 }),
    {
        proof {
            assert(input@.skip(0) =~= input@);
        }
        Lexer { whole: input, rest: input, byte: 0 }
    }

    /// The whole source text.
    pub fn whole(&self) -> (whole: &'de str)
        ensures
            whole@ == self@.source,
    {
        self.whole
    }

    /// The part of the source that is still to be scanned.
    pub fn rest(&self) -> (rest: &'de str)
        ensures
            rest@ == self@.rest(),
            self@.pos <= self@.source.len(),
    {
        proof {
            use_type_invariant(self);
        }
        self.rest
    }

    /// The byte offset in the source at which the scanner stands.
    pub fn byte(&self) -> (byte: usize)
        ensures
            byte == self@.offset(),
            self@.pos <= self@.source.len(),
    {
        proof {
            use_type_invariant(self);
        }
        self.byte
    }

    /// The character at which the scanner stands, if any is left.
    fn peek(&self) -> (c: Option<char>)
        ensures
            self@.pos <= self@.source.len(),
            c == if self@.pos < self@.source.len() {
                Some(self@.source[self@.pos as int])
            } else {
                None::<char>
            },
    {
        proof {
            use_type_invariant(self);
        }
        first_char(self.rest)
    }

    /// Passes the character `c`, at which the scanner stands.
    fn step(&mut self, c: char)
        requires
            old(self)@.pos < old(self)@.source.len(),
            c == old(self)@.source[old(self)@.pos as int],
        ensures
            final(self)@ == old(self)@.after(1),
    {
        proof {
            use_type_invariant(&*self);
        }
        // The offset stays within the source, whose length fits in a `usize`.
        let end = byte_len(self.whole);
        let width = len_utf8(c);
        proof {
            let source = self.whole@;
            let pos = source.len() - self.rest@.len();
            lemma_utf8_len_single(c);
            assert(self.rest@.take(1) =~= seq![c]);
            assert(source.skip(pos).skip(1) =~= source.skip(pos + 1));
            lemma_utf8_len_take_add(source, pos, 1);
            lemma_utf8_len_prefix_order(source, pos, pos + 1);
        }
        let parts = split_after(self.rest, width, Ghost(1));
        *self = Lexer { whole: self.whole, rest: parts.1, byte: self.byte + width };
    }

    /// The text between an earlier place of the scanner and this one: `from`
    /// is what was left to scan at that place and `start` its byte offset,
    /// `n` characters back.
    fn since(&self, from: &'de str, start: usize, Ghost(n): Ghost<int>) -> (text: &'de str)
        requires
            0 <= n <= self@.pos,
            self@.pos <= self@.source.len(),
            from@ == self@.source.skip(self@.pos - n),
            start == utf8_len(self@.source.take(self@.pos - n)),
        ensures
            text@ == self@.source.subrange(self@.pos - n, self@.pos as int),
            start <= self@.offset(),
    {
        proof {
            use_type_invariant(self);
            let source = self.whole@;
            let pos = source.len() - self.rest@.len();
            lemma_utf8_len_take_add(source, pos - n, n);
        }
        split_after(from, self.byte - start, Ghost(n)).0
    }

    /// Passes the longest run of characters of `class` at which the scanner
    /// stands, and returns it.
    fn skip_run(&mut self, class: CharClass) -> (run: &'de str)
        ensures
            final(self)@ == old(self)@.after(run_len(old(self)@.rest(), class)),
            final(self)@.pos <= final(self)@.source.len(),
            run@ == old(self)@.rest().take(run_len(old(self)@.rest(), class) as int),
    {
        proof {
            use_type_invariant(&*self);
        }
        let from = self.rest;
        let start = self.byte;
        let ghost first = self@;
        let ghost mut n: int = 0;
        loop
            invariant
                self@.source == first.source,
                self@.pos == first.pos + n,
                self@.pos <= self@.source.len(),
                0 <= n,
                forall|i: int| 0 <= i < n ==> class.contains(#[trigger] first.rest()[i]),
            ensures
                run_len(first.rest(), class) == n,
            decreases first.source.len() - self@.pos,
        {
            match self.peek() {
                Some(c) if class.has(c) => {
                    self.step(c);
                    proof {
                        n = n + 1;
                    }
                },
                _ => {
                    proof {
                        lemma_run_len_is(first.rest(), class, n);
                    }
                    break ;
                },
            }
        }
        self.since(from, start, Ghost(n))
    }

    /// Whether the scanner has passed just the first character of a unit:
    /// `from` is the source from that character on, and `start` is the byte
    /// offset of the character.
    spec fn entered(&self, from: &str, start: usize) -> bool {
        &&& 1 <= self@.pos <= self@.source.len()
        &&& from@ == self@.source.skip(self@.pos - 1)
        &&& start == utf8_len(self@.source.take(self@.pos - 1))
    }

    /// Scans an operator behind its first character: with the `=` that
    /// follows it, after any whitespace, or alone.
    fn operator(
        &mut self,
        from: &'de str,
        start: usize,
        with_equal: TokenKind,
        alone: TokenKind,
    ) -> (token: Token<'de>)
        requires
            old(self).entered(from, start),
        ensures
            final(self)@.source == old(self)@.source,
            final(self)@.pos <= final(self)@.source.len(),
            ({
                let gap = run_len(from@.skip(1), CharClass::Whitespace) as int;
                if 1 + gap < from@.len() && from@[1 + gap] == '=' {
                    &&& token@ == (TokenView { kind: with_equal, lexeme: from@.take(gap + 2) })
                    &&& final(self)@.pos == old(self)@.pos + gap + 1
                } else {
                    &&& token@ == (TokenView { kind: alone, lexeme: from@.take(1) })
                    &&& final(self)@.pos == old(self)@.pos + gap
                }
            }),
    {
        let ghost source = self@.source;
        let ghost at = self@.pos - 1;
        let ghost gap = run_len(from@.skip(1), CharClass::Whitespace) as int;
        let c_str = self.since(from, start, Ghost(1));
        proof {
            assert(source.skip(at + 1) =~= from@.skip(1));
            lemma_run_len(from@.skip(1), CharClass::Whitespace);
            assert(source.subrange(at, at + 1) =~= from@.take(1));
        }
        self.skip_run(CharClass::Whitespace);
        match self.peek() {
            Some('=') => {
                self.step('=');
                proof {
                    assert(source.subrange(at, at + gap + 2) =~= from@.take(gap + 2));
                }
                Token::new(self.since(from, start, Ghost(gap + 2)), with_equal)
            },
            _ => Token::new(c_str, alone),
        }
    }

    /// Scans a string literal behind its opening quote, up to the quote that
    /// closes it. Where none does, the literal takes what is left of the
    /// source, and the error says where it started.
    fn string(&mut self, from: &'de str, start: usize) -> (result: Result<Token<'de>, LexError>)
        requires
            old(self).entered(from, start),
        ensures
            final(self)@.source == old(self)@.source,
            match closing_quote(from@, 1) {
                Some(close) => {
                    &&& result matches Ok(token)
                    &&& token@ == (TokenView {
                        kind: TokenKind::String,
                        lexeme: from@.take(close + 1),
                    })
                    &&& final(self)@.pos == old(self)@.pos + close
                    &&& 1 <= close < from@.len()
                },
                None => {
                    &&& result matches Err(LexError::StringTermination(error))
                    &&& error@.src == old(self)@.source
                    &&& error@.span.offset == start
                    &&& error@.span.len == utf8_len(from@)
                    &&& final(self)@.pos == old(self)@.source.len()
                },
            },
    {
        let ghost source = self@.source;
        let ghost at = self@.pos - 1;
        let ghost s = from@;
        let ghost mut i: int = 1;
        loop
            invariant
                self@.source == source,
                self@.pos == at + i,
                1 <= i <= s.len(),
                0 <= at,
                s == source.skip(at),
                from@ == s,
                start == utf8_len(source.take(at)),
                closing_quote(s, 1) == closing_quote(s, i),
                source == old(self)@.source,
                at == old(self)@.pos - 1,
            decreases s.len() - i,
        {
            match self.peek() {
                None => {
                    proof {
                        use_type_invariant(&*self);
                        assert(source.take(source.len() as int) =~= source);
                        lemma_utf8_len_split(source, at);
                    }
                    let span = Span { offset: start, len: self.byte - start };
                    let error = StringTerminationError::found(self.whole.to_owned(), span);
                    return Err(LexError::StringTermination(error));
                },
                Some(c) => {
                    self.step(c);
                    if c == '"' {
                        proof {
                            assert(source.subrange(at, at + i + 1) =~= s.take(i + 1));
                        }
                        let origin = self.since(from, start, Ghost(i + 1));
                        return Ok(Token::new(origin, TokenKind::String));
                    }
                    proof {
                        i = i + 1;
                    }
                    if c == '\\' {
                        match self.peek() {
                            Some(escaped) => {
                                self.step(escaped);
                                proof {
                                    i = i + 1;
                                }
                            },
                            None => {},
                        }
                    }
                },
            }
        }
    }

    /// Scans a numeric literal behind its first digit.
    fn number(&mut self, from: &'de str, start: usize) -> (token: Token<'de>)
        requires
            old(self).entered(from, start),
            is_digit(from@[0]),
        ensures
            final(self)@ == old(self)@.after((number_len(from@) - 1) as nat),
            1 <= number_len(from@) <= from@.len(),
            token@ == (TokenView {
                kind: TokenKind::Number,
                lexeme: from@.take(number_len(from@) as int),
            }),
    {
        let ghost source = self@.source;
        let ghost at = self@.pos - 1;
        let ghost s = from@;
        let ghost whole = run_len(s, CharClass::Digit) as int;
        proof {
            assert(source.skip(at + 1) =~= s.skip(1));
            lemma_run_len(s, CharClass::Digit);
            lemma_run_len(s.skip(whole + 1), CharClass::Digit);
        }
        self.skip_run(CharClass::Digit);
        match self.peek() {
            Some('.') => {
                proof {
                    use_type_invariant(&*self);
                    assert(source.skip(at + whole + 1) =~= s.skip(whole + 1));
                }
                let mut ahead = Lexer { whole: self.whole, rest: self.rest, byte: self.byte };
                ahead.step('.');
                let fraction = ahead.skip_run(CharClass::Digit);
                let dot_follows = match ahead.peek() {
                    Some('.') => true,
                    _ => false,
                };
                if !fraction.is_empty() || dot_follows {
                    *self = ahead;
                }
            },
            _ => {},
        }
        proof {
            let len = number_len(s) as int;
            assert(source.subrange(at, at + len) =~= s.take(len));
        }
        Token::new(self.since(from, start, Ghost(number_len(s) as int)), TokenKind::Number)
    }

    /// Scans a word behind its first character: a keyword or an identifier.
    fn word(&mut self, from: &'de str, start: usize) -> (token: Token<'de>)
        requires
            old(self).entered(from, start),
            is_word_start(from@[0]),
        ensures
            final(self)@ == old(self)@.after((run_len(from@, CharClass::Word) - 1) as nat),
            1 <= run_len(from@, CharClass::Word) <= from@.len(),
            ({
                let lexeme = from@.take(run_len(from@, CharClass::Word) as int);
                token@ == (TokenView { kind: word_kind(lexeme), lexeme })
            }),
    {
        let ghost source = self@.source;
        let ghost at = self@.pos - 1;
        let ghost s = from@;
        let ghost len = run_len(s, CharClass::Word) as int;
        proof {
            assert(source.skip(at + 1) =~= s.skip(1));
            lemma_run_len(s, CharClass::Word);
            assert(source.subrange(at, at + len) =~= s.take(len));
        }
        self.skip_run(CharClass::Word);
        let origin = self.since(from, start, Ghost(len));
        Token::new(origin, TokenKind::of_word(origin))
    }

    /// Scans the next token or error.
    ///
    /// Whitespace is passed first. Where nothing else is left, the result is
    /// `None` and the scanner stands at the end of the source. Otherwise the
    /// result is what [`scan`] finds: a token that borrows its lexeme from
    /// the source, or an error about one malformed unit. Either way the
    /// scanner has passed that unit, so that the next call goes on behind it.
    pub fn next(&mut self) -> (item: Option<Result<Token<'de>, LexError>>)
        ensures
            final(self)@.source == old(self)@.source,
            final(self)@.pos <= final(self)@.source.len(),
            match scan(old(self)@.rest()) {
                None => item is None && final(self)@.pos == old(self)@.source.len(),
                Some((skipped, lexed)) => {
                    let start = old(self)@.pos + skipped;
                    &&& item is Some
                    &&& reports(item->0, old(self)@.source, start as int, lexed)
                    &&& final(self)@.pos == start + taken(
                        old(self)@.source.skip(start as int),
                        lexed,
                    )
                },
            },
    {
        let ghost source = self@.source;
        let ghost before = self@.rest();
        self.skip_run(CharClass::Whitespace);
        proof {
            use_type_invariant(&*self);
            lemma_run_len(before, CharClass::Whitespace);
        }
        let ghost skipped = run_len(before, CharClass::Whitespace);
        let ghost at = self@.pos as int;
        let ghost s = source.skip(at);
        let c_onwards = self.rest;
        let start = self.byte;
        let c = match self.peek() {
            Some(c) => c,
            None => {
                return None;
            },
        };
        proof {
            assert(before.skip(skipped as int) =~= s);
            assert forall|n: int| 0 <= n <= s.len() implies #[trigger] s.take(n) == source.subrange(
                at,
                at + n,
            ) by {
                assert(s.take(n) =~= source.subrange(at, at + n));
            }
        }
        self.step(c);
        if let Some(kind) = TokenKind::punctuation(c) {
            let origin = self.since(c_onwards, start, Ghost(1));
            return Some(Ok(Token::new(origin, kind)));
        }
        if let Some(kinds) = TokenKind::operator(c) {
            return Some(Ok(self.operator(c_onwards, start, kinds.with_equal, kinds.alone)));
        }
        match c {
            '"' => Some(self.string(c_onwards, start)),
            '0'..='9' => Some(Ok(self.number(c_onwards, start))),
            'a'..='z' | 'A'..='Z' | '_' => Some(Ok(self.word(c_onwards, start))),
            _ => {
                proof {
                    lemma_utf8_len_prefix_order(source, at, at + 1);
                }
                let span = Span { offset: start, len: len_utf8(c) };
                let error = SingleTokenError::found(self.whole.to_owned(), c, span);
                Some(Err(LexError::SingleToken(error)))
            },
        }
    }

    /// Scans what is left of the source, and returns the tokens and errors
    /// in their order: one for each of the [`units`] from the place of the
    /// scanner on.
    pub fn drain(&mut self) -> (items: Vec<Result<Token<'de>, LexError>>)
        ensures
            final(self)@ == (LexerView {
                source: old(self)@.source,
                pos: old(self)@.source.len(),
            }),
            reports_all(items@, old(self)@.source, old(self)@.pos as int),
    {
        proof {
            use_type_invariant(&*self);
        }
        let ghost source = self@.source;
        let ghost all = units(source, self@.pos as int);
        let mut items: Vec<Result<Token<'de>, LexError>> = Vec::new();
        loop
            invariant
                self@.source == source,
                self@.pos <= source.len(),
                source == old(self)@.source,
                all == units(source, old(self)@.pos as int),
                items@.len() <= all.len(),
                all.skip(items@.len() as int) == units(source, self@.pos as int),
                forall|i: int|
                    #![trigger items@[i]]
                    0 <= i < items@.len() ==> reports(items@[i], source, all[i].0, all[i].1),
            decreases source.len() - self@.pos,
        {
            let ghost pos = self@.pos as int;
            let ghost done = items@.len() as int;
            proof {
                lemma_scan_advances(source.skip(pos));
            }
            match self.next() {
                None => {
                    return items;
                },
                Some(item) => {
                    proof {
                        let found = scan(source.skip(pos))->0;
                        let start = pos + found.0;
                        let next = start + taken(source.skip(start), found.1);
                        assert(all.skip(done)[0] == (start, found.1));
                        assert(all.skip(done).skip(1) =~= units(source, next));
                    }
                    items.push(item);
                },
            }
        }
    }
}

} // verus!

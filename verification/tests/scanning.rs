use codecrafters_interpreter::{LexError, Lexer, Token, TokenKind};

fn tokens(input: &str) -> Vec<(TokenKind, String)> {
    let mut lexer = Lexer::new(input);
    let mut out = Vec::new();
    while let Some(item) = lexer.next() {
        let token = item.expect("a token");
        out.push((token.kind(), token.lexeme().to_string()));
    }
    out
}

fn kinds(input: &str) -> Vec<TokenKind> {
    tokens(input).into_iter().map(|(kind, _)| kind).collect()
}

#[test]
fn empty_source_has_no_token() {
    let mut lexer = Lexer::new("");
    assert_eq!(lexer.next(), None);
    assert_eq!(lexer.next(), None);
    assert_eq!(lexer.byte(), 0);
}

#[test]
fn punctuation_is_one_token_per_character() {
    let input = "(){},.-+;*/";
    let expected = vec![
        TokenKind::LeftParen,
        TokenKind::RightParen,
        TokenKind::LeftBrace,
        TokenKind::RightBrace,
        TokenKind::Comma,
        TokenKind::Dot,
        TokenKind::Minus,
        TokenKind::Plus,
        TokenKind::Semicolon,
        TokenKind::Star,
        TokenKind::Slash,
    ];
    let found = tokens(input);
    assert_eq!(found.len(), input.len());
    for (i, c) in input.chars().enumerate() {
        assert_eq!(found[i].0, expected[i]);
        assert_eq!(found[i].1, c.to_string());
    }
}

#[test]
fn punctuation_has_the_literal_null() {
    let mut lexer = Lexer::new(")(;;");
    let mut lines = Vec::new();
    while let Some(item) = lexer.next() {
        lines.push(item.unwrap().display(""));
    }
    assert_eq!(
        lines,
        vec!["RIGHT_PAREN ) null", "LEFT_PAREN ( null", "SEMICOLON ; null", "SEMICOLON ; null"]
    );
}

#[test]
fn two_slashes_are_two_tokens() {
    assert_eq!(kinds("//"), vec![TokenKind::Slash, TokenKind::Slash]);
    assert_eq!(
        kinds("// a"),
        vec![TokenKind::Slash, TokenKind::Slash, TokenKind::Ident]
    );
}

#[test]
fn operators_with_equal() {
    assert_eq!(tokens("!="), vec![(TokenKind::BangEqual, "!=".to_string())]);
    assert_eq!(tokens("=="), vec![(TokenKind::EqualEqual, "==".to_string())]);
    assert_eq!(tokens("<="), vec![(TokenKind::LessEqual, "<=".to_string())]);
    assert_eq!(tokens(">="), vec![(TokenKind::GreaterEqual, ">=".to_string())]);
}

#[test]
fn operators_alone() {
    assert_eq!(tokens("!"), vec![(TokenKind::Bang, "!".to_string())]);
    assert_eq!(tokens("="), vec![(TokenKind::Equal, "=".to_string())]);
    assert_eq!(tokens("<"), vec![(TokenKind::Less, "<".to_string())]);
    assert_eq!(tokens(">"), vec![(TokenKind::Greater, ">".to_string())]);
}

#[test]
fn three_equal_signs() {
    assert_eq!(kinds("==="), vec![TokenKind::EqualEqual, TokenKind::Equal]);
    assert_eq!(kinds("===="), vec![TokenKind::EqualEqual, TokenKind::EqualEqual]);
    assert_eq!(kinds("<=="), vec![TokenKind::LessEqual, TokenKind::Equal]);
}

#[test]
fn whitespace_before_equal_counts_in_the_offset() {
    let mut lexer = Lexer::new("! =(");
    let token = lexer.next().unwrap().unwrap();
    assert_eq!(token.kind(), TokenKind::BangEqual);
    assert_eq!(token.lexeme(), "! =");
    assert_eq!(lexer.byte(), 3);
    assert_eq!(lexer.rest(), "(");

    let mut lexer = Lexer::new("<\t\u{2003}\n=");
    let token = lexer.next().unwrap().unwrap();
    assert_eq!(token.kind(), TokenKind::LessEqual);
    assert_eq!(token.lexeme(), "<\t\u{2003}\n=");
    assert_eq!(lexer.byte(), 7);
    assert_eq!(lexer.next(), None);
}

#[test]
fn operator_alone_does_not_take_the_next_character() {
    let mut lexer = Lexer::new("!a");
    let token = lexer.next().unwrap().unwrap();
    assert_eq!(token, Token::new("!", TokenKind::Bang));
    assert_eq!(lexer.byte(), 1);
    assert_eq!(lexer.rest(), "a");
    assert_eq!(lexer.next(), Some(Ok(Token::new("a", TokenKind::Ident))));
}

#[test]
fn operator_alone_passes_the_whitespace_behind_it() {
    let mut lexer = Lexer::new(">  1");
    let token = lexer.next().unwrap().unwrap();
    assert_eq!(token.kind(), TokenKind::Greater);
    assert_eq!(token.lexeme(), ">");
    assert_eq!(lexer.byte(), 3);
    assert_eq!(lexer.rest(), "1");
    assert_eq!(lexer.next(), Some(Ok(Token::new("1", TokenKind::Number))));
    assert_eq!(lexer.next(), None);
}

#[test]
fn operator_at_the_end_with_whitespace() {
    let mut lexer = Lexer::new("= \n");
    assert_eq!(lexer.next(), Some(Ok(Token::new("=", TokenKind::Equal))));
    assert_eq!(lexer.byte(), 3);
    assert_eq!(lexer.next(), None);
}

#[test]
fn number_without_fraction() {
    let found = tokens("123");
    assert_eq!(found, vec![(TokenKind::Number, "123".to_string())]);
    assert_eq!(found[0].1.parse::<f64>().unwrap(), 123.0);
}

#[test]
fn number_with_fraction() {
    let found = tokens("123.456");
    assert_eq!(found, vec![(TokenKind::Number, "123.456".to_string())]);
    assert_eq!(found[0].1.parse::<f64>().unwrap(), 123.456);
}

#[test]
fn number_before_a_bare_dot() {
    let found = tokens("123.");
    assert_eq!(
        found,
        vec![(TokenKind::Number, "123".to_string()), (TokenKind::Dot, ".".to_string())]
    );
    assert_eq!(found[0].1.parse::<f64>().unwrap(), 123.0);
}

#[test]
fn number_with_two_dots() {
    let found = tokens("1.2.3");
    assert_eq!(
        found,
        vec![
            (TokenKind::Number, "1.2".to_string()),
            (TokenKind::Dot, ".".to_string()),
            (TokenKind::Number, "3".to_string()),
        ]
    );
    assert_eq!(found[0].1.parse::<f64>().unwrap(), 1.2);
    assert_eq!(found[2].1.parse::<f64>().unwrap(), 3.0);
}

#[test]
fn number_before_two_dots() {
    let found = tokens("1..2");
    assert_eq!(
        found,
        vec![
            (TokenKind::Number, "1.".to_string()),
            (TokenKind::Dot, ".".to_string()),
            (TokenKind::Number, "2".to_string()),
        ]
    );
    assert_eq!(found[0].1.parse::<f64>().unwrap(), 1.0);
}

#[test]
fn number_before_a_dot_and_a_name() {
    assert_eq!(
        tokens("7.abs"),
        vec![
            (TokenKind::Number, "7".to_string()),
            (TokenKind::Dot, ".".to_string()),
            (TokenKind::Ident, "abs".to_string()),
        ]
    );
}

#[test]
fn dot_before_a_number() {
    assert_eq!(
        tokens(".5"),
        vec![(TokenKind::Dot, ".".to_string()), (TokenKind::Number, "5".to_string())]
    );
}

#[test]
fn number_then_letters() {
    assert_eq!(
        tokens("12ab"),
        vec![(TokenKind::Number, "12".to_string()), (TokenKind::Ident, "ab".to_string())]
    );
}

#[test]
fn every_number_lexeme_parses() {
    for input in ["0", "007", "1.", "0.0001", "99999999999999999999999999.5", "3.14.15.92"] {
        let found = tokens(input);
        assert_eq!(found[0].0, TokenKind::Number);
        assert!(found[0].1.parse::<f64>().is_ok());
    }
}

#[test]
fn identifier_is_the_longest_match() {
    assert_eq!(tokens("orchid"), vec![(TokenKind::Ident, "orchid".to_string())]);
    assert_eq!(tokens("or"), vec![(TokenKind::Or, "or".to_string())]);
    assert_eq!(
        tokens("or chid"),
        vec![(TokenKind::Or, "or".to_string()), (TokenKind::Ident, "chid".to_string())]
    );
    assert_eq!(tokens("classy"), vec![(TokenKind::Ident, "classy".to_string())]);
    assert_eq!(tokens("_if"), vec![(TokenKind::Ident, "_if".to_string())]);
    assert_eq!(tokens("if0"), vec![(TokenKind::Ident, "if0".to_string())]);
}

#[test]
fn keywords() {
    let input = "and class else false for fun if nil or return super this true var while";
    assert_eq!(
        kinds(input),
        vec![
            TokenKind::And,
            TokenKind::Class,
            TokenKind::Else,
            TokenKind::False,
            TokenKind::For,
            TokenKind::Fun,
            TokenKind::If,
            TokenKind::Nil,
            TokenKind::Or,
            TokenKind::Return,
            TokenKind::Super,
            TokenKind::This,
            TokenKind::True,
            TokenKind::Var,
            TokenKind::While,
        ]
    );
}

#[test]
fn keywords_are_case_sensitive() {
    assert_eq!(
        kinds("And CLASS nIl While"),
        vec![TokenKind::Ident, TokenKind::Ident, TokenKind::Ident, TokenKind::Ident]
    );
}

#[test]
fn identifiers_hold_letters_digits_and_underscores() {
    assert_eq!(tokens("_a1_B2"), vec![(TokenKind::Ident, "_a1_B2".to_string())]);
    assert_eq!(
        tokens("a-b"),
        vec![
            (TokenKind::Ident, "a".to_string()),
            (TokenKind::Minus, "-".to_string()),
            (TokenKind::Ident, "b".to_string()),
        ]
    );
}

#[test]
fn letters_outside_ascii_start_no_word() {
    let mut lexer = Lexer::new("é");
    match lexer.next() {
        Some(Err(LexError::SingleToken(error))) => assert_eq!(error.token(), 'é'),
        other => panic!("{other:?}"),
    }
    assert_eq!(lexer.next(), None);
}

#[test]
fn string_literal() {
    assert_eq!(
        tokens("\"hello\""),
        vec![(TokenKind::String, "\"hello\"".to_string())]
    );
    assert_eq!(tokens("\"\""), vec![(TokenKind::String, "\"\"".to_string())]);
    assert_eq!(
        tokens("\"a b\"c"),
        vec![(TokenKind::String, "\"a b\"".to_string()), (TokenKind::Ident, "c".to_string())]
    );
}

#[test]
fn string_literal_with_an_escaped_quote() {
    let input = r#""a\"b" x"#;
    assert_eq!(
        tokens(input),
        vec![(TokenKind::String, r#""a\"b""#.to_string()), (TokenKind::Ident, "x".to_string())]
    );
}

#[test]
fn string_literal_with_an_escaped_backslash_at_its_end() {
    let input = r#""a\\" x"#;
    assert_eq!(
        tokens(input),
        vec![(TokenKind::String, r#""a\\""#.to_string()), (TokenKind::Ident, "x".to_string())]
    );
}

#[test]
fn string_literal_over_lines_and_other_scripts() {
    let input = "\"один\nдва\" 1";
    let mut lexer = Lexer::new(input);
    let token = lexer.next().unwrap().unwrap();
    assert_eq!(token.kind(), TokenKind::String);
    assert_eq!(token.lexeme(), "\"один\nдва\"");
    assert_eq!(lexer.byte(), 17);
    assert_eq!(lexer.next(), Some(Ok(Token::new("1", TokenKind::Number))));
}

#[test]
fn unterminated_string() {
    let input = "( \"abc";
    let mut lexer = Lexer::new(input);
    assert_eq!(lexer.next(), Some(Ok(Token::new("(", TokenKind::LeftParen))));
    match lexer.next() {
        Some(Err(LexError::StringTermination(error))) => {
            assert_eq!(error.src(), input);
            assert_eq!(error.span().offset, 2);
            assert_eq!(error.span().len, 4);
            assert_eq!(error.line(), 1);
        }
        other => panic!("{other:?}"),
    }
    assert_eq!(lexer.byte(), 6);
    assert_eq!(lexer.rest(), "");
    assert_eq!(lexer.next(), None);
}

#[test]
fn unterminated_string_that_ends_in_a_backslash() {
    let input = "\"ab\\";
    let mut lexer = Lexer::new(input);
    match lexer.next() {
        Some(Err(LexError::StringTermination(error))) => {
            assert_eq!(error.span().offset, 0);
            assert_eq!(error.span().len, 4);
        }
        other => panic!("{other:?}"),
    }
    assert_eq!(lexer.next(), None);
}

#[test]
fn unterminated_string_whose_last_quote_is_escaped() {
    let input = "\"ab\\\"";
    let mut lexer = Lexer::new(input);
    match lexer.next() {
        Some(Err(LexError::StringTermination(error))) => {
            assert_eq!(error.span().offset, 0);
            assert_eq!(error.span().len, 5);
        }
        other => panic!("{other:?}"),
    }
    assert_eq!(lexer.next(), None);
}

#[test]
fn unexpected_characters() {
    for (input, token) in [("@", '@'), ("#", '#'), ("$", '$'), ("%", '%'), ("\\", '\\')] {
        let mut lexer = Lexer::new(input);
        match lexer.next() {
            Some(Err(LexError::SingleToken(error))) => {
                assert_eq!(error.token(), token);
                assert_eq!(error.src(), input);
                assert_eq!(error.span().offset, 0);
                assert_eq!(error.span().len, 1);
                assert_eq!(error.line(), 1);
            }
            other => panic!("{other:?}"),
        }
        assert_eq!(lexer.next(), None);
    }
}

#[test]
fn unexpected_character_of_several_bytes() {
    let input = "a🙂b";
    let mut lexer = Lexer::new(input);
    assert_eq!(lexer.next(), Some(Ok(Token::new("a", TokenKind::Ident))));
    match lexer.next() {
        Some(Err(LexError::SingleToken(error))) => {
            assert_eq!(error.token(), '🙂');
            assert_eq!(error.span().offset, 1);
            assert_eq!(error.span().len, 4);
            assert_eq!(&input[1..5], "🙂");
        }
        other => panic!("{other:?}"),
    }
    assert_eq!(lexer.byte(), 5);
    assert_eq!(lexer.next(), Some(Ok(Token::new("b", TokenKind::Ident))));
    assert_eq!(lexer.byte(), 6);
    assert_eq!(lexer.next(), None);
}

#[test]
fn scanning_goes_on_behind_an_error() {
    let mut lexer = Lexer::new("@(#)");
    assert!(matches!(lexer.next(), Some(Err(LexError::SingleToken(_)))));
    assert_eq!(lexer.next(), Some(Ok(Token::new("(", TokenKind::LeftParen))));
    match lexer.next() {
        Some(Err(LexError::SingleToken(error))) => {
            assert_eq!(error.token(), '#');
            assert_eq!(error.span().offset, 2);
            assert_eq!(error.span().len, 1);
        }
        other => panic!("{other:?}"),
    }
    assert_eq!(lexer.next(), Some(Ok(Token::new(")", TokenKind::RightParen))));
    assert_eq!(lexer.next(), None);
}

#[test]
fn scanning_twice_gives_the_same() {
    let input = "var x = 1.5; @ \"s\\n\" // <= \"open";
    let first = Lexer::new(input).drain();
    let second = Lexer::new(input).drain();
    assert_eq!(first, second);
    assert_eq!(first.len(), 11);
    let lines = |items: &Vec<Result<Token, LexError>>| -> Vec<String> {
        items
            .iter()
            .map(|item| match item {
                Ok(token) => token.display("1.5"),
                Err(error) => format!("{error:?}"),
            })
            .collect()
    };
    assert_eq!(lines(&first), lines(&second));
}

#[test]
fn punctuation_then_whitespace_to_the_end() {
    let mut lexer = Lexer::new("(){}; ");
    assert_eq!(lexer.next(), Some(Ok(Token::new("(", TokenKind::LeftParen))));
    assert_eq!(lexer.next(), Some(Ok(Token::new(")", TokenKind::RightParen))));
    assert_eq!(lexer.next(), Some(Ok(Token::new("{", TokenKind::LeftBrace))));
    assert_eq!(lexer.next(), Some(Ok(Token::new("}", TokenKind::RightBrace))));
    assert_eq!(lexer.next(), Some(Ok(Token::new(";", TokenKind::Semicolon))));
    assert_eq!(lexer.byte(), 5);
    assert_eq!(lexer.next(), None);
    assert_eq!(lexer.byte(), 6);
    assert_eq!(lexer.next(), None);
}

#[test]
fn whitespace_alone_has_no_token() {
    let input = " \t\r\n\u{b}\u{c}\u{85}\u{a0}\u{1680}\u{2000}\u{200a}\u{2028}\u{2029}\u{202f}\u{205f}\u{3000}";
    let mut lexer = Lexer::new(input);
    assert_eq!(lexer.next(), None);
    assert_eq!(lexer.byte(), input.len());
    assert_eq!(lexer.rest(), "");
}

#[test]
fn whitespace_between_tokens() {
    assert_eq!(
        kinds("\n( \u{3000}\t)\r\n"),
        vec![TokenKind::LeftParen, TokenKind::RightParen]
    );
}

#[test]
fn zero_width_space_is_no_whitespace() {
    let mut lexer = Lexer::new("\u{200b}");
    match lexer.next() {
        Some(Err(LexError::SingleToken(error))) => {
            assert_eq!(error.token(), '\u{200b}');
            assert_eq!(error.span().len, 3);
        }
        other => panic!("{other:?}"),
    }
}

#[test]
fn scanner_keeps_count_of_the_bytes() {
    let input = "fun é(\u{a0}x) { return \"ü\" >= 1.5; }";
    let mut lexer = Lexer::new(input);
    assert_eq!(lexer.whole(), input);
    assert_eq!(lexer.rest(), input);
    assert_eq!(lexer.byte(), 0);
    loop {
        let item = lexer.next();
        assert_eq!(lexer.whole(), input);
        assert_eq!(lexer.whole().len() - lexer.rest().len(), lexer.byte());
        assert_eq!(&input[lexer.byte()..], lexer.rest());
        if item.is_none() {
            break;
        }
    }
    assert_eq!(lexer.byte(), input.len());
}

#[test]
fn lexemes_are_parts_of_the_source() {
    let input = "while (a_1 <= 10.25) print \"x\\\"y\";";
    let start = input.as_ptr() as usize;
    let mut lexer = Lexer::new(input);
    let mut rebuilt = Vec::new();
    while let Some(item) = lexer.next() {
        let token = item.unwrap();
        let at = token.lexeme().as_ptr() as usize - start;
        assert_eq!(&input[at..at + token.lexeme().len()], token.lexeme());
        assert_eq!(at + token.lexeme().len(), lexer.byte());
        rebuilt.push(token.lexeme());
    }
    assert_eq!(
        rebuilt,
        vec!["while", "(", "a_1", "<=", "10.25", ")", "print", "\"x\\\"y\"", ";"]
    );
}

#[test]
fn drain_gives_what_next_gives() {
    let input = "a = \"b\" + 3.0 ~ c. \"";
    let drained = Lexer::new(input).drain();
    let mut lexer = Lexer::new(input);
    let mut pulled = Vec::new();
    while let Some(item) = lexer.next() {
        pulled.push(item);
    }
    assert_eq!(drained, pulled);
    assert_eq!(drained.len(), 9);
    assert!(matches!(drained[5], Err(LexError::SingleToken(_))));
    assert!(matches!(drained[8], Err(LexError::StringTermination(_))));
}

#[test]
fn drain_starts_where_the_scanner_stands() {
    let mut lexer = Lexer::new("a b c");
    assert_eq!(lexer.next(), Some(Ok(Token::new("a", TokenKind::Ident))));
    let rest = lexer.drain();
    assert_eq!(
        rest,
        vec![Ok(Token::new("b", TokenKind::Ident)), Ok(Token::new("c", TokenKind::Ident))]
    );
    assert_eq!(lexer.byte(), 5);
    assert_eq!(lexer.drain(), vec![]);
}

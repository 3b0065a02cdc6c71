use osta_lexer::{Lexer, LexerError, TokenKind};

/// Drains the lexer, pairing each successful token's kind with the substring
/// its span recovers.
fn lex_results(input: &[u8]) -> Vec<Result<(TokenKind, String), LexerError>> {
    let mut lx = Lexer::new(input.to_vec());
    let mut out = Vec::new();
    loop {
        match lx.inner_next() {
            None => break,
            Some(Ok(t)) => {
                let bytes = lx.slice(&t);
                out.push(Ok((t.kind, String::from_utf8(bytes).unwrap())));
            }
            Some(Err(e)) => out.push(Err(e)),
        }
    }
    out
}

fn check(input: &[u8], expected: &[Result<(TokenKind, &str), LexerError>]) {
    let got = lex_results(input);
    assert_eq!(got.len(), expected.len(), "token count mismatch: {:?}", got);
    for (i, (g, e)) in got.iter().zip(expected.iter()).enumerate() {
        match (g, e) {
            (Ok((gk, gs)), Ok((ek, es))) => {
                assert_eq!(gk, ek, "kind mismatch at {}: {:?}", i, got);
                assert_eq!(gs.as_str(), *es, "slice mismatch at {}: {:?}", i, got);
            }
            (Err(ge), Err(ee)) => assert_eq!(ge, ee, "error mismatch at {}", i),
            _ => panic!("mismatch at {}: {:?} vs {:?}", i, g, e),
        }
    }
}

#[test]
fn empty() {
    check(b"", &[]);
}

#[test]
fn whitespace_only() {
    check(b" \t\r\n\x0c ", &[]);
}

#[test]
fn comment() {
    check(
        b"// this is a comment",
        &[Ok((TokenKind::Comment, "// this is a comment"))],
    );
}

#[test]
fn comment_stops_at_newline() {
    check(
        b"// note\nfoo",
        &[
            Ok((TokenKind::Comment, "// note")),
            Ok((TokenKind::Identifier, "foo")),
        ],
    );
}

#[test]
fn comment_block() {
    check(
        b"/*\n        this is a comment\n        */",
        &[Ok((TokenKind::Comment, "/*\n        this is a comment\n        */"))],
    );
}

#[test]
fn comment_block_nested() {
    let input = b"/*\n  this is the start of a comment\n  /* this is a comment inside a comment */\n  this is the end of a comment\n  */";
    check(
        input,
        &[Ok((TokenKind::Comment, std::str::from_utf8(input).unwrap()))],
    );
}

#[test]
fn comment_block_sliding_window() {
    // "*/*" after the opener: the '*' closing the first pair cannot also
    // open a new one, so the comment closes at the first "*/".
    check(
        b"/**/* x",
        &[
            Ok((TokenKind::Comment, "/**/")),
            Err(LexerError::UnknownToken),
            Ok((TokenKind::Identifier, "x")),
        ],
    );
}

#[test]
fn comment_block_unterminated() {
    check(b"/* a /* b */ c", &[Err(LexerError::UnterminatedBlockComment)]);
}

#[test]
fn keywords() {
    check(
        b"const static pub",
        &[
            Ok((TokenKind::Const, "const")),
            Ok((TokenKind::Static, "static")),
            Ok((TokenKind::Pub, "pub")),
        ],
    );
}

#[test]
fn keyword_not_identifier() {
    check(b"const", &[Ok((TokenKind::Const, "const"))]);
}

#[test]
fn keyword_prefix_is_identifier() {
    check(b"constant", &[Ok((TokenKind::Identifier, "constant"))]);
}

#[test]
fn all_keywords() {
    let mut input = b"move if else while for do break continue return match case where fn struct enum variant union type use mod impl trait let as never void ext".to_vec();
    input.extend_from_slice(b"ern");
    let kinds = [
        TokenKind::Move,
        TokenKind::If,
        TokenKind::Else,
        TokenKind::While,
        TokenKind::For,
        TokenKind::Do,
        TokenKind::Break,
        TokenKind::Continue,
        TokenKind::Return,
        TokenKind::Match,
        TokenKind::Case,
        TokenKind::Where,
        TokenKind::Fn,
        TokenKind::Struct,
        TokenKind::Enum,
        TokenKind::Variant,
        TokenKind::Union,
        TokenKind::Type,
        TokenKind::Use,
        TokenKind::Mod,
        TokenKind::Impl,
        TokenKind::Trait,
        TokenKind::Let,
        TokenKind::As,
        TokenKind::Never,
        TokenKind::Void,
        TokenKind::Extern,
    ];
    let got = lex_results(&input);
    assert_eq!(got.len(), kinds.len());
    for (g, k) in got.iter().zip(kinds.iter()) {
        match g {
            Ok((gk, _)) => assert_eq!(gk, k),
            Err(e) => panic!("unexpected error: {:?}", e),
        }
    }
}

#[test]
fn primitives() {
    check(
        b"never void i1 i8 i16 i31 i32 i64 i128 isize u1 u8 u16 u31 u32 u64 u128 usize f16 f32 f64",
        &[
            Ok((TokenKind::Never, "never")),
            Ok((TokenKind::Void, "void")),
            Ok((TokenKind::IntType(1), "i1")),
            Ok((TokenKind::IntType(8), "i8")),
            Ok((TokenKind::IntType(16), "i16")),
            Ok((TokenKind::IntType(31), "i31")),
            Ok((TokenKind::IntType(32), "i32")),
            Ok((TokenKind::IntType(64), "i64")),
            Ok((TokenKind::IntType(128), "i128")),
            Ok((TokenKind::IsizeType, "isize")),
            Ok((TokenKind::UintType(1), "u1")),
            Ok((TokenKind::UintType(8), "u8")),
            Ok((TokenKind::UintType(16), "u16")),
            Ok((TokenKind::UintType(31), "u31")),
            Ok((TokenKind::UintType(32), "u32")),
            Ok((TokenKind::UintType(64), "u64")),
            Ok((TokenKind::UintType(128), "u128")),
            Ok((TokenKind::UsizeType, "usize")),
            Ok((TokenKind::FloatType(16), "f16")),
            Ok((TokenKind::FloatType(32), "f32")),
            Ok((TokenKind::FloatType(64), "f64")),
        ],
    );
}

#[test]
fn sized_type_edge_cases() {
    check(
        b"u0 u007 i0_1 f2x",
        &[
            Ok((TokenKind::Identifier, "u0")),
            Ok((TokenKind::UintType(7), "u007")),
            Ok((TokenKind::Identifier, "i0_1")),
            Ok((TokenKind::Identifier, "f2x")),
        ],
    );
}

#[test]
fn sized_type_overflow() {
    // 2^64 does not fit the natural unsigned width on a 64-bit machine.
    check(
        b"u18446744073709551616 foo",
        &[
            Err(LexerError::InvalidInteger),
            Ok((TokenKind::Identifier, "foo")),
        ],
    );
}

#[test]
fn identifiers() {
    check(
        b"foo _foo foo123 i32_ @macro_name #comptime_name $directive_name",
        &[
            Ok((TokenKind::Identifier, "foo")),
            Ok((TokenKind::Identifier, "_foo")),
            Ok((TokenKind::Identifier, "foo123")),
            Ok((TokenKind::Identifier, "i32_")),
            Ok((TokenKind::MacroIdentifier, "@macro_name")),
            Ok((TokenKind::ComptimeIdentifier, "#comptime_name")),
            Ok((TokenKind::DirectiveIdentifier, "$directive_name")),
        ],
    );
}

#[test]
fn bare_sigils() {
    check(
        b"@ # $ @1",
        &[
            Err(LexerError::UnknownToken),
            Err(LexerError::UnknownToken),
            Err(LexerError::UnknownToken),
            Err(LexerError::UnknownToken),
            Ok((TokenKind::DecInt, "1")),
        ],
    );
}

#[test]
fn integers() {
    check(
        b"123 1_2_3 1__2__3 _123 123_ \
          0b1010 0B1010 0b10_10 0B1_0_1_0 0b10__10 0B_1010 0b1010_ \
          0o7755 0O7755 0o77_55 0O7_7_5_5 0o77__55 0O_7755 0o7755_ \
          0xAA55 0XAA55 0xAA_55 0XA_A_5_5 0xAA__55 0X_AA55 0xAA55_",
        &[
            Ok((TokenKind::DecInt, "123")),
            Ok((TokenKind::DecInt, "1_2_3")),
            Ok((TokenKind::DecInt, "1__2__3")),
            Ok((TokenKind::Identifier, "_123")),
            Ok((TokenKind::DecInt, "123")),
            Ok((TokenKind::Identifier, "_")),
            Ok((TokenKind::BinInt, "0b1010")),
            Ok((TokenKind::BinInt, "0B1010")),
            Ok((TokenKind::BinInt, "0b10_10")),
            Ok((TokenKind::BinInt, "0B1_0_1_0")),
            Ok((TokenKind::BinInt, "0b10__10")),
            Ok((TokenKind::DecInt, "0")),
            Ok((TokenKind::Identifier, "B_1010")),
            Ok((TokenKind::BinInt, "0b1010")),
            Ok((TokenKind::Identifier, "_")),
            Ok((TokenKind::OctInt, "0o7755")),
            Ok((TokenKind::OctInt, "0O7755")),
            Ok((TokenKind::OctInt, "0o77_55")),
            Ok((TokenKind::OctInt, "0O7_7_5_5")),
            Ok((TokenKind::OctInt, "0o77__55")),
            Ok((TokenKind::DecInt, "0")),
            Ok((TokenKind::Identifier, "O_7755")),
            Ok((TokenKind::OctInt, "0o7755")),
            Ok((TokenKind::Identifier, "_")),
            Ok((TokenKind::HexInt, "0xAA55")),
            Ok((TokenKind::HexInt, "0XAA55")),
            Ok((TokenKind::HexInt, "0xAA_55")),
            Ok((TokenKind::HexInt, "0XA_A_5_5")),
            Ok((TokenKind::HexInt, "0xAA__55")),
            Ok((TokenKind::DecInt, "0")),
            Ok((TokenKind::Identifier, "X_AA55")),
            Ok((TokenKind::HexInt, "0xAA55")),
            Ok((TokenKind::Identifier, "_")),
        ],
    );
}

#[test]
fn floats() {
    check(
        b"1.0 1. \
          1.0e10 1.0E10 1.0e-10 1.0E-10 1.0e+10 1.0E+10 \
          _1.0e10 1_.0E10 1._0e-10 1.0_E-10 1.0e+_10 1.0E+10_ \
          1e10 1E10 1e-10 1E-10 1e+10 1E+10 \
          _1e10 1_E10 1e-_10 1E-1_0 1e+10_ 1E_10",
        &[
            Ok((TokenKind::Float, "1.0")),
            Ok((TokenKind::IntFloat, "1.")),
            Ok((TokenKind::FloatExp, "1.0e10")),
            Ok((TokenKind::FloatExp, "1.0E10")),
            Ok((TokenKind::FloatExp, "1.0e-10")),
            Ok((TokenKind::FloatExp, "1.0E-10")),
            Ok((TokenKind::FloatExp, "1.0e+10")),
            Ok((TokenKind::FloatExp, "1.0E+10")),
            Ok((TokenKind::Identifier, "_1")),
            Err(LexerError::UnknownToken),
            Ok((TokenKind::IntExp, "0e10")),
            Ok((TokenKind::DecInt, "1")),
            Ok((TokenKind::Identifier, "_")),
            Err(LexerError::UnknownToken),
            Ok((TokenKind::IntExp, "0E10")),
            Ok((TokenKind::IntFloat, "1.")),
            Ok((TokenKind::Identifier, "_0e")),
            Err(LexerError::UnknownToken),
            Ok((TokenKind::DecInt, "10")),
            Ok((TokenKind::Float, "1.0")),
            Ok((TokenKind::Identifier, "_E")),
            Err(LexerError::UnknownToken),
            Ok((TokenKind::DecInt, "10")),
            Ok((TokenKind::Float, "1.0")),
            Ok((TokenKind::Identifier, "e")),
            Err(LexerError::UnknownToken),
            Ok((TokenKind::Identifier, "_10")),
            Ok((TokenKind::FloatExp, "1.0E+10")),
            Ok((TokenKind::Identifier, "_")),
            Ok((TokenKind::IntExp, "1e10")),
            Ok((TokenKind::IntExp, "1E10")),
            Ok((TokenKind::IntExp, "1e-10")),
            Ok((TokenKind::IntExp, "1E-10")),
            Ok((TokenKind::IntExp, "1e+10")),
            Ok((TokenKind::IntExp, "1E+10")),
            Ok((TokenKind::Identifier, "_1e10")),
            Ok((TokenKind::DecInt, "1")),
            Ok((TokenKind::Identifier, "_E10")),
            Ok((TokenKind::DecInt, "1")),
            Ok((TokenKind::Identifier, "e")),
            Err(LexerError::UnknownToken),
            Ok((TokenKind::Identifier, "_10")),
            Ok((TokenKind::IntExp, "1E-1_0")),
            Ok((TokenKind::IntExp, "1e+10")),
            Ok((TokenKind::Identifier, "_")),
            Ok((TokenKind::DecInt, "1")),
            Ok((TokenKind::Identifier, "E_10")),
        ],
    );
}

#[test]
fn int_float_trailing_dot() {
    check(b"1.", &[Ok((TokenKind::IntFloat, "1."))]);
}

#[test]
fn dec_int_trailing_underscore() {
    check(
        b"123_",
        &[
            Ok((TokenKind::DecInt, "123")),
            Ok((TokenKind::Identifier, "_")),
        ],
    );
}

#[test]
fn radix_prefix_needs_digit() {
    check(
        b"0B_1010",
        &[
            Ok((TokenKind::DecInt, "0")),
            Ok((TokenKind::Identifier, "B_1010")),
        ],
    );
}

#[test]
fn radix_digits_stop_at_invalid() {
    check(
        b"0b2 0b1012",
        &[
            Ok((TokenKind::DecInt, "0")),
            Ok((TokenKind::Identifier, "b2")),
            Ok((TokenKind::BinInt, "0b101")),
            Ok((TokenKind::DecInt, "2")),
        ],
    );
}

#[test]
fn lone_r_is_identifier() {
    check(b"r", &[Ok((TokenKind::Identifier, "r"))]);
}

#[test]
fn strings() {
    let input = r####""this is a string" "this is a \"string\" with escapes" "" r#"this is a raw string"# r##"this is a raw string with "# in it"## r###"this is a raw string with ##" in it"###"####;
    check(
        input.as_bytes(),
        &[
            Ok((TokenKind::String, r#""this is a string""#)),
            Ok((TokenKind::String, r#""this is a \"string\" with escapes""#)),
            Ok((TokenKind::String, r#""""#)),
            Ok((TokenKind::RawString, r##"r#"this is a raw string"#"##)),
            Ok((TokenKind::RawString, r###"r##"this is a raw string with "# in it"##"###)),
            Ok((TokenKind::RawString, r####"r###"this is a raw string with ##" in it"###"####)),
        ],
    );
}

#[test]
fn raw_string_single_hash() {
    let input = r##"r#"this is a raw string"#"##;
    check(input.as_bytes(), &[Ok((TokenKind::RawString, input))]);
}

#[test]
fn raw_string_no_hash() {
    // With a zero hash count the closing countdown is already complete at
    // the unescaped quote, so the literal closes there.
    check(
        br#"r"abc" x"#,
        &[
            Ok((TokenKind::RawString, r#"r"abc""#)),
            Ok((TokenKind::Identifier, "x")),
        ],
    );
}

#[test]
fn raw_string_hash_without_quote_is_not_raw() {
    check(
        b"r#foo",
        &[
            Ok((TokenKind::Identifier, "r")),
            Ok((TokenKind::ComptimeIdentifier, "#foo")),
        ],
    );
}

#[test]
fn open_string() {
    check(
        br#""this is an open string"#,
        &[
            Err(LexerError::UnknownToken),
            Ok((TokenKind::Identifier, "this")),
            Ok((TokenKind::Identifier, "is")),
            Ok((TokenKind::Identifier, "an")),
            Ok((TokenKind::Identifier, "open")),
            Ok((TokenKind::Identifier, "string")),
        ],
    );
}

#[test]
fn string_closes_at_last_escaped_quote() {
    // No unescaped quote follows, so the longest match closes at the last
    // backslash-preceded one.
    check(
        br#""abc\"def"#,
        &[
            Ok((TokenKind::String, r#""abc\""#)),
            Ok((TokenKind::Identifier, "def")),
        ],
    );
}

#[test]
fn open_raw_string() {
    let input = r##"r#"this is a raw string without end""##;
    check(input.as_bytes(), &[Err(LexerError::UnknownToken)]);
}

#[test]
fn symbols() {
    check(
        b"( ) { } [ ] , : ; ->",
        &[
            Ok((TokenKind::LParen, "(")),
            Ok((TokenKind::RParen, ")")),
            Ok((TokenKind::LBrace, "{")),
            Ok((TokenKind::RBrace, "}")),
            Ok((TokenKind::LBracket, "[")),
            Ok((TokenKind::RBracket, "]")),
            Ok((TokenKind::Comma, ",")),
            Ok((TokenKind::Colon, ":")),
            Ok((TokenKind::Semicolon, ";")),
            Ok((TokenKind::Arrow, "->")),
        ],
    );
}

#[test]
fn bare_minus_is_unknown() {
    check(
        b"- > ->",
        &[
            Err(LexerError::UnknownToken),
            Err(LexerError::UnknownToken),
            Ok((TokenKind::Arrow, "->")),
        ],
    );
}

#[test]
fn peek_is_idempotent() {
    let mut lx = Lexer::new(b"const foo 123".to_vec());
    let first = lx.peek(1);
    let second = lx.peek(1);
    assert_eq!(first, second);
    let third = lx.peek(1);
    assert_eq!(first, third);
    let at_zero = lx.peek(0);
    let at_zero_again = lx.peek(0);
    assert_eq!(at_zero, at_zero_again);
    // Peeks at other offsets do not disturb a previous one either.
    let _ = lx.peek(2);
    assert_eq!(lx.peek(1), first);
}

#[test]
fn peek_matches_consumption_order() {
    let input = b"const foo 123 ( ) -> /* c */ \"s\" 1.0";
    let mut by_peek = Vec::new();
    let mut lx = Lexer::new(input.to_vec());
    let mut n = 0;
    while let Some(r) = lx.peek(n) {
        by_peek.push(r);
        n += 1;
    }
    let mut by_next = Vec::new();
    let mut lx2 = Lexer::new(input.to_vec());
    while let Some(r) = lx2.inner_next() {
        by_next.push(r);
    }
    assert_eq!(by_peek, by_next);
    // Consuming after the peeks still delivers in production order.
    let mut consumed = Vec::new();
    while let Some(r) = lx.inner_next() {
        consumed.push(r);
    }
    assert_eq!(consumed, by_next);
}

#[test]
fn peek_then_consume_returns_item_peeked_at_zero() {
    let mut lx = Lexer::new(b"const foo".to_vec());
    // Buffer far ahead first: delivery must still start at the front.
    assert_eq!(lx.peek(5), None);
    let front = lx.peek(0).unwrap();
    assert_eq!(lx.inner_next(), Some(front));
}

#[test]
fn exhaustion_is_sticky() {
    let mut lx = Lexer::new(b"foo".to_vec());
    assert!(lx.inner_next().is_some());
    assert_eq!(lx.inner_next(), None);
    assert_eq!(lx.inner_next(), None);
    assert_eq!(lx.peek(0), None);
    assert_eq!(lx.peek(3), None);
    assert_eq!(lx.inner_next(), None);
}

#[test]
fn malformed_input_recovers() {
    // Arbitrary junk never aborts the stream: each failure is one `Err`
    // result and scanning resumes after it.
    let inputs: Vec<Vec<u8>> = vec![
        vec![0xff, 0xfe, 0x00, b'a'],
        b"~`!?\\|^&%".to_vec(),
        b"\"\\".to_vec(),
        b"r####\"x".to_vec(),
        b"/*/".to_vec(),
    ];
    for input in inputs {
        let results = lex_results(&input);
        // The junk bytes above always produce at least one error entry.
        assert!(results.iter().any(|r| r.is_err()), "no error for {:?}", input);
    }
}

#[test]
fn span_round_trip() {
    let input = b"  const\n foo ";
    let mut lx = Lexer::new(input.to_vec());
    let t1 = lx.inner_next().unwrap().unwrap();
    assert_eq!((t1.span.start, t1.span.end), (2, 7));
    assert_eq!(lx.slice(&t1), b"const".to_vec());
    let t2 = lx.inner_next().unwrap().unwrap();
    assert_eq!((t2.span.start, t2.span.end), (9, 12));
    assert_eq!(lx.slice(&t2), b"foo".to_vec());
    assert_eq!(lx.inner_next(), None);
}

#[test]
fn raw_string_span_covers_delimiters() {
    let input = br##"r#"this is a raw string"#"##;
    let mut lx = Lexer::new(input.to_vec());
    let t = lx.inner_next().unwrap().unwrap();
    assert_eq!(t.kind, TokenKind::RawString);
    assert_eq!((t.span.start, t.span.end), (0, input.len()));
}

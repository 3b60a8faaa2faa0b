use zonefile::{ErrorKind, LexError, Lexer, Token};

fn all(input: &str) -> (Vec<Token>, Option<LexError>) {
    let mut lexer = Lexer::new(input);
    let mut tokens = Vec::new();
    loop {
        match lexer.next_token() {
            Ok(Some(Token::EOF)) => return (tokens, None),
            Ok(Some(token)) => tokens.push(token),
            Ok(None) => unreachable!(),
            Err(error) => return (tokens, Some(error)),
        }
    }
}

fn text(s: &str) -> Token {
    Token::Text(s.into())
}

fn name(s: &str) -> Token {
    Token::DomainName(s.into())
}

fn error(kind: ErrorKind, lineno: usize) -> Option<LexError> {
    Some(LexError { kind, lineno })
}

#[test]
fn origin_then_end() {
    let mut lexer = Lexer::new("$ORIGIN example.com.\n");
    assert_eq!(
        lexer.next_token(),
        Ok(Some(Token::Origin { domain_name: "example.com.".into(), lineno: 0 }))
    );
    assert_eq!(lexer.next_token(), Ok(Some(Token::EOF)));
}

#[test]
fn comment_then_end() {
    let mut lexer = Lexer::new("; hello\n");
    assert_eq!(lexer.next_token(), Ok(Some(Token::Comment)));
    assert_eq!(lexer.next_token(), Ok(Some(text(" hello"))));
    assert_eq!(lexer.next_token(), Ok(Some(Token::EOF)));
}

#[test]
fn ttl_directive() {
    assert_eq!(all("$TTL 3600\n"), (vec![Token::TTL { ttl: 3600, lineno: 0 }], None));
}

#[test]
fn ttl_bounds() {
    assert_eq!(all("$TTL 0"), (vec![Token::TTL { ttl: 0, lineno: 0 }], None));
    assert_eq!(all("$TTL 2147483647"), (vec![Token::TTL { ttl: 2147483647, lineno: 0 }], None));
    assert_eq!(all("$TTL 2147483648"), (vec![], error(ErrorKind::InvalidTtl, 0)));
    assert_eq!(all("$TTL 99999999999999999999999"), (vec![], error(ErrorKind::InvalidTtl, 0)));
    assert_eq!(all("$TTL 0003600 ; one hour"), (
        vec![Token::TTL { ttl: 3600, lineno: 0 }, Token::Comment, text(" one hour")],
        None,
    ));
}

#[test]
fn ttl_rejects_what_is_no_number() {
    assert_eq!(all("$TTL 36x\n"), (vec![], error(ErrorKind::InvalidTtl, 0)));
    assert_eq!(all("$TTL 1h\n"), (vec![], error(ErrorKind::InvalidTtl, 0)));
    assert_eq!(all("$TTL \n"), (vec![], error(ErrorKind::InvalidTtl, 0)));
    assert_eq!(all("\n\n$TTL -1\n"), (vec![], error(ErrorKind::InvalidTtl, 2)));
}

#[test]
fn unterminated_quote() {
    assert_eq!(all("\"abc\n"), (vec![], error(ErrorKind::UnterminatedQuote, 0)));
    assert_eq!(all("a\n b \"c\nd\ne"), (
        vec![name("a"), Token::Blank, text("b")],
        error(ErrorKind::UnterminatedQuote, 1),
    ));
}

#[test]
fn parentheses_continue_the_entry() {
    assert_eq!(all("a ( b\n  c )\n"), (
        vec![name("a"), Token::OpenParen, text("b"), text("c"), Token::CloseParen],
        None,
    ));
}

#[test]
fn line_break_outside_parentheses_ends_the_entry() {
    assert_eq!(all("a b\nc d\n e\n"), (
        vec![name("a"), text("b"), name("c"), text("d"), Token::Blank, text("e")],
        None,
    ));
}

#[test]
fn nested_parentheses() {
    assert_eq!(all("a ((b\n)\nc\n)\nd"), (
        vec![
            name("a"),
            Token::OpenParen,
            Token::OpenParen,
            text("b"),
            Token::CloseParen,
            text("c"),
            Token::CloseParen,
            name("d"),
        ],
        None,
    ));
}

#[test]
fn parentheses_end_a_field() {
    assert_eq!(all("a(b)c"), (
        vec![name("a"), Token::OpenParen, text("b"), Token::CloseParen, text("c")],
        None,
    ));
}

#[test]
fn unmatched_close() {
    assert_eq!(all("a )\n"), (vec![name("a")], error(ErrorKind::UnbalancedParenthesis, 0)));
    assert_eq!(all("a\nb ( c ) )"), (
        vec![name("a"), name("b"), Token::OpenParen, text("c"), Token::CloseParen],
        error(ErrorKind::UnbalancedParenthesis, 1),
    ));
    assert_eq!(all(")"), (vec![Token::Blank], error(ErrorKind::UnbalancedParenthesis, 0)));
}

#[test]
fn comment_inside_parentheses() {
    assert_eq!(all("a ( b ; one\n c ) d\ne"), (
        vec![
            name("a"),
            Token::OpenParen,
            text("b"),
            Token::Comment,
            text(" one"),
            text("c"),
            Token::CloseParen,
            text("d"),
            name("e"),
        ],
        None,
    ));
}

#[test]
fn escaped_character() {
    assert_eq!(all("a\\.b"), (vec![name("a.b")], None));
    assert_eq!(all("\\."), (vec![name(".")], None));
    assert_eq!(all("\\046"), (vec![name(".")], None));
    assert_eq!(all("\\.") , all("\\046"));
}

#[test]
fn escape_removes_special_meaning() {
    assert_eq!(
        all("a\\ b\\;c\\(d\\)e\\\"f\\\\g h"),
        (vec![name("a b;c(d)e\"f\\g"), text("h")], None)
    );
    assert_eq!(all("a\\\nb"), (vec![name("a\nb")], None));
    assert_eq!(all(" \\$x"), (vec![Token::Blank, text("$x")], None));
}

#[test]
fn decimal_escape() {
    assert_eq!(all("\\000\\255\\065"), (vec![Token::DomainName(vec![0, 255, 65])], None));
    assert_eq!(all("x \\200\\201"), (vec![name("x"), Token::Text(vec![200, 201])], None));
    assert_eq!(all("\\0650"), (vec![name("A0")], None));
}

#[test]
fn short_escape() {
    assert_eq!(all("\\04x"), (vec![], error(ErrorKind::InvalidOctalEscape, 0)));
    assert_eq!(all("\\04 "), (vec![], error(ErrorKind::InvalidOctalEscape, 0)));
    assert_eq!(all("\\04"), (vec![], error(ErrorKind::InvalidOctalEscape, 0)));
    assert_eq!(all("\\0"), (vec![], error(ErrorKind::InvalidOctalEscape, 0)));
    assert_eq!(all("\\0.1"), (vec![], error(ErrorKind::InvalidOctalEscape, 0)));
    assert_eq!(all("a\n b \\1\n"), (
        vec![name("a"), Token::Blank, text("b")],
        error(ErrorKind::InvalidOctalEscape, 1),
    ));
}

#[test]
fn escape_above_one_byte() {
    assert_eq!(all("\\256"), (vec![], error(ErrorKind::InvalidOctalEscape, 0)));
    assert_eq!(all("\\999"), (vec![], error(ErrorKind::InvalidOctalEscape, 0)));
}

#[test]
fn dangling_escape() {
    assert_eq!(all("\\"), (vec![], error(ErrorKind::DanglingEscape, 0)));
    assert_eq!(all("a\nb c\\"), (vec![name("a"), name("b")], error(ErrorKind::DanglingEscape, 1)));
    assert_eq!(all("\"a\n\\"), (vec![], error(ErrorKind::DanglingEscape, 1)));
}

#[test]
fn quoted_text_is_kept_verbatim() {
    assert_eq!(all("\"a b;c\td\" e"), (vec![name("a b;c\td"), text("e")], None));
    assert_eq!(all("x \"one\r\ntwo\n three ( ) $\" y"), (
        vec![name("x"), text("one\r\ntwo\n three ( ) $"), text("y")],
        None,
    ));
    assert_eq!(all("x \"\" y"), (vec![name("x"), text(""), text("y")], None));
}

#[test]
fn quoted_text_honours_escapes() {
    assert_eq!(all("x \"a\\\"b\\065\\\\\""), (vec![name("x"), text("a\"bA\\")], None));
    assert_eq!(all("x \"a\\25\""), (vec![name("x")], error(ErrorKind::InvalidOctalEscape, 0)));
}

#[test]
fn quote_inside_a_field() {
    assert_eq!(all("ab\"c d\"ef"), (vec![name("abc d"), text("ef")], None));
}

#[test]
fn line_numbers_count_line_feeds() {
    assert_eq!(all("\n\r\n$ORIGIN a.\n$TTL 5\r\n\n$INCLUDE f\n"), (
        vec![
            Token::Origin { domain_name: "a.".into(), lineno: 2 },
            Token::TTL { ttl: 5, lineno: 3 },
            Token::Include { file_name: "f".into(), domain_name: None, lineno: 5 },
        ],
        None,
    ));
    assert_eq!(all("a \"1\n2\n3\"\n$TTL x"), (
        vec![name("a"), text("1\n2\n3")],
        error(ErrorKind::InvalidTtl, 3),
    ));
}

#[test]
fn position_is_tracked() {
    let mut lexer = Lexer::new("ab cd\nef");
    assert_eq!((lexer.line(), lexer.column()), (0, 0));
    assert_eq!(lexer.next_token(), Ok(Some(name("ab"))));
    assert_eq!((lexer.line(), lexer.column()), (0, 2));
    assert_eq!(lexer.next_token(), Ok(Some(text("cd"))));
    assert_eq!((lexer.line(), lexer.column()), (0, 5));
    assert_eq!(lexer.next_token(), Ok(Some(name("ef"))));
    assert_eq!((lexer.line(), lexer.column()), (1, 2));
    assert_eq!(lexer.next_token(), Ok(Some(Token::EOF)));
    assert_eq!((lexer.line(), lexer.column()), (1, 2));
}

#[test]
fn include_directive() {
    assert_eq!(all("$INCLUDE db.sub sub.example. ; delegated\n"), (
        vec![
            Token::Include {
                file_name: "db.sub".into(),
                domain_name: Some("sub.example.".into()),
                lineno: 0,
            },
            Token::Comment,
            text(" delegated"),
        ],
        None,
    ));
    assert_eq!(all("$INCLUDE db.sub\n"), (
        vec![Token::Include { file_name: "db.sub".into(), domain_name: None, lineno: 0 }],
        None,
    ));
    assert_eq!(all("$INCLUDE \"my file\"\t\"\"  "), (
        vec![Token::Include {
            file_name: "my file".into(),
            domain_name: Some("".into()),
            lineno: 0,
        }],
        None,
    ));
    assert_eq!(all("$INCLUDE a\\ b ;x"), (
        vec![
            Token::Include { file_name: "a b".into(), domain_name: None, lineno: 0 },
            Token::Comment,
            text("x"),
        ],
        None,
    ));
}

#[test]
fn directive_arguments_follow_any_blanks() {
    assert_eq!(all("$ORIGIN \t  example.\n"), (
        vec![Token::Origin { domain_name: "example.".into(), lineno: 0 }],
        None,
    ));
    assert_eq!(all("$TTL\t\t60"), (vec![Token::TTL { ttl: 60, lineno: 0 }], None));
}

#[test]
fn unknown_directive() {
    assert_eq!(all("$GENERATE 1-2 a\n"), (vec![], error(ErrorKind::UnknownDirective, 0)));
    assert_eq!(all("$origin a.\n"), (vec![], error(ErrorKind::UnknownDirective, 0)));
    assert_eq!(all("$ a.\n"), (vec![], error(ErrorKind::UnknownDirective, 0)));
    assert_eq!(all("a\n$TTLS 1\n"), (vec![name("a")], error(ErrorKind::UnknownDirective, 1)));
}

#[test]
fn directive_cut_short() {
    assert_eq!(all("$ORIGIN"), (vec![], error(ErrorKind::UnexpectedEndOfLine, 0)));
    assert_eq!(all("$ORIGIN\n"), (vec![], error(ErrorKind::UnexpectedEndOfLine, 0)));
    assert_eq!(all("$TTL\r\n"), (vec![], error(ErrorKind::UnexpectedEndOfLine, 0)));
    assert_eq!(all("\n$"), (vec![], error(ErrorKind::UnexpectedEndOfLine, 1)));
}

#[test]
fn control_character() {
    assert_eq!(all("$ORI\u{7}GIN a"), (vec![], error(ErrorKind::UnexpectedControlCharacter, 0)));
    assert_eq!(all("a\u{0}b"), (vec![], error(ErrorKind::UnexpectedControlCharacter, 0)));
    assert_eq!(all("a\n\u{1b}"), (vec![name("a")], error(ErrorKind::UnexpectedControlCharacter, 1)));
    assert_eq!(all("a b\u{85}"), (vec![name("a")], error(ErrorKind::UnexpectedControlCharacter, 0)));
}

#[test]
fn control_character_in_comment_and_quote() {
    assert_eq!(all(";a\u{7}b\u{0}"), (vec![Token::Comment, text("a\u{7}b\u{0}")], None));
    assert_eq!(all("\"a\u{7}b\""), (vec![name("a\u{7}b")], None));
}

#[test]
fn carriage_return_is_absorbed() {
    assert_eq!(all("a b\r\nc\r\n"), (vec![name("a"), text("b"), name("c")], None));
    assert_eq!(all("; one\r\n; two\r"), (
        vec![Token::Comment, text(" one"), Token::Comment, text(" two")],
        None,
    ));
    assert_eq!(all("a\rb\n;x\ry\n"), (
        vec![name("a"), text("b"), Token::Comment, text("xy")],
        None,
    ));
    assert_eq!(all("\r\ra"), (vec![name("a")], None));
}

#[test]
fn blank_lines_are_passed_over() {
    assert_eq!(all(""), (vec![], None));
    assert_eq!(all("\n\n\n"), (vec![], None));
    assert_eq!(all("\n\na\n\n\nb\n\n"), (vec![name("a"), name("b")], None));
}

#[test]
fn line_of_blanks() {
    assert_eq!(all("  \t \n"), (vec![Token::Blank], None));
    assert_eq!(all(" ; note\n"), (vec![Token::Blank, Token::Comment, text(" note")], None));
}

#[test]
fn blank_keeps_the_owner() {
    assert_eq!(all("www IN A 192.0.2.1\n    IN AAAA 2001:db8::1\n"), (
        vec![
            name("www"),
            text("IN"),
            text("A"),
            text("192.0.2.1"),
            Token::Blank,
            text("IN"),
            text("AAAA"),
            text("2001:db8::1"),
        ],
        None,
    ));
}

#[test]
fn at_sign_is_passed_through() {
    assert_eq!(all("@ IN NS @\n"), (vec![name("@"), text("IN"), text("NS"), text("@")], None));
}

#[test]
fn trailing_blanks_are_in_no_token() {
    assert_eq!(all("a b   \t ; c\n"), (
        vec![name("a"), text("b"), Token::Comment, text(" c")],
        None,
    ));
    assert_eq!(all("a b   \t \n"), (vec![name("a"), text("b")], None));
}

#[test]
fn comment_ends_a_field() {
    assert_eq!(all("a;b\n"), (vec![name("a"), Token::Comment, text("b")], None));
    assert_eq!(all(";\n"), (vec![Token::Comment, text("")], None));
    assert_eq!(all(";"), (vec![Token::Comment, text("")], None));
}

#[test]
fn text_beyond_ascii_is_utf8() {
    assert_eq!(all("b\u{fc}cher \u{20ac} \u{1f600}"), (
        vec![
            Token::DomainName(vec![b'b', 0xc3, 0xbc, b'c', b'h', b'e', b'r']),
            Token::Text(vec![0xe2, 0x82, 0xac]),
            Token::Text(vec![0xf0, 0x9f, 0x98, 0x80]),
        ],
        None,
    ));
    assert_eq!(all("; \u{e9}"), (vec![Token::Comment, text(" \u{e9}")], None));
    assert_eq!(all("\\\u{e9}"), (vec![name("\u{e9}")], None));
}

#[test]
fn dollar_inside_a_line_is_text() {
    assert_eq!(all("a $TTL 5"), (vec![name("a"), text("$TTL"), text("5")], None));
}

#[test]
fn end_of_input_is_final() {
    let mut lexer = Lexer::new("a");
    assert_eq!(lexer.next_token(), Ok(Some(name("a"))));
    assert_eq!(lexer.next_token(), Ok(Some(Token::EOF)));
    assert_eq!(lexer.next_token(), Ok(Some(Token::EOF)));
    assert_eq!(lexer.next_token(), Ok(Some(Token::EOF)));
}

#[test]
fn end_of_input_inside_parentheses() {
    assert_eq!(all("a ( b\n"), (vec![name("a"), Token::OpenParen, text("b")], None));
}

#[test]
fn error_is_final() {
    let mut lexer = Lexer::new("a )\nb c\n");
    assert_eq!(lexer.next_token(), Ok(Some(name("a"))));
    let error = LexError { kind: ErrorKind::UnbalancedParenthesis, lineno: 0 };
    assert_eq!(lexer.next_token(), Err(error));
    assert_eq!(lexer.next_token(), Err(error));
    assert_eq!(lexer.next_token(), Err(error));
}

#[test]
fn every_input_is_lexed_to_its_end() {
    let inputs = [
        "",
        "\n",
        " ",
        ";",
        "$",
        "(",
        ")",
        "\"",
        "\\",
        "a ( b ; c\n d ) e\n f\n",
        "$INCLUDE ;x\n( ( (\n\n\n) ) )\n",
        "  ;;;\r\r\n\t(\t)\t\"\"\t\\\\\n",
        "$TTL 1 2 3 ( 4 )\n$ORIGIN . ; x\n@ \"a b\" \\000",
    ];
    for input in inputs {
        let mut lexer = Lexer::new(input);
        let bound = 3 * input.chars().count() + 3;
        let mut calls = 0;
        loop {
            calls += 1;
            assert!(calls <= bound);
            match lexer.next_token() {
                Ok(Some(Token::EOF)) | Err(_) => break,
                Ok(_) => {}
            }
        }
    }
}

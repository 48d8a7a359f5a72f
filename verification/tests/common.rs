use strim::arguments::Arguments;
use strim::engine::NormalizedOutput;
use strim::token::{Lit, ParseError, Token};

fn str_lit(s: &str) -> Token {
    Token::Literal(Lit::Str(String::from(s)))
}

fn bytes_lit(b: &[u8]) -> Token {
    Token::Literal(Lit::ByteStr(b.to_vec()))
}

fn byte_lit(b: u8) -> Token {
    Token::Literal(Lit::Byte(b))
}

fn char_lit(c: char) -> Token {
    Token::Literal(Lit::Char(c))
}

fn other_lit() -> Token {
    Token::Literal(Lit::Other)
}

fn ident(s: &str) -> Token {
    Token::Ident(String::from(s))
}

fn text_out(tokens: Vec<Token>) -> String {
    let arguments = Arguments::parse(&tokens).unwrap();
    match strim::trim(arguments).unwrap() {
        NormalizedOutput::Text(out) => out,
        _ => panic!("expected a text output"),
    }
}

fn bytes_out(tokens: Vec<Token>) -> Vec<u8> {
    let arguments = Arguments::parse(&tokens).unwrap();
    match strim::trim(arguments).unwrap() {
        NormalizedOutput::ByteSequence(out) => out,
        _ => panic!("expected a byte-sequence output"),
    }
}

fn parse_error(tokens: Vec<Token>) -> ParseError {
    Arguments::parse(&tokens).unwrap_err()
}

#[test]
fn tests_no_arguments() {
    assert_eq!(parse_error(vec![]), ParseError::ExpectedInputLiteral);
}

#[test]
fn tests_too_many_arguments() {
    assert_eq!(
        parse_error(vec![str_lit("hello"), str_lit("world")]),
        ParseError::ExpectedCommaOrEnd
    );
}

#[test]
fn common_no_arguments() {
    assert_eq!(parse_error(vec![]), ParseError::ExpectedInputLiteral);
}

#[test]
fn common_too_many_arguments() {
    assert_eq!(
        parse_error(vec![str_lit("hello"), str_lit("world")]),
        ParseError::ExpectedCommaOrEnd
    );
}

#[test]
fn valid_cases() {
    assert_eq!(
        text_out(vec![str_lit("
                                Lorem ipsum dolor s
                            it amet
                        , consectetur adipisc
                    ing elit, sed do eiusmod tem
                por incididunt ut labore et do
            lore magna al
        iqua. Ut en
    im ad minim ven
iam, quis nostrud exercitation ullamco la

boris nisi ut aliquip ex ea commodo consequat\r\n. Duis a\t\t\t
ute irure dolor in reprehenderit in voluptate velit es\u{2000}\u{2009}
se cillum dolore eu fugiat nulla pariatur.

        ")]),
        "Lorem ipsum dolor sit amet, consectetur adipiscing elit, sed do \
         eiusmod tempor incididunt ut labore et dolore magna aliqua. Ut enim \
         ad minim veniam, quis nostrud exercitation ullamco laboris nisi ut \
         aliquip ex ea commodo consequat. Duis aute irure dolor in \
         reprehenderit in voluptate velit esse cillum dolore eu fugiat nulla \
         pariatur."
    );
}

#[test]
fn valid_string() {
    assert_eq!(
        text_out(vec![str_lit("
                                Lorem ipsum dolor s
                            it amet
                        , consectetur adipisc
                    ing elit, sed do eiusmod tem
                por incididunt ut labore et do
            lore magna al
        iqua. Ut en
    im ad minim ven
iam, quis nostrud exercitation ullamco la

boris nisi ut aliquip ex ea commodo consequat\r\n. Duis a\t\t\t
ute irure dolor in reprehenderit in voluptate velit es\u{2000}\u{2009}
se cillum dolore eu fugiat nulla pariatur.

        ")]),
        "Lorem ipsum dolor sit amet, consectetur adipiscing elit, sed do \
         eiusmod tempor incididunt ut labore et dolore magna aliqua. Ut enim \
         ad minim veniam, quis nostrud exercitation ullamco laboris nisi ut \
         aliquip ex ea commodo consequat. Duis aute irure dolor in \
         reprehenderit in voluptate velit esse cillum dolore eu fugiat nulla \
         pariatur."
    );
}

#[test]
fn valid_string_and_trailing_comma() {
    assert_eq!(
        text_out(vec![str_lit("Hello,
             World!"), Token::Comma]),
        "Hello,World!"
    );
}

#[test]
fn invalid_trailing_commas_for_string() {
    assert_eq!(
        parse_error(vec![str_lit("hello"), Token::Comma, Token::Comma]),
        ParseError::ExpectedNamedParameterOrEnd
    );
}

#[test]
fn invalid_named_parameter_for_string() {
    assert_eq!(
        parse_error(vec![str_lit("hello"), Token::Comma, ident("hello")]),
        ParseError::ExpectedNamedParameter
    );
}

#[test]
fn incomplete_join_with_for_string() {
    assert_eq!(
        parse_error(vec![str_lit("hello"), Token::Comma, ident("join_with")]),
        ParseError::ExpectedAssignment
    );
    assert_eq!(
        parse_error(vec![str_lit("hello"), Token::Comma, ident("join_with"), Token::Eq]),
        ParseError::InvalidStringDelimiter
    );
}

#[test]
fn invalid_assignment_for_join_with_for_string() {
    assert_eq!(
        parse_error(vec![
            str_lit("hello"),
            Token::Comma,
            ident("join_with"),
            Token::Other,
            char_lit('\n'),
        ]),
        ParseError::ExpectedAssignmentOperator
    );
}

#[test]
fn invalid_delimiter_for_join_with_for_string() {
    assert_eq!(
        parse_error(vec![str_lit("hello"), Token::Comma, ident("join_with"), Token::Eq, Token::Other]),
        ParseError::InvalidStringDelimiter
    );
    assert_eq!(
        parse_error(vec![
            str_lit("hello"),
            Token::Comma,
            ident("join_with"),
            Token::Eq,
            other_lit(),
            Token::Other,
            other_lit(),
        ]),
        ParseError::InvalidStringDelimiter
    );
}

#[test]
fn valid_string_joined_with_character() {
    // Without trailing comma
    assert_eq!(
        text_out(vec![str_lit("What
             When
             Where
             Who
             Whom
             Which
             Whose
             Why
             How
             I don't know!"), Token::Comma, ident("join_with"), Token::Eq, char_lit('?')]),
        "What?When?Where?Who?Whom?Which?Whose?Why?How?I don't know!",
    );

    // With trailing comma
    assert_eq!(
        text_out(vec![
            str_lit("
                                Lorem ipsum dolor s
                            it amet
                        , consectetur adipisc
                    ing elit, sed do eiusmod tem
                por incididunt ut labore et do
            lore magna al
        iqua. Ut en
    im ad minim ven
iam, quis nostrud exercitation ullamco la

boris nisi ut aliquip ex ea commodo consequat\r\n. Duis a\t\t\t
ute irure dolor in reprehenderit in voluptate velit es\u{2000}\u{2009}
se cillum dolore eu fugiat nulla pariatur.

            "),
            Token::Comma,
            ident("join_with"),
            Token::Eq,
            char_lit('|'),
            Token::Comma,
        ]),
        "Lorem ipsum dolor s|it amet|, consectetur adipisc|ing elit, sed do \
         eiusmod tem|por incididunt ut labore et do|lore magna al|iqua. Ut \
         en|im ad minim ven|iam, quis nostrud exercitation ullamco la|boris \
         nisi ut aliquip ex ea commodo consequat|. Duis a|ute irure dolor in \
         reprehenderit in voluptate velit es|se cillum dolore eu fugiat nulla \
         pariatur."
    );
}

#[test]
fn valid_string_joined_with_string() {
    // Without trailing comma
    assert_eq!(
        text_out(vec![str_lit("What
             When
             Where
             Who
             Whom
             Which
             Whose
             Why
             How
             I don't know!"), Token::Comma, ident("join_with"), Token::Eq, str_lit("? ")]),
        "What? When? Where? Who? Whom? Which? Whose? Why? How? I don't know!",
    );

    // With trailing comma
    assert_eq!(
        text_out(vec![
            str_lit("
                                Lorem ipsum dolor s
                            it amet
                        , consectetur adipisc
                    ing elit, sed do eiusmod tem
                por incididunt ut labore et do
            lore magna al
        iqua. Ut en
    im ad minim ven
iam, quis nostrud exercitation ullamco la

boris nisi ut aliquip ex ea commodo consequat\r\n. Duis a\t\t\t
ute irure dolor in reprehenderit in voluptate velit es\u{2000}\u{2009}
se cillum dolore eu fugiat nulla pariatur.

            "),
            Token::Comma,
            ident("join_with"),
            Token::Eq,
            str_lit("<|>"),
            Token::Comma,
        ]),
        "Lorem ipsum dolor s<|>it amet<|>, consectetur adipisc<|>ing elit, sed \
         do eiusmod tem<|>por incididunt ut labore et do<|>lore magna \
         al<|>iqua. Ut en<|>im ad minim ven<|>iam, quis nostrud exercitation \
         ullamco la<|>boris nisi ut aliquip ex ea commodo consequat<|>. Duis \
         a<|>ute irure dolor in reprehenderit in voluptate velit es<|>se \
         cillum dolore eu fugiat nulla pariatur."
    );
}

#[test]
fn invalid_trailing_commas_after_join_with_for_string() {
    assert_eq!(
        parse_error(vec![
            str_lit("hello"),
            Token::Comma,
            ident("join_with"),
            Token::Eq,
            char_lit('\n'),
            Token::Comma,
            Token::Comma,
        ]),
        ParseError::ExpectedEnd
    );
    assert_eq!(
        parse_error(vec![
            str_lit("hello"),
            Token::Comma,
            ident("join_with"),
            Token::Eq,
            str_lit("\r\n"),
            Token::Comma,
            Token::Comma,
        ]),
        ParseError::ExpectedEnd
    );
}

#[test]
fn valid_byte_string() {
    assert_eq!(
        bytes_out(vec![bytes_lit(b"
                                Lorem ipsum dolor s
                            it amet
                        , consectetur adipisc
                    ing elit, sed do eiusmod tem
                por incididunt ut labore et do
            lore magna al
        iqua. Ut en
    im ad minim ven
iam, quis nostrud exercitation ullamco la

boris nisi ut aliquip ex ea commodo consequat\r\n. Duis a\t\t\t
ute irure dolor in reprehenderit in voluptate velit es\x0C
se cillum dolore eu fugiat nulla pariatur.

        ")]),
        b"Lorem ipsum dolor sit amet, consectetur adipiscing elit, sed do \
          eiusmod tempor incididunt ut labore et dolore magna aliqua. Ut enim \
          ad minim veniam, quis nostrud exercitation ullamco laboris nisi ut \
          aliquip ex ea commodo consequat. Duis aute irure dolor in \
          reprehenderit in voluptate velit esse cillum dolore eu fugiat nulla \
          pariatur.".to_vec(),
    );
}

#[test]
fn valid_byte_string_and_trailing_comma() {
    assert_eq!(
        bytes_out(vec![bytes_lit(b"Hello,
              World!"), Token::Comma]),
        b"Hello,World!".to_vec()
    );
}

#[test]
fn invalid_trailing_commas_for_byte_string() {
    assert_eq!(
        parse_error(vec![bytes_lit(b"hello"), Token::Comma, Token::Comma]),
        ParseError::ExpectedNamedParameterOrEnd
    );
}

#[test]
fn invalid_named_parameter_for_byte_string() {
    assert_eq!(
        parse_error(vec![bytes_lit(b"hello"), Token::Comma, ident("hello")]),
        ParseError::ExpectedNamedParameter
    );
}

#[test]
fn incomplete_join_with_for_byte_string() {
    assert_eq!(
        parse_error(vec![bytes_lit(b"hello"), Token::Comma, ident("join_with")]),
        ParseError::ExpectedAssignment
    );
    assert_eq!(
        parse_error(vec![bytes_lit(b"hello"), Token::Comma, ident("join_with"), Token::Eq]),
        ParseError::InvalidByteStringDelimiter
    );
}

#[test]
fn invalid_assignment_for_join_with_for_byte_string() {
    assert_eq!(
        parse_error(vec![
            bytes_lit(b"hello"),
            Token::Comma,
            ident("join_with"),
            Token::Other,
            char_lit('\n'),
        ]),
        ParseError::ExpectedAssignmentOperator
    );
}

#[test]
fn invalid_delimiter_for_join_with_for_byte_string() {
    assert_eq!(
        parse_error(vec![
            bytes_lit(b"hello"),
            Token::Comma,
            ident("join_with"),
            Token::Eq,
            Token::Other,
        ]),
        ParseError::InvalidByteStringDelimiter
    );
    assert_eq!(
        parse_error(vec![
            bytes_lit(b"hello"),
            Token::Comma,
            ident("join_with"),
            Token::Eq,
            other_lit(),
            Token::Other,
            other_lit(),
        ]),
        ParseError::InvalidByteStringDelimiter
    );
}

#[test]
fn valid_byte_string_joined_with_byte() {
    // Without trailing comma
    assert_eq!(
        bytes_out(vec![bytes_lit(b"What
              When
              Where
              Who
              Whom
              Which
              Whose
              Why
              How
              I don't know!"), Token::Comma, ident("join_with"), Token::Eq, byte_lit(b'?')]),
        b"What?When?Where?Who?Whom?Which?Whose?Why?How?I don't know!".to_vec(),
    );

    // With trailing comma
    assert_eq!(
        bytes_out(vec![
            bytes_lit(b"
                                Lorem ipsum dolor s
                            it amet
                        , consectetur adipisc
                    ing elit, sed do eiusmod tem
                por incididunt ut labore et do
            lore magna al
        iqua. Ut en
    im ad minim ven
iam, quis nostrud exercitation ullamco la

boris nisi ut aliquip ex ea commodo consequat\r\n. Duis a\t\t\t
ute irure dolor in reprehenderit in voluptate velit es\x0C
se cillum dolore eu fugiat nulla pariatur.

            "),
            Token::Comma,
            ident("join_with"),
            Token::Eq,
            byte_lit(b'|'),
            Token::Comma,
        ]),
        b"Lorem ipsum dolor s|it amet|, consectetur adipisc|ing elit, sed do \
          eiusmod tem|por incididunt ut labore et do|lore magna al|iqua. Ut \
          en|im ad minim ven|iam, quis nostrud exercitation ullamco la|boris \
          nisi ut aliquip ex ea commodo consequat|. Duis a|ute irure dolor in \
          reprehenderit in voluptate velit es|se cillum dolore eu fugiat nulla \
          pariatur.".to_vec()
    );
}

#[test]
fn valid_string_joined_with_byte_string() {
    // Without trailing comma
    assert_eq!(
        bytes_out(vec![
            bytes_lit(b"What
              When
              Where
              Who
              Whom
              Which
              Whose
              Why
              How
              I don't know!"),
            Token::Comma,
            ident("join_with"),
            Token::Eq,
            bytes_lit(b"? "),
        ]),
        b"What? When? Where? Who? Whom? Which? Whose? Why? How? I don't know!".to_vec(),
    );

    // With trailing comma
    assert_eq!(
        bytes_out(vec![
            bytes_lit(b"
                                Lorem ipsum dolor s
                            it amet
                        , consectetur adipisc
                    ing elit, sed do eiusmod tem
                por incididunt ut labore et do
            lore magna al
        iqua. Ut en
    im ad minim ven
iam, quis nostrud exercitation ullamco la

boris nisi ut aliquip ex ea commodo consequat\r\n. Duis a\t\t\t
ute irure dolor in reprehenderit in voluptate velit es\x0C
se cillum dolore eu fugiat nulla pariatur.

            "),
            Token::Comma,
            ident("join_with"),
            Token::Eq,
            bytes_lit(b"<|>"),
            Token::Comma,
        ]),
        b"Lorem ipsum dolor s<|>it amet<|>, consectetur adipisc<|>ing elit, \
          sed do eiusmod tem<|>por incididunt ut labore et do<|>lore magna \
          al<|>iqua. Ut en<|>im ad minim ven<|>iam, quis nostrud exercitation \
          ullamco la<|>boris nisi ut aliquip ex ea commodo consequat<|>. Duis \
          a<|>ute irure dolor in reprehenderit in voluptate velit es<|>se \
          cillum dolore eu fugiat nulla pariatur.".to_vec()
    );
}

#[test]
fn invalid_trailing_commas_after_join_with_for_byte_string() {
    assert_eq!(
        parse_error(vec![
            bytes_lit(b"hello"),
            Token::Comma,
            ident("join_with"),
            Token::Eq,
            byte_lit(b'\n'),
            Token::Comma,
            Token::Comma,
        ]),
        ParseError::ExpectedEnd
    );
    assert_eq!(
        parse_error(vec![
            bytes_lit(b"hello"),
            Token::Comma,
            ident("join_with"),
            Token::Eq,
            bytes_lit(b"\r\n"),
            Token::Comma,
            Token::Comma,
        ]),
        ParseError::ExpectedEnd
    );
}

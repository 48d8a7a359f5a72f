use strim::arguments::Arguments;
use strim::engine::NormalizedOutput;
use strim::token::{Lit, ParseError, Token};

fn cstr_lit(interior: &[u8]) -> Token {
    let mut v = interior.to_vec();
    v.push(0);
    Token::Literal(Lit::CStr(v))
}

fn byte_lit(b: u8) -> Token {
    Token::Literal(Lit::Byte(b))
}

fn char_lit(c: char) -> Token {
    Token::Literal(Lit::Char(c))
}

fn other_lit() -> Token {
    Token::Literal(Lit::Other)
}

fn ident(s: &str) -> Token {
    Token::Ident(String::from(s))
}

fn nul_terminated(interior: &[u8]) -> Vec<u8> {
    let mut v = interior.to_vec();
    v.push(0);
    v
}

fn c_out(tokens: Vec<Token>) -> Vec<u8> {
    let arguments = Arguments::parse(&tokens).unwrap();
    match strim::trim(arguments).unwrap() {
        NormalizedOutput::NulTerminatedByteSequence(out) => out,
        _ => panic!("expected a nul-terminated output"),
    }
}

fn parse_error(tokens: Vec<Token>) -> ParseError {
    Arguments::parse(&tokens).unwrap_err()
}

#[test]
fn c_string_valid() {
    assert_eq!(
        c_out(vec![cstr_lit(b"
                                Lorem ipsum dolor s
                            it amet
                        , consectetur adipisc
                    ing elit, sed do eiusmod tem
                por incididunt ut labore et do
            lore magna al
        iqua. Ut en
    im ad minim ven
iam, quis nostrud exercitation ullamco la

boris nisi ut aliquip ex ea commodo consequat\r\n. Duis a\t\t\t
ute irure dolor in reprehenderit in voluptate velit es\x0C
se cillum dolore eu fugiat nulla pariatur.

        ")]),
        nul_terminated(b"Lorem ipsum dolor sit amet, consectetur adipiscing elit, sed do \
          eiusmod tempor incididunt ut labore et dolore magna aliqua. Ut enim \
          ad minim veniam, quis nostrud exercitation ullamco laboris nisi ut \
          aliquip ex ea commodo consequat. Duis aute irure dolor in \
          reprehenderit in voluptate velit esse cillum dolore eu fugiat nulla \
          pariatur."),
    );
}

#[test]
fn c_string_valid_and_trailing_comma() {
    assert_eq!(
        c_out(vec![cstr_lit(b"Hello,
              World!"), Token::Comma]),
        nul_terminated(b"Hello,World!")
    );
}

#[test]
fn c_string_invalid_trailing_commas() {
    assert_eq!(
        parse_error(vec![cstr_lit(b"hello"), Token::Comma, Token::Comma]),
        ParseError::ExpectedNamedParameterOrEnd
    );
}

#[test]
fn c_string_invalid_named_parameter() {
    assert_eq!(
        parse_error(vec![cstr_lit(b"hello"), Token::Comma, ident("hello")]),
        ParseError::ExpectedNamedParameter
    );
}

#[test]
fn c_string_incomplete_join_with() {
    assert_eq!(
        parse_error(vec![cstr_lit(b"hello"), Token::Comma, ident("join_with")]),
        ParseError::ExpectedAssignment
    );
    assert_eq!(
        parse_error(vec![cstr_lit(b"hello"), Token::Comma, ident("join_with"), Token::Eq]),
        ParseError::InvalidCStringDelimiter
    );
}

#[test]
fn c_string_invalid_assignment_for_join_with() {
    assert_eq!(
        parse_error(vec![
            cstr_lit(b"hello"),
            Token::Comma,
            ident("join_with"),
            Token::Other,
            char_lit('\n'),
        ]),
        ParseError::ExpectedAssignmentOperator
    );
}

#[test]
fn c_string_invalid_delimiter_for_join_with() {
    assert_eq!(
        parse_error(vec![
            cstr_lit(b"hello"),
            Token::Comma,
            ident("join_with"),
            Token::Eq,
            Token::Other,
        ]),
        ParseError::InvalidCStringDelimiter
    );
    assert_eq!(
        parse_error(vec![
            cstr_lit(b"hello"),
            Token::Comma,
            ident("join_with"),
            Token::Eq,
            other_lit(),
            Token::Other,
            other_lit(),
        ]),
        ParseError::InvalidCStringDelimiter
    );
}

#[test]
fn invalid_nul_terminator_delimiter_for_join_with() {
    assert_eq!(
        parse_error(vec![
            cstr_lit(b"hello"),
            Token::Comma,
            ident("join_with"),
            Token::Eq,
            byte_lit(0),
        ]),
        ParseError::NulTerminatorDelimiter
    );
}

#[test]
fn c_string_valid_joined_with_byte() {
    // Without trailing comma
    assert_eq!(
        c_out(vec![cstr_lit(b"What
              When
              Where
              Who
              Whom
              Which
              Whose
              Why
              How
              I don't know!"), Token::Comma, ident("join_with"), Token::Eq, byte_lit(b'?')]),
        nul_terminated(b"What?When?Where?Who?Whom?Which?Whose?Why?How?I don't know!"),
    );

    // With trailing comma
    assert_eq!(
        c_out(vec![
            cstr_lit(b"
                                Lorem ipsum dolor s
                            it amet
                        , consectetur adipisc
                    ing elit, sed do eiusmod tem
                por incididunt ut labore et do
            lore magna al
        iqua. Ut en
    im ad minim ven
iam, quis nostrud exercitation ullamco la

boris nisi ut aliquip ex ea commodo consequat\r\n. Duis a\t\t\t
ute irure dolor in reprehenderit in voluptate velit es\x0C
se cillum dolore eu fugiat nulla pariatur.

            "),
            Token::Comma,
            ident("join_with"),
            Token::Eq,
            byte_lit(b'|'),
            Token::Comma,
        ]),
        nul_terminated(b"Lorem ipsum dolor s|it amet|, consectetur adipisc|ing elit, sed do \
          eiusmod tem|por incididunt ut labore et do|lore magna al|iqua. Ut \
          en|im ad minim ven|iam, quis nostrud exercitation ullamco la|boris \
          nisi ut aliquip ex ea commodo consequat|. Duis a|ute irure dolor in \
          reprehenderit in voluptate velit es|se cillum dolore eu fugiat nulla \
          pariatur.")
    );
}

#[test]
fn c_string_valid_joined_with_byte_string() {
    // Without trailing comma
    assert_eq!(
        c_out(vec![
            cstr_lit(b"What
              When
              Where
              Who
              Whom
              Which
              Whose
              Why
              How
              I don't know!"),
            Token::Comma,
            ident("join_with"),
            Token::Eq,
            cstr_lit(b"? "),
        ]),
        nul_terminated(b"What? When? Where? Who? Whom? Which? Whose? Why? How? I don't know!"),
    );

    // With trailing comma
    assert_eq!(
        c_out(vec![
            cstr_lit(b"
                                Lorem ipsum dolor s
                            it amet
                        , consectetur adipisc
                    ing elit, sed do eiusmod tem
                por incididunt ut labore et do
            lore magna al
        iqua. Ut en
    im ad minim ven
iam, quis nostrud exercitation ullamco la

boris nisi ut aliquip ex ea commodo consequat\r\n. Duis a\t\t\t
ute irure dolor in reprehenderit in voluptate velit es\x0C
se cillum dolore eu fugiat nulla pariatur.

            "),
            Token::Comma,
            ident("join_with"),
            Token::Eq,
            cstr_lit(b"<|>"),
            Token::Comma,
        ]),
        nul_terminated(b"Lorem ipsum dolor s<|>it amet<|>, consectetur adipisc<|>ing elit, \
          sed do eiusmod tem<|>por incididunt ut labore et do<|>lore magna \
          al<|>iqua. Ut en<|>im ad minim ven<|>iam, quis nostrud exercitation \
          ullamco la<|>boris nisi ut aliquip ex ea commodo consequat<|>. Duis \
          a<|>ute irure dolor in reprehenderit in voluptate velit es<|>se \
          cillum dolore eu fugiat nulla pariatur.")
    );
}

#[test]
fn c_string_invalid_trailing_commas_after_join_with() {
    assert_eq!(
        parse_error(vec![
            cstr_lit(b"hello"),
            Token::Comma,
            ident("join_with"),
            Token::Eq,
            char_lit('\n'),
            Token::Comma,
            Token::Comma,
        ]),
        ParseError::InvalidCStringDelimiter
    );
    assert_eq!(
        parse_error(vec![
            cstr_lit(b"hello"),
            Token::Comma,
            ident("join_with"),
            Token::Eq,
            cstr_lit(b"\r\n"),
            Token::Comma,
            Token::Comma,
        ]),
        ParseError::ExpectedEnd
    );
}

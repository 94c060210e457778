use genuine::{ParseError, Parser, Part};

#[test]
#[should_panic]
fn consume_rejects_unexpected_byte() {
    Parser::new(b"BBB")
        .consume(b'A')
        .expect("could not consume b'A'");
}

#[test]
fn consume_takes_first_byte() {
    let mut parser = Parser::new(b"ABB");
    assert_eq!(parser.consume(b'A'), Ok(b'A'));
    assert_eq!(parser.cursor(), 1);
}

#[test]
fn skip_while_skips_while_predicate_is_true() {
    let mut parser = Parser::new(b"ABC123");
    parser.skip_while(|x| x.is_ascii_alphabetic());
    assert_eq!(parser.cursor(), 3);
}

#[test]
fn segment_does_not_consume_slash() {
    let mut parser = Parser::new(b"abc/def/");
    parser.segment();
    assert_eq!(parser.cursor(), 3);
}

fn parse_path_and_compare(path: &str, expected: &[Part]) {
    let parts = Parser::new(path.as_bytes()).parse().unwrap();
    assert_eq!(expected, &parts);
}

#[test]
fn parse_literal_url_path() {
    const PATH: &str = "/url/path/to/parse";
    let expected = &[Part::Literal(PATH.into())];
    parse_path_and_compare(PATH, expected);
}

#[test]
fn parse_literal_url_path_with_trailing_slash() {
    const PATH: &str = "/url/path/to/parse/";
    let expected = &[Part::Literal(PATH.into())];
    parse_path_and_compare(PATH, expected);
}

#[test]
fn parse_literal_url_path_without_leading_slash() {
    let mut parser = Parser::new(b"url/path/to/parse/");
    assert_eq!(parser.parse(), Err(ParseError::IsNotAbsolute));
}

#[test]
fn path_url_path_with_trailing_parameter() {
    const PREFIX: &str = "/url/with/";
    const PARAM: &str = "parameters";

    let expected = &[
        Part::Literal(PREFIX.into()),
        Part::Param { name: PARAM.into() },
    ];

    parse_path_and_compare(&format!("{}{{{}}}", PREFIX, PARAM), expected);
}

#[test]
fn root_path_is_valid() {
    let mut parser = Parser::new(b"/");
    assert_eq!(parser.parse(), Ok(Vec::new()));
}

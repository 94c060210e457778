use genuine::{Match, ParseError, Parser, Part, Path};

fn compile(pattern: &str) -> Path {
    Path::new(pattern.to_string()).unwrap()
}

fn parse(pattern: &str) -> Result<Vec<Part>, ParseError> {
    Parser::new(pattern.as_bytes()).parse()
}

fn literal(text: &str) -> Part {
    Part::Literal(text.as_bytes().to_vec())
}

fn param(name: &str) -> Part {
    Part::Param { name: name.to_string() }
}

fn capture(name: &str, value: &str) -> Match {
    Match { name: name.to_string(), value: value.to_string() }
}

#[test]
fn root_compiles_to_no_parts() {
    assert_eq!(parse("/"), Ok(vec![]));
}

#[test]
fn root_matches_only_the_root() {
    let root = compile("/");
    assert_eq!(root.matches("/"), Some(vec![]));
    assert_eq!(root.matches(""), None);
    assert_eq!(root.matches("/a"), None);
    assert_eq!(root.matches("//"), None);
}

#[test]
fn pattern_must_be_absolute() {
    assert_eq!(parse("url/path"), Err(ParseError::IsNotAbsolute));
    assert_eq!(parse("//x"), Err(ParseError::IsNotAbsolute));
    assert_eq!(parse("//"), Err(ParseError::IsNotAbsolute));
    assert_eq!(parse(""), Err(ParseError::IsNotAbsolute));
    assert_eq!(parse("{id}"), Err(ParseError::IsNotAbsolute));
    assert!(Path::new("url/path".to_string()).is_err());
}

#[test]
fn parameter_between_literals() {
    assert_eq!(parse("/a/{id}/b"), Ok(vec![literal("/a/"), param("id"), literal("/b")]));
    let path = compile("/a/{id}/b");
    assert_eq!(path.matches("/a/42/b"), Some(vec![capture("id", "42")]));
    assert_eq!(path.matches("/a/42/c"), None);
    assert_eq!(path.matches("/a/42"), None);
    assert_eq!(path.matches("/a/42/b/"), None);
}

#[test]
fn parameter_may_capture_nothing() {
    let path = compile("/a/{id}/b");
    assert_eq!(path.matches("/a//b"), Some(vec![capture("id", "")]));
    assert_eq!(compile("/{id}").matches("/"), Some(vec![capture("id", "")]));
}

#[test]
fn trailing_parameter() {
    let path = compile("/url/with/{parameters}");
    assert_eq!(path.matches("/url/with/xyz"), Some(vec![capture("parameters", "xyz")]));
    assert_eq!(path.matches("/url/with/xyz/extra"), None);
    assert_eq!(path.matches("/url/with"), None);
}

#[test]
fn parameter_stops_at_the_slash() {
    let path = compile("/{a}/{b}");
    assert_eq!(parse("/{a}/{b}"), Ok(vec![literal("/"), param("a"), literal("/"), param("b")]));
    assert_eq!(path.matches("/x/y"), Some(vec![capture("a", "x"), capture("b", "y")]));
    assert_eq!(path.matches("/x"), None);
    assert_eq!(path.matches("/x/y/z"), None);
}

#[test]
fn duplicate_names_give_duplicate_matches() {
    let path = compile("/{id}/{id}");
    assert_eq!(path.matches("/1/2"), Some(vec![capture("id", "1"), capture("id", "2")]));
}

#[test]
fn name_must_start_with_a_letter() {
    assert_eq!(
        parse("/{1abc}"),
        Err(ParseError::Expected { expected: "an ASCII letter", actual: b'1', pos: 2 })
    );
    assert_eq!(
        parse("/{}"),
        Err(ParseError::Expected { expected: "an ASCII letter", actual: b'}', pos: 2 })
    );
    assert_eq!(parse("/{a1b2}"), Ok(vec![literal("/"), param("a1b2")]));
}

#[test]
fn blanks_around_a_name_are_dropped() {
    assert_eq!(parse("/{ id }"), Ok(vec![literal("/"), param("id")]));
    assert_eq!(parse("/x/{\tid \t}/y"), Ok(vec![literal("/x/"), param("id"), literal("/y")]));
    assert_eq!(
        parse("/{i d}"),
        Err(ParseError::ExpectedExact { expected: b'}', actual: b'd', pos: 4 })
    );
}

#[test]
fn parameter_must_be_closed() {
    assert_eq!(parse("/{"), Err(ParseError::EndOfStream { pos: 2 }));
    assert_eq!(parse("/{id"), Err(ParseError::EndOfStream { pos: 4 }));
    assert_eq!(parse("/{id  "), Err(ParseError::EndOfStream { pos: 6 }));
    assert_eq!(
        parse("/{id/x}"),
        Err(ParseError::ExpectedExact { expected: b'}', actual: b'/', pos: 4 })
    );
}

#[test]
fn parameter_is_a_whole_segment() {
    assert_eq!(
        parse("/{a}b"),
        Err(ParseError::ExpectedExact { expected: b'/', actual: b'b', pos: 4 })
    );
    assert_eq!(
        parse("/a{b}"),
        Err(ParseError::ExpectedExact { expected: b'/', actual: b'{', pos: 2 })
    );
    assert_eq!(
        parse("/{a}{b}"),
        Err(ParseError::ExpectedExact { expected: b'/', actual: b'{', pos: 4 })
    );
    assert_eq!(
        parse("/{a}%41"),
        Err(ParseError::ExpectedExact { expected: b'/', actual: b'%', pos: 4 })
    );
}

#[test]
fn stray_bytes_are_refused() {
    assert_eq!(
        parse("/a b"),
        Err(ParseError::ExpectedExact { expected: b'/', actual: b' ', pos: 2 })
    );
    assert_eq!(
        parse("/a?b=c"),
        Err(ParseError::ExpectedExact { expected: b'/', actual: b'?', pos: 2 })
    );
    assert_eq!(
        parse("/caf\u{e9}"),
        Err(ParseError::ExpectedExact { expected: b'/', actual: 0xc3, pos: 4 })
    );
}

#[test]
fn broken_percent_encoding_is_refused() {
    assert_eq!(
        parse("/a%zz"),
        Err(ParseError::Expected { expected: "a hex digit", actual: b'z', pos: 3 })
    );
    assert_eq!(
        parse("/a%4z/b"),
        Err(ParseError::Expected { expected: "a hex digit", actual: b'z', pos: 4 })
    );
    assert_eq!(parse("/a%"), Err(ParseError::EndOfStream { pos: 3 }));
    assert_eq!(parse("/a%4"), Err(ParseError::EndOfStream { pos: 4 }));
    assert_eq!(
        parse("/a%/b"),
        Err(ParseError::Expected { expected: "a hex digit", actual: b'/', pos: 3 })
    );
}

#[test]
fn percent_encoding_stays_as_written() {
    assert_eq!(parse("/a%2Fb"), Ok(vec![literal("/a%2Fb")]));
    let path = compile("/a%2Fb");
    assert_eq!(path.matches("/a%2Fb"), Some(vec![]));
    assert_eq!(path.matches("/a/b"), None);
    assert_eq!(path.matches("/a%2fb"), None);
}

#[test]
fn parameter_takes_percent_encoding_as_written() {
    let path = compile("/files/{name}");
    assert_eq!(path.matches("/files/a%20b"), Some(vec![capture("name", "a%20b")]));
    assert_eq!(path.matches("/files/a:b@c;d=e"), Some(vec![capture("name", "a:b@c;d=e")]));
}

#[test]
fn malformed_paths_do_not_match() {
    let path = compile("/files/{name}");
    assert_eq!(path.matches("/files/%zz"), None);
    assert_eq!(path.matches("/files/%"), None);
    assert_eq!(path.matches("/files/ab%4"), None);
    assert_eq!(path.matches("/files/a b"), None);
    assert_eq!(path.matches("/files/caf\u{e9}"), None);
    assert_eq!(path.matches("/files/\u{e9}t\u{e9}"), None);
}

#[test]
fn empty_segments_and_trailing_slash_are_literal() {
    assert_eq!(parse("/a//b"), Ok(vec![literal("/a//b")]));
    assert_eq!(parse("/a/"), Ok(vec![literal("/a/")]));
    assert_eq!(parse("/{id}/"), Ok(vec![literal("/"), param("id"), literal("/")]));
    let path = compile("/a/");
    assert_eq!(path.matches("/a/"), Some(vec![]));
    assert_eq!(path.matches("/a"), None);
}

#[test]
fn every_pchar_is_accepted() {
    let text = "/AZaz09-._~!$&'()*+,;=:@%0a%FF";
    assert_eq!(parse(text), Ok(vec![literal(text)]));
}

#[test]
fn pattern_is_kept_as_written() {
    let path = compile("/a/{ id }");
    let raw: &str = path.as_ref();
    assert_eq!(raw, "/a/{ id }");
}

#[test]
fn compiling_twice_gives_the_same() {
    let first = compile("/a/{id}/b");
    let second = compile("/a/{id}/b");
    assert_eq!(format!("{:?}", first), format!("{:?}", second));
    assert_eq!(parse("/a/{id}/b"), parse("/a/{id}/b"));
    assert_eq!(parse("/a/{1}"), parse("/a/{1}"));
    assert_eq!(first.matches("/a/1/b"), first.matches("/a/1/b"));
    assert_eq!(first.matches("/a/1/b"), second.matches("/a/1/b"));
}

fn spelled(parts: &[Part]) -> Vec<u8> {
    let mut bytes = Vec::new();
    for part in parts {
        match part {
            Part::Literal(literal) => bytes.extend_from_slice(literal),
            Part::Param { name } => {
                bytes.push(b'{');
                bytes.extend_from_slice(name.as_bytes());
                bytes.push(b'}');
            }
        }
    }
    bytes
}

fn without_blanks(pattern: &str) -> Vec<u8> {
    pattern.bytes().filter(|b| *b != b' ' && *b != b'\t').collect()
}

#[test]
fn parts_spell_the_pattern() {
    let patterns = [
        "/a",
        "/a/{id}/b",
        "/{ a }/{\tb\t}/c%2F/",
        "/url/with/{parameters}",
        "/a//b/",
        "/{x}",
    ];
    for pattern in patterns {
        let parts = parse(pattern).unwrap();
        assert!(!parts.is_empty());
        assert_eq!(spelled(&parts), without_blanks(pattern));
    }
    assert_eq!(spelled(&parse("/").unwrap()), Vec::<u8>::new());
}

#[test]
fn matches_spell_the_path() {
    let pattern = "/a/{x}/b/{y}";
    let parts = parse(pattern).unwrap();
    let found = compile(pattern).matches("/a/1/b/22").unwrap();
    let mut values = found.iter();
    let mut path = Vec::new();
    for part in &parts {
        match part {
            Part::Literal(literal) => path.extend_from_slice(literal),
            Part::Param { name } => {
                let next = values.next().unwrap();
                assert_eq!(&next.name, name);
                path.extend_from_slice(next.value.as_bytes());
            }
        }
    }
    assert!(values.next().is_none());
    assert_eq!(path, b"/a/1/b/22".to_vec());
}

use genuine::class::{alpha, alphanumeric, blank, hex_digit_value, sub_delimiter, unreserved};
use genuine::{ParseError, Parser};

#[test]
fn new_parser_stands_at_the_start() {
    let parser = Parser::new(b"abc");
    assert_eq!(parser.cursor(), 0);
    assert_eq!(parser.peek(), Some(b'a'));
    assert_eq!(Parser::new(b"").peek(), None);
}

#[test]
fn any_takes_one_byte() {
    let mut parser = Parser::new(b"/x");
    assert_eq!(parser.any(), Ok(b'/'));
    assert_eq!(parser.any(), Ok(b'x'));
    assert_eq!(parser.cursor(), 2);
    assert_eq!(parser.any(), Err(ParseError::EndOfStream { pos: 2 }));
    assert_eq!(parser.cursor(), 2);
}

#[test]
fn consume_reports_what_it_found() {
    let mut parser = Parser::new(b"B");
    assert_eq!(
        parser.consume(b'A'),
        Err(ParseError::ExpectedExact { expected: b'A', actual: b'B', pos: 0 })
    );
    assert_eq!(parser.cursor(), 0);
    assert_eq!(parser.consume(b'B'), Ok(b'B'));
    assert_eq!(parser.consume(b'B'), Err(ParseError::EndOfStream { pos: 1 }));
}

#[test]
fn expected_names_the_class_and_the_place() {
    let mut parser = Parser::new(b"ab");
    parser.any().unwrap();
    assert_eq!(
        parser.expected("a hex digit", b'z'),
        ParseError::Expected { expected: "a hex digit", actual: b'z', pos: 1 }
    );
}

#[test]
fn skip_while_stops_at_the_end() {
    let mut parser = Parser::new(b"ABC");
    parser.skip_while(|x| x.is_ascii_alphabetic());
    assert_eq!(parser.cursor(), 3);
    parser.skip_while(|_| true);
    assert_eq!(parser.cursor(), 3);
}

#[test]
fn ws_skips_spaces_and_tabs() {
    let mut parser = Parser::new(b" \t  x ");
    parser.ws();
    assert_eq!(parser.cursor(), 4);
    parser.ws();
    assert_eq!(parser.cursor(), 4);
    let mut other = Parser::new(b"\n ");
    other.ws();
    assert_eq!(other.cursor(), 0);
}

#[test]
fn capture_gives_the_bytes_since_start() {
    let mut parser = Parser::new(b"abcdef");
    parser.any().unwrap();
    parser.any().unwrap();
    parser.any().unwrap();
    assert_eq!(parser.capture(1), b"bc");
    assert_eq!(parser.capture(3), b"");
}

#[test]
fn hex_digit_gives_its_value() {
    assert_eq!(Parser::new(b"0").hex_digit(), Ok(0));
    assert_eq!(Parser::new(b"9").hex_digit(), Ok(9));
    assert_eq!(Parser::new(b"a").hex_digit(), Ok(10));
    assert_eq!(Parser::new(b"F").hex_digit(), Ok(15));
    let mut parser = Parser::new(b"g");
    assert_eq!(
        parser.hex_digit(),
        Err(ParseError::Expected { expected: "a hex digit", actual: b'g', pos: 0 })
    );
    assert_eq!(parser.cursor(), 0);
    assert_eq!(Parser::new(b"").hex_digit(), Err(ParseError::EndOfStream { pos: 0 }));
}

#[test]
fn percent_encoded_gives_the_byte() {
    let mut parser = Parser::new(b"%2F");
    assert_eq!(parser.percent_encoded(), Ok(0x2f));
    assert_eq!(parser.cursor(), 3);
    assert_eq!(Parser::new(b"%e9").percent_encoded(), Ok(0xe9));
    assert_eq!(Parser::new(b"%00").percent_encoded(), Ok(0));
    assert_eq!(Parser::new(b"%fF").percent_encoded(), Ok(255));
}

#[test]
fn percent_encoded_takes_all_or_nothing() {
    let mut parser = Parser::new(b"%2x");
    assert_eq!(
        parser.percent_encoded(),
        Err(ParseError::Expected { expected: "a hex digit", actual: b'x', pos: 2 })
    );
    assert_eq!(parser.cursor(), 0);
    let mut short = Parser::new(b"%2");
    assert_eq!(short.percent_encoded(), Err(ParseError::EndOfStream { pos: 2 }));
    assert_eq!(short.cursor(), 0);
    assert_eq!(
        Parser::new(b"a").percent_encoded(),
        Err(ParseError::ExpectedExact { expected: b'%', actual: b'a', pos: 0 })
    );
}

#[test]
fn unreserved_takes_letters_digits_and_marks() {
    for byte in *b"aZ5-._~" {
        let input = [byte];
        let mut parser = Parser::new(&input);
        assert_eq!(parser.unreserved(), Some(byte));
        assert_eq!(parser.cursor(), 1);
    }
    let mut parser = Parser::new(b"!");
    assert_eq!(parser.unreserved(), None);
    assert_eq!(parser.cursor(), 0);
    assert_eq!(Parser::new(b"").unreserved(), None);
}

#[test]
fn sub_delimiter_takes_the_eleven() {
    for byte in *b"!$&'()*+,;=" {
        let input = [byte];
        assert_eq!(Parser::new(&input).sub_delimiter(), Ok(byte));
    }
    let mut parser = Parser::new(b"a");
    assert_eq!(
        parser.sub_delimiter(),
        Err(ParseError::Expected { expected: "a sub delimiter", actual: b'a', pos: 0 })
    );
    assert_eq!(parser.cursor(), 0);
    assert_eq!(Parser::new(b"").sub_delimiter(), Err(ParseError::EndOfStream { pos: 0 }));
}

#[test]
fn pchar_takes_every_alternative() {
    assert_eq!(Parser::new(b"a").pchar(), Ok(b'a'));
    assert_eq!(Parser::new(b"=").pchar(), Ok(b'='));
    assert_eq!(Parser::new(b":").pchar(), Ok(b':'));
    assert_eq!(Parser::new(b"@").pchar(), Ok(b'@'));
    let mut parser = Parser::new(b"%41x");
    assert_eq!(parser.pchar(), Ok(b'A'));
    assert_eq!(parser.cursor(), 3);
}

#[test]
fn pchar_refuses_the_rest() {
    let mut parser = Parser::new(b"/@");
    assert_eq!(
        parser.pchar(),
        Err(ParseError::ExpectedExact { expected: b'@', actual: b'/', pos: 0 })
    );
    assert_eq!(parser.cursor(), 0);
    assert_eq!(Parser::new(b"").pchar(), Err(ParseError::EndOfStream { pos: 0 }));
    assert_eq!(
        Parser::new(b"%4").pchar(),
        Err(ParseError::EndOfStream { pos: 2 })
    );
}

#[test]
fn segment_takes_whole_pchars_only() {
    let mut parser = Parser::new(b"a%2Fb/c");
    assert_eq!(parser.segment(), b"a%2Fb");
    assert_eq!(parser.cursor(), 5);
    assert_eq!(parser.segment(), b"");
    let mut broken = Parser::new(b"ab%4");
    assert_eq!(broken.segment(), b"ab");
    assert_eq!(broken.cursor(), 2);
    let mut all = Parser::new(b"abc");
    assert_eq!(all.segment(), b"abc");
    assert_eq!(all.cursor(), 3);
}

#[test]
fn parameter_name_takes_letters_and_digits() {
    let mut parser = Parser::new(b"id42 }");
    assert_eq!(parser.parameter_name(), Ok("id42".to_string()));
    assert_eq!(parser.cursor(), 4);
    let mut digit = Parser::new(b"1abc");
    assert_eq!(
        digit.parameter_name(),
        Err(ParseError::Expected { expected: "an ASCII letter", actual: b'1', pos: 0 })
    );
    assert_eq!(digit.cursor(), 0);
    assert_eq!(Parser::new(b"").parameter_name(), Err(ParseError::EndOfStream { pos: 0 }));
}

#[test]
fn parse_reads_to_the_end() {
    let mut parser = Parser::new(b"/a/{id}");
    assert!(parser.parse().is_ok());
    assert_eq!(parser.cursor(), 7);
}

#[test]
fn byte_classes() {
    assert!(alpha(b'a') && alpha(b'Z') && !alpha(b'0') && !alpha(b'[') && !alpha(b'`'));
    assert!(alphanumeric(b'0') && alphanumeric(b'9') && alphanumeric(b'q'));
    assert!(!alphanumeric(b'/') && !alphanumeric(b':'));
    assert!(blank(b' ') && blank(b'\t') && !blank(b'\n'));
    assert!(unreserved(b'~') && unreserved(b'_') && !unreserved(b'%') && !unreserved(b'/'));
    assert!(sub_delimiter(b'\'') && sub_delimiter(b',') && !sub_delimiter(b'%'));
    assert!(!sub_delimiter(b'#') && !sub_delimiter(b'-') && !sub_delimiter(b'<'));
    assert_eq!(hex_digit_value(b'7'), Some(7));
    assert_eq!(hex_digit_value(b'c'), Some(12));
    assert_eq!(hex_digit_value(b'C'), Some(12));
    assert_eq!(hex_digit_value(b'G'), None);
    assert_eq!(hex_digit_value(b'@'), None);
}

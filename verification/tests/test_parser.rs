use goldfish::command::Command;
use goldfish::parser::{parse_command, starts_with_command_keyword, Parsed};
use goldfish::strict_parser::{parse, Parser};

fn read_line<'a>(input: &mut &'a [u8]) -> &'a [u8] {
    let end = input
        .iter()
        .position(|&b| b == b'\n')
        .map(|p| p + 1)
        .unwrap_or(input.len());
    let (line, rest) = input.split_at(end);
    *input = rest;
    line
}

#[test]
fn parse_quit() {
    let mut input: &[u8] = b"quit\r\n";
    let result = Parser::parse_command(read_line(&mut input));
    let expected = Some(Command::Quit);
    assert_eq!(result, expected);
}

#[test]
fn parse_version() {
    let mut input: &[u8] = b"version\r\n";
    let result = Parser::parse_command(read_line(&mut input));
    let expected = Some(Command::Version);
    assert_eq!(result, expected);
}

#[test]
fn parse_quit_and_version() {
    let mut input: &[u8] = b"quit\r\nversion\r\n";
    let mut result = Parser::parse_command(read_line(&mut input));
    let mut expected = Some(Command::Quit);
    assert_eq!(result, expected);
    result = Parser::parse_command(read_line(&mut input));
    expected = Some(Command::Version);
    assert_eq!(result, expected);
}

#[test]
fn strict_grammar_needs_crlf() {
    assert_eq!(parse(b"version\n"), None);
    assert_eq!(parse(b"quit\r\nmore"), Some((6, Command::Quit)));
    let _parser = Parser::new();
}

fn done(input: &[u8]) -> (usize, Command) {
    match parse_command(input) {
        Parsed::Done(n, c) => (n, c),
        Parsed::Incomplete => panic!("incomplete"),
        Parsed::Invalid => panic!("invalid"),
    }
}

#[test]
fn parses_set_with_noreply() {
    let (n, c) = done(b"set k 1 2 3 noreply\r\nabc\r\nget k\r\n");
    assert_eq!(n, 26);
    assert_eq!(
        c,
        Command::SetItem {
            key: b"k".to_vec(),
            flags: 1,
            timeout: 2,
            noreply: true,
            value: b"abc".to_vec(),
            value_size: 3,
        }
    );
}

#[test]
fn parses_cas_token() {
    let (n, c) = done(b"cas k 0 -5 2 77\r\nhi\r\n");
    assert_eq!(n, 21);
    assert_eq!(
        c,
        Command::Cas {
            key: b"k".to_vec(),
            flags: 0,
            timeout: -5,
            noreply: false,
            value: b"hi".to_vec(),
            value_size: 2,
            cas_unique: 77,
        }
    );
}

#[test]
fn parses_key_lists() {
    let (n, c) = done(b"get a\tb  c\r\n");
    assert_eq!(n, 12);
    assert_eq!(c, Command::Get { keys: vec![b"a".to_vec(), b"b".to_vec(), b"c".to_vec()] });
    let (_, c) = done(b"gats -1 x y\n");
    assert_eq!(c, Command::Gats { timeout: -1, keys: vec![b"x".to_vec(), b"y".to_vec()] });
}

#[test]
fn parses_arithmetic_and_misc() {
    assert_eq!(
        done(b"incr n 5\r\n").1,
        Command::Incr { key: b"n".to_vec(), delta: 5, noreply: false }
    );
    assert_eq!(
        done(b"decr n 18446744073709551615 noreply\r\n").1,
        Command::Decr { key: b"n".to_vec(), delta: u64::MAX, noreply: true }
    );
    assert_eq!(done(b"flush_all 10\r\n").1, Command::FlushAll { delay: 10, noreply: false });
    assert_eq!(done(b"flush_all\r\n").1, Command::FlushAll { delay: 0, noreply: false });
    assert_eq!(done(b"stats items\r\n").1, Command::Stats { sub: Some(b"items".to_vec()) });
    assert_eq!(done(b"stats\r\n").1, Command::Stats { sub: None });
    assert_eq!(done(b"delete k noreply\r\n").1, Command::Delete { key: b"k".to_vec(), noreply: true });
    assert_eq!(
        done(b"touch k 10\r\n").1,
        Command::Touch { key: b"k".to_vec(), timeout: 10, noreply: false }
    );
    assert_eq!(done(b"version\n").1, Command::Version);
}

#[test]
fn malformed_and_unknown_lines() {
    assert_eq!(done(b"get\r\n"), (5, Command::Malformed));
    assert_eq!(done(b"get a \r\nx"), (8, Command::Malformed));
    assert_eq!(done(b"hello\r\n"), (7, Command::CannotParse("Cannot Parse Input".to_string())));
}

#[test]
fn waiting_and_invalid_prefixes() {
    assert!(matches!(parse_command(b"qu"), Parsed::Incomplete));
    assert!(matches!(parse_command(b"vers"), Parsed::Incomplete));
    assert!(matches!(parse_command(b"ge"), Parsed::Incomplete));
    assert!(matches!(parse_command(b"set k 0 0 5\r\nhel"), Parsed::Invalid));
    assert!(matches!(parse_command(b"foobar"), Parsed::Invalid));
    // A flags field beyond i32 is no storage command.
    assert!(matches!(parse_command(b"set k 2147483648 0 1\r\nx\r\n"), Parsed::Invalid));
    assert!(matches!(parse_command(b"set k 2147483647 0 1\r\nx\r\n"), Parsed::Done(..)));
}

#[test]
fn command_keywords() {
    assert!(starts_with_command_keyword(b"set x"));
    assert!(starts_with_command_keyword(b"stats"));
    assert!(!starts_with_command_keyword(b"setx"));
    assert!(!starts_with_command_keyword(b"SET x"));
}

#[test]
fn strict_server_answers() {
    assert_eq!(Parser::answer(&Some(Command::Version)), (b"VERSION 1.0\r\n".to_vec(), true));
    assert_eq!(Parser::answer(&Some(Command::Quit)), (b"\r\n".to_vec(), false));
    assert_eq!(
        Parser::answer(&Some(Command::Malformed)),
        (b"SERVER_ERROR not implemented\r\n".to_vec(), true)
    );
    assert_eq!(
        Parser::answer(&None),
        (b"CLIENT_ERROR could not recognize command\r\n".to_vec(), true)
    );
}

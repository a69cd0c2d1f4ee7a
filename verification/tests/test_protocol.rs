use goldfish::process_input_buffered;
use goldfish::state::State;

fn new_state() -> State {
    State::new()
}

fn process_raw(state: &mut State, input: &[u8]) -> (bool, Vec<u8>) {
    let mut buf = input.to_vec();
    let mut output = Vec::new();
    let ok = process_input_buffered(state, &mut buf, &mut output);
    (ok, output)
}

fn process(state: &mut State, input: &str) -> String {
    let (_, output) = process_raw(state, input.as_bytes());
    String::from_utf8(output).unwrap()
}

#[test]
fn test_empty_input() {
    let mut state = new_state();
    let (ok, output) = process_raw(&mut state, b"");
    assert!(ok);
    assert!(output.is_empty());
}

#[test]
fn test_unknown_command() {
    let mut state = new_state();
    let result = process(&mut state, "foobar\r\n");
    assert_eq!(result, "ERROR\r\n");
}

#[test]
fn test_unknown_command_no_crlf() {
    let mut state = new_state();
    let mut buf = b"foobar".to_vec();
    let mut output = Vec::new();
    process_input_buffered(&mut state, &mut buf, &mut output);
    assert_eq!(output, b"ERROR\r\n");
}

#[test]
fn test_empty_line_is_error() {
    let mut state = new_state();
    let result = process(&mut state, "\r\n");
    assert_eq!(result, "ERROR\r\n");
}

#[test]
fn test_case_sensitive_set() {
    let mut state = new_state();
    let result = process(&mut state, "SET key 0 0 5\r\nhello\r\n");
    assert_eq!(result, "ERROR\r\nERROR\r\n");
}

#[test]
fn test_case_sensitive_get() {
    let mut state = new_state();
    process(&mut state, "set key 0 0 5\r\nhello\r\n");
    let result = process(&mut state, "GET key\r\n");
    assert_eq!(result, "ERROR\r\n");
}

#[test]
fn test_pipeline_set_get() {
    let mut state = new_state();
    let result = process(&mut state, "set key 0 0 5\r\nhello\r\nget key\r\n");
    assert_eq!(result, "STORED\r\nVALUE key 0 5\r\nhello\r\nEND\r\n");
}

#[test]
fn test_pipeline_many_commands() {
    let mut state = new_state();
    let input = "version\r\nset a 0 0 1\r\nx\r\nget a\r\nversion\r\nset b 0 0 1\r\ny\r\nget b\r\n";
    let result = process(&mut state, input);
    assert_eq!(
        result,
        "VERSION Goldfish 1.0\r\nSTORED\r\nVALUE a 0 1\r\nx\r\nEND\r\n\
         VERSION Goldfish 1.0\r\nSTORED\r\nVALUE b 0 1\r\ny\r\nEND\r\n"
    );
}

use goldfish::process_input_buffered;
use goldfish::state::State;

fn new_state() -> State {
    State::new()
}

fn process(state: &mut State, input: &str) -> String {
    let mut buf = input.as_bytes().to_vec();
    let mut output = Vec::new();
    process_input_buffered(state, &mut buf, &mut output);
    String::from_utf8(output).unwrap()
}

#[test]
fn test_touch_touched() {
    let mut state = new_state();
    process(&mut state, "set key 0 0 5\r\nhello\r\n");
    let result = process(&mut state, "touch key 100\r\n");
    assert_eq!(result, "TOUCHED\r\n");
}

#[test]
fn test_touch_not_found() {
    let mut state = new_state();
    let result = process(&mut state, "touch key 100\r\n");
    assert_eq!(result, "NOT_FOUND\r\n");
}

#[test]
fn test_touch_noreply() {
    let mut state = new_state();
    process(&mut state, "set key 0 0 5\r\nhello\r\n");
    let result = process(&mut state, "touch key 100 noreply\r\n");
    assert_eq!(result, "");
}

#[test]
fn test_touch_not_found_noreply() {
    let mut state = new_state();
    let result = process(&mut state, "touch key 100 noreply\r\n");
    assert_eq!(result, "");
}

#[test]
fn test_touch_key_too_long() {
    let mut state = new_state();
    let long_key = "k".repeat(251);
    let cmd = format!("touch {long_key} 100\r\n");
    let result = process(&mut state, &cmd);
    assert_eq!(result, "CLIENT_ERROR bad command line format\r\n");
}

#[test]
fn test_touch_preserves_value() {
    let mut state = new_state();
    process(&mut state, "set key 42 0 5\r\nhello\r\n");
    process(&mut state, "touch key 100\r\n");
    let result = process(&mut state, "get key\r\n");
    assert_eq!(result, "VALUE key 42 5\r\nhello\r\nEND\r\n");
}

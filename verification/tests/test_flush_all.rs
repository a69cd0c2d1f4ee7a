use goldfish::clock::now_nanos;
use goldfish::process_input_buffered;
use goldfish::session::process_input_buffered_at;
use goldfish::state::State;

fn new_state() -> State {
    State::new()
}

fn process(state: &mut State, input: &str) -> String {
    let mut buf = input.as_bytes().to_vec();
    let mut output = Vec::new();
    process_input_buffered(state, &mut buf, &mut output);
    String::from_utf8(output).unwrap()
}

fn process_at(state: &mut State, input: &str, now: u128) -> String {
    let mut buf = input.as_bytes().to_vec();
    let mut output = Vec::new();
    process_input_buffered_at(state, &mut buf, &mut output, now);
    String::from_utf8(output).unwrap()
}

#[test]
fn test_flush_all_ok() {
    let mut state = new_state();
    process(&mut state, "set key 0 0 5\r\nhello\r\n");
    let result = process(&mut state, "flush_all\r\n");
    assert_eq!(result, "OK\r\n");
}

#[test]
fn test_flush_all_clears_keys() {
    let mut state = new_state();
    process(&mut state, "set key 0 0 5\r\nhello\r\n");
    process(&mut state, "flush_all\r\n");
    let result = process(&mut state, "get key\r\n");
    assert_eq!(result, "END\r\n");
}

#[test]
fn test_flush_all_with_delay() {
    let mut state = new_state();
    let start = now_nanos();
    process_at(&mut state, "set key 0 0 5\r\nhello\r\n", start);
    let result = process_at(&mut state, "flush_all 1\r\n", start);
    assert_eq!(result, "OK\r\n");
    let result = process_at(&mut state, "get key\r\n", start);
    assert_eq!(result, "VALUE key 0 5\r\nhello\r\nEND\r\n");
    // Two seconds later.
    let later = start + 2_000_000_000;
    let result = process_at(&mut state, "get key\r\n", later);
    assert_eq!(result, "END\r\n");
}

#[test]
fn test_flush_all_noreply() {
    let mut state = new_state();
    process(&mut state, "set key 0 0 5\r\nhello\r\n");
    let result = process(&mut state, "flush_all noreply\r\n");
    assert_eq!(result, "");
    let result = process(&mut state, "get key\r\n");
    assert_eq!(result, "END\r\n");
}

#[test]
fn test_flush_all_with_delay_and_noreply() {
    let mut state = new_state();
    let start = now_nanos();
    process_at(&mut state, "set key 0 0 5\r\nhello\r\n", start);
    let result = process_at(&mut state, "flush_all 1 noreply\r\n", start);
    assert_eq!(result, "");
    let result = process_at(&mut state, "get key\r\n", start);
    assert_eq!(result, "VALUE key 0 5\r\nhello\r\nEND\r\n");
    // Two seconds later.
    let later = start + 2_000_000_000;
    let result = process_at(&mut state, "get key\r\n", later);
    assert_eq!(result, "END\r\n");
}

#[test]
fn test_flush_all_empty_state() {
    let mut state = new_state();
    let result = process(&mut state, "flush_all\r\n");
    assert_eq!(result, "OK\r\n");
}

#[test]
fn test_flush_all_multi() {
    let mut state = new_state();
    process(&mut state, "set k1 0 0 2\r\na\r\n");
    process(&mut state, "set k2 0 0 2\r\nb\r\n");
    process(&mut state, "set k3 0 0 2\r\nc\r\n");
    process(&mut state, "flush_all\r\n");
    let result = process(&mut state, "get k1 k2 k3\r\n");
    assert_eq!(result, "END\r\n");
}

#[test]
fn test_flush_all_then_set_again() {
    let mut state = new_state();
    process(&mut state, "set key 0 0 5\r\nhello\r\n");
    process(&mut state, "flush_all\r\n");
    process(&mut state, "set key 0 0 5\r\nworld\r\n");
    let result = process(&mut state, "get key\r\n");
    assert_eq!(result, "VALUE key 0 5\r\nworld\r\nEND\r\n");
}

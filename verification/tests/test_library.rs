use goldfish::clock::now_nanos;
use goldfish::command::Command;
use goldfish::handler::admin::{handle_flush_all_at, handle_stats_at, handle_version, write_stat};
use goldfish::handler::keyed::handle_delete_at;
use goldfish::handler::retrieval::handle_get_at;
use goldfish::handler::common::{append_value, append_value_with_cas, normalize_timeout};
use goldfish::handler::dispatch::handle_command;
use goldfish::handler::storage::{handle_set, handle_set_at};
use goldfish::keyword;
use goldfish::process_input;
use goldfish::response::CommandResponse;
use goldfish::state::{Data, State};
use goldfish::utils::raw_string_to_string;

fn item(value: &[u8]) -> Data {
    Data { data: value.to_vec(), timeout: 0, flags: 0, time: 0, cas_unique: 0 }
}

#[test]
fn clock_reads_the_present() {
    // After 2020-01-01 in nanoseconds.
    assert!(now_nanos() > 1_577_836_800_000_000_000);
}

#[test]
fn relative_timeouts_are_kept() {
    assert_eq!(normalize_timeout(60), 60);
    assert!(normalize_timeout(4_000_000_000) < 4_000_000_000);
}

#[test]
fn state_operations() {
    let mut state = State::new();
    assert!(state.is_empty());
    assert_eq!(state.set_key(b"a".to_vec(), item(b"xyz")).map(|d| d.data), None);
    assert_eq!(state.get_cas(b"a"), Some(1));
    let old = state.set_key(b"a".to_vec(), item(b"q")).unwrap();
    assert_eq!(old.data, b"xyz");
    assert_eq!(old.cas_unique, 1);
    assert_eq!(state.get_cas(b"a"), Some(2));
    state.set_key(b"b".to_vec(), item(b"12"));
    assert_eq!(state.len(), 2);
    assert_eq!(state.total_bytes(), 3);
    assert_eq!(state.get_key(b"b").unwrap().data, b"12");
    assert!(state.delete_key(b"a"));
    assert!(!state.delete_key(b"a"));
    assert!(state.get_key(b"a").is_none());
    state.increment_total_items();
    assert_eq!(state.total_items(), 1);
    state.clear();
    assert_eq!(state.len(), 0);
}

#[test]
fn delayed_flush_settles_when_due() {
    let mut state = State::new_at(10);
    state.set_key(b"a".to_vec(), item(b"x"));
    state.schedule_flush(100);
    state.schedule_flush(50);
    state.settle(49);
    assert_eq!(state.len(), 1);
    state.settle(50);
    assert_eq!(state.len(), 0);
    state.set_key(b"b".to_vec(), item(b"y"));
    state.settle(99);
    assert_eq!(state.len(), 1);
    state.settle(100);
    assert_eq!(state.len(), 0);
}

#[test]
fn handlers_at_the_current_time() {
    let mut state = State::new();
    let mut out = Vec::new();
    handle_set(
        &mut state,
        Command::SetItem {
            key: b"k".to_vec(),
            flags: 3,
            timeout: 0,
            noreply: false,
            value: b"v".to_vec(),
            value_size: 1,
        },
        &mut out,
    );
    handle_command(&mut state, Command::Get { keys: vec![b"k".to_vec()] }, &mut out);
    handle_command(&mut state, Command::Malformed, &mut out);
    handle_version(&mut out);
    assert_eq!(
        String::from_utf8(out).unwrap(),
        "STORED\r\nVALUE k 3 1\r\nv\r\nEND\r\nERROR\r\nVERSION Goldfish 1.0\r\n"
    );
    let mut out = Vec::new();
    assert!(process_input(&mut state, b"delete k\r\n", &mut out));
    assert_eq!(out, b"DELETED\r\n");
}

#[test]
fn reply_lines() {
    let mut out = Vec::new();
    append_value(&mut out, b"key", -12, b"ab");
    append_value_with_cas(&mut out, b"key", 0, b"", 1234567890123);
    write_stat(&mut out, b"name", b"value");
    assert_eq!(
        String::from_utf8(out).unwrap(),
        "VALUE key -12 2\r\nab\r\nVALUE key 0 0 1234567890123\r\n\r\nSTAT name value\r\n"
    );
}

#[test]
fn command_responses() {
    assert_eq!(CommandResponse::Version("Goldfish 1.0".to_string()).as_vec(), b"VERSION Goldfish 1.0\r\n");
    assert_eq!(CommandResponse::Stored("STORED\r\n".to_string()).as_vec(), b"STORED\r\n");
    assert_eq!(
        CommandResponse::Get { key: b"k".to_vec(), data: b"abc".to_vec(), flags: 5 }.as_vec(),
        b"VALUE k 5 3\r\nabc\r\nEND\r\n"
    );
    assert_eq!(CommandResponse::GetNotFound.as_vec(), b"END\r\n");
    assert_eq!(CommandResponse::Error.as_vec(), b"ERROR\r\n");
}

#[test]
fn raw_bytes_as_text() {
    assert_eq!(raw_string_to_string(b"get k\r\n"), "get k\r\n");
    assert_eq!(raw_string_to_string("é".as_bytes()), "é");
    assert_eq!(raw_string_to_string(&[0xff, 0xfe]), "Unparsable Input String");
}

#[test]
fn keyword_lines_are_left_alone() {
    keyword::Command::remove_newline("quit\r\n");
    assert_eq!(keyword::Command::Quit, keyword::Command::Quit);
}

#[test]
fn store_with_a_process_id() {
    let state = State::with_process_id(4242);
    assert_eq!(state.process_id(), 4242);
    assert!(state.is_empty());
    let mut out = Vec::new();
    let mut state = state;
    assert!(process_input(&mut state, b"stats\r\n", &mut out));
    assert!(String::from_utf8(out).unwrap().starts_with("STAT pid 4242\r\n"));
}

#[test]
fn delete_lowers_the_count_by_one() {
    let mut state = State::new();
    state.set_key(b"a".to_vec(), item(b"1"));
    state.set_key(b"b".to_vec(), item(b"2"));
    assert_eq!(state.len(), 2);
    assert!(state.delete_key(b"a"));
    assert_eq!(state.len(), 1);
    assert!(!state.delete_key(b"a"));
    assert_eq!(state.len(), 1);
}

#[test]
fn tokens_after_clear_exceed_earlier_ones() {
    let mut state = State::new();
    state.set_key(b"a".to_vec(), item(b"1"));
    state.set_key(b"b".to_vec(), item(b"2"));
    let earlier = state.get_cas(b"b").unwrap();
    state.clear();
    state.set_key(b"a".to_vec(), item(b"3"));
    assert!(state.get_cas(b"a").unwrap() > earlier);
}

#[test]
fn handlers_apply_due_flushes_first() {
    let mut state = State::new_at(0);
    let mut out = Vec::new();
    let set = |k: &[u8]| Command::SetItem {
        key: k.to_vec(),
        flags: 0,
        timeout: 0,
        noreply: false,
        value: b"v".to_vec(),
        value_size: 1,
    };
    handle_set_at(&mut state, set(b"k"), &mut out, 0);
    handle_flush_all_at(&mut state, Command::FlushAll { delay: 1, noreply: false }, &mut out, 0);
    handle_get_at(&mut state, Command::Get { keys: vec![b"k".to_vec()] }, &mut out, 500_000_000);
    handle_get_at(&mut state, Command::Get { keys: vec![b"k".to_vec()] }, &mut out, 5_000_000_000);
    assert_eq!(
        String::from_utf8(out).unwrap(),
        "STORED\r\nOK\r\nVALUE k 0 1\r\nv\r\nEND\r\nEND\r\n"
    );
    assert_eq!(state.len(), 0);

    let mut out = Vec::new();
    handle_set_at(&mut state, set(b"a"), &mut out, 6_000_000_000);
    handle_flush_all_at(&mut state, Command::FlushAll { delay: 2, noreply: true }, &mut out, 6_000_000_000);
    handle_delete_at(&mut state, Command::Delete { key: b"a".to_vec(), noreply: false }, &mut out, 9_000_000_000);
    assert_eq!(String::from_utf8(out).unwrap(), "STORED\r\nNOT_FOUND\r\n");

    let mut out = Vec::new();
    handle_set_at(&mut state, set(b"b"), &mut out, 10_000_000_000);
    handle_flush_all_at(&mut state, Command::FlushAll { delay: 1, noreply: true }, &mut out, 10_000_000_000);
    handle_stats_at(&mut state, Command::Stats { sub: None }, &mut out, 12_000_000_000);
    assert!(String::from_utf8(out).unwrap().contains("STAT curr_items 0\r\n"));
    assert_eq!(state.len(), 0);
}

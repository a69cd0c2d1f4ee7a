use goldfish::handler::common::normalize_timeout_at;
use goldfish::session::{process_input_at, process_input_buffered_at};
use goldfish::state::State;

const T0: u128 = 1_700_000_000_000_000_000;

fn run(state: &mut State, input: &str, now: u128) -> String {
    let mut buf = input.as_bytes().to_vec();
    let mut output = Vec::new();
    process_input_buffered_at(state, &mut buf, &mut output, now);
    String::from_utf8(output).unwrap()
}

fn fresh() -> State {
    State::new_at(T0)
}

#[test]
fn add_only_stores_new_keys() {
    let mut s = fresh();
    assert_eq!(run(&mut s, "add k 3 0 2\r\nab\r\n", T0), "STORED\r\n");
    assert_eq!(run(&mut s, "add k 0 0 2\r\ncd\r\n", T0), "NOT_STORED\r\n");
    assert_eq!(run(&mut s, "add k 0 0 2 noreply\r\ncd\r\n", T0), "");
    assert_eq!(run(&mut s, "get k\r\n", T0), "VALUE k 3 2\r\nab\r\nEND\r\n");
}

#[test]
fn replace_only_stores_existing_keys() {
    let mut s = fresh();
    assert_eq!(run(&mut s, "replace k 0 0 1\r\nx\r\n", T0), "NOT_STORED\r\n");
    assert_eq!(run(&mut s, "get k\r\n", T0), "END\r\n");
    run(&mut s, "set k 0 0 1\r\na\r\n", T0);
    assert_eq!(run(&mut s, "replace k 9 0 1\r\nb\r\n", T0), "STORED\r\n");
    assert_eq!(run(&mut s, "get k\r\n", T0), "VALUE k 9 1\r\nb\r\nEND\r\n");
}

#[test]
fn append_and_prepend_keep_flags() {
    let mut s = fresh();
    assert_eq!(run(&mut s, "append k 0 0 1\r\nx\r\n", T0), "NOT_STORED\r\n");
    assert_eq!(run(&mut s, "prepend k 0 0 1\r\nx\r\n", T0), "NOT_STORED\r\n");
    run(&mut s, "set k 7 0 2\r\nmm\r\n", T0);
    assert_eq!(run(&mut s, "append k 1 0 2\r\nzz\r\n", T0), "STORED\r\n");
    assert_eq!(run(&mut s, "prepend k 1 0 2\r\naa\r\n", T0), "STORED\r\n");
    assert_eq!(run(&mut s, "get k\r\n", T0), "VALUE k 7 6\r\naammzz\r\nEND\r\n");
}

#[test]
fn incr_and_decr() {
    let mut s = fresh();
    assert_eq!(run(&mut s, "incr n 1\r\n", T0), "NOT_FOUND\r\n");
    run(&mut s, "set n 5 0 2\r\n10\r\n", T0);
    assert_eq!(run(&mut s, "incr n 5\r\n", T0), "15\r\n");
    assert_eq!(run(&mut s, "decr n 20\r\n", T0), "0\r\n");
    assert_eq!(run(&mut s, "incr n 7 noreply\r\n", T0), "");
    assert_eq!(run(&mut s, "get n\r\n", T0), "VALUE n 5 1\r\n7\r\nEND\r\n");
    run(&mut s, "set w 0 0 20\r\n18446744073709551615\r\n", T0);
    assert_eq!(run(&mut s, "incr w 2\r\n", T0), "1\r\n");
    run(&mut s, "set p 0 0 2\r\n+4\r\n", T0);
    assert_eq!(run(&mut s, "incr p 1\r\n", T0), "5\r\n");
    run(&mut s, "set t 0 0 3\r\nabc\r\n", T0);
    assert_eq!(
        run(&mut s, "incr t 1 noreply\r\n", T0),
        "CLIENT_ERROR cannot increment or decrement non-numeric value\r\n"
    );
}

#[test]
fn delete_removes_items() {
    let mut s = fresh();
    run(&mut s, "set k 0 0 1\r\na\r\n", T0);
    assert_eq!(run(&mut s, "delete k\r\n", T0), "DELETED\r\n");
    assert_eq!(run(&mut s, "delete k\r\n", T0), "NOT_FOUND\r\n");
    assert_eq!(run(&mut s, "get k\r\n", T0), "END\r\n");
    let long_key = "k".repeat(251);
    assert_eq!(
        run(&mut s, &format!("delete {long_key}\r\n"), T0),
        "CLIENT_ERROR bad command line format\r\n"
    );
}

#[test]
fn gat_touches_and_gats_reports_tokens() {
    let mut s = fresh();
    run(&mut s, "set k 2 1 1\r\na\r\n", T0);
    assert_eq!(run(&mut s, "gat 100 k missing\r\n", T0), "VALUE k 2 1\r\na\r\nEND\r\n");
    // The one-second expiration was replaced by a hundred seconds.
    assert_eq!(run(&mut s, "get k\r\n", T0 + 5_000_000_000), "VALUE k 2 1\r\na\r\nEND\r\n");
    let out = run(&mut s, "gats 100 k\r\n", T0);
    assert!(out.starts_with("VALUE k 2 1 "));
    assert!(out.ends_with("\r\na\r\nEND\r\n"));
    assert_eq!(run(&mut s, "gat 100 none\r\n", T0), "END\r\n");
    let long_key = "k".repeat(251);
    assert_eq!(
        run(&mut s, &format!("gat 1 k {long_key}\r\n"), T0),
        "CLIENT_ERROR bad command line format\r\n"
    );
}

#[test]
fn items_expire() {
    let mut s = fresh();
    run(&mut s, "set k 0 2 1\r\na\r\n", T0);
    assert_eq!(run(&mut s, "get k\r\n", T0 + 1_999_999_999), "VALUE k 0 1\r\na\r\nEND\r\n");
    assert_eq!(run(&mut s, "get k\r\n", T0 + 2_000_000_000), "END\r\n");
    run(&mut s, "add n 0 -1 1\r\nb\r\n", T0);
    assert_eq!(run(&mut s, "get n\r\n", T0), "END\r\n");
}

#[test]
fn absolute_expiration_times() {
    assert_eq!(normalize_timeout_at(100, T0), 100);
    assert_eq!(normalize_timeout_at(2_592_000, T0), 2_592_000);
    assert_eq!(normalize_timeout_at(1_700_000_100, T0), 100);
    assert_eq!(normalize_timeout_at(1_600_000_000, T0), -100_000_000);
    let mut s = fresh();
    run(&mut s, "set k 0 1700000010 1\r\na\r\n", T0);
    assert_eq!(run(&mut s, "get k\r\n", T0 + 9_000_000_000), "VALUE k 0 1\r\na\r\nEND\r\n");
    assert_eq!(run(&mut s, "get k\r\n", T0 + 10_000_000_000), "END\r\n");
}

#[test]
fn stats_report() {
    let mut s = fresh();
    s.set_process_id(42);
    run(&mut s, "set a 0 0 3\r\nabc\r\n", T0);
    run(&mut s, "gat 0 a\r\ngat 0 b\r\n", T0);
    let out = run(&mut s, "stats\r\n", T0 + 3_000_000_000);
    assert!(out.starts_with("STAT pid 42\r\nSTAT uptime 3\r\nSTAT time 1700000003\r\n"));
    assert!(out.contains("STAT version goldfish 0.1.0\r\n"));
    assert!(out.contains("STAT curr_items 1\r\nSTAT total_items 1\r\nSTAT bytes 3\r\n"));
    assert!(out.contains("STAT get_hits 1\r\nSTAT get_misses 1\r\n"));
    assert!(out.ends_with("STAT limit_maxbytes 0\r\nEND\r\n"));
    assert_eq!(run(&mut s, "stats items\r\n", T0), "END\r\n");
}

#[test]
fn malformed_and_partial_input() {
    let mut s = fresh();
    assert_eq!(run(&mut s, "get\r\n", T0), "ERROR\r\n");
    assert_eq!(run(&mut s, "version\r\n", T0), "VERSION Goldfish 1.0\r\n");
    let mut buf = b"ver".to_vec();
    let mut out = Vec::new();
    assert!(process_input_buffered_at(&mut s, &mut buf, &mut out, T0));
    assert_eq!(buf, b"ver");
    assert!(out.is_empty());
    let mut buf = b"set k 0 0 5\r\nhel".to_vec();
    let mut out = Vec::new();
    process_input_buffered_at(&mut s, &mut buf, &mut out, T0);
    assert_eq!(out, b"ERROR\r\nERROR\r\n");
    assert!(buf.is_empty());
    let mut buf = b"get k".to_vec();
    let mut out = Vec::new();
    process_input_buffered_at(&mut s, &mut buf, &mut out, T0);
    assert_eq!(buf, b"get k");
    assert!(out.is_empty());
}

#[test]
fn quit_stops_and_stays_buffered() {
    let mut s = fresh();
    let mut buf = b"version\r\nquit\r\nversion\r\n".to_vec();
    let mut out = Vec::new();
    assert!(!process_input_buffered_at(&mut s, &mut buf, &mut out, T0));
    assert_eq!(out, b"VERSION Goldfish 1.0\r\n");
    assert_eq!(buf, b"quit\r\nversion\r\n");
    let mut out = Vec::new();
    assert!(!process_input_at(&mut s, b"version\r\nquit\r\nversion\r\n", &mut out, T0));
    assert_eq!(out, b"VERSION Goldfish 1.0\r\n");
}

#[test]
fn whole_and_buffered_input_agree() {
    let input = b"set a 0 0 1\r\nx\r\nincr a 1\r\nbogus\r\nget a b\r\n";
    let mut s1 = fresh();
    let mut out1 = Vec::new();
    assert!(process_input_at(&mut s1, input, &mut out1, T0));
    let mut s2 = fresh();
    let mut out2 = Vec::new();
    let mut buf = input.to_vec();
    assert!(process_input_buffered_at(&mut s2, &mut buf, &mut out2, T0));
    assert_eq!(out1, out2);
    assert!(buf.is_empty());
    assert_eq!(
        String::from_utf8(out1).unwrap(),
        "STORED\r\nCLIENT_ERROR cannot increment or decrement non-numeric value\r\nERROR\r\n\
         VALUE a 0 1\r\nx\r\nEND\r\n"
    );
}

#[test]
fn tokens_differ_after_each_store() {
    let mut s = fresh();
    run(&mut s, "set k 0 0 1\r\na\r\n", T0);
    let first = s.get_cas(b"k").unwrap();
    run(&mut s, "touch k 10\r\n", T0);
    let second = s.get_cas(b"k").unwrap();
    run(&mut s, "append k 0 0 1\r\nb\r\n", T0);
    let third = s.get_cas(b"k").unwrap();
    assert_ne!(first, second);
    assert_ne!(second, third);
}

#[test]
fn gets_reports_the_stored_token() {
    let mut s = fresh();
    run(&mut s, "set k 0 0 1\r\na\r\nset j 0 0 1\r\nb\r\n", T0);
    let token = s.get_cas(b"k").unwrap();
    assert_eq!(run(&mut s, "gets k\r\n", T0), format!("VALUE k 0 1 {token}\r\na\r\nEND\r\n"));
    assert_eq!(s.get_cas(b"k"), Some(token));
}

#[test]
fn append_keeps_the_expiration() {
    let mut s = fresh();
    run(&mut s, "set k 0 10 1\r\na\r\n", T0);
    run(&mut s, "append k 0 0 1\r\nb\r\n", T0 + 5_000_000_000);
    // Ten seconds from the append, not forever.
    assert_eq!(run(&mut s, "get k\r\n", T0 + 14_000_000_000), "VALUE k 0 2\r\nab\r\nEND\r\n");
    assert_eq!(run(&mut s, "get k\r\n", T0 + 15_000_000_000), "END\r\n");
}

#[test]
fn gat_counts_once_per_command() {
    let mut s = fresh();
    run(&mut s, "set a 0 0 1\r\nx\r\nset b 0 0 1\r\ny\r\n", T0);
    assert_eq!(
        run(&mut s, "gat 100 a missing b\r\n", T0),
        "VALUE a 0 1\r\nx\r\nVALUE b 0 1\r\ny\r\nEND\r\n"
    );
    assert_eq!(s.get_hits(), 1);
    assert_eq!(s.get_misses(), 0);
    assert_eq!(run(&mut s, "gat 100 missing other\r\n", T0), "END\r\n");
    assert_eq!(s.get_hits(), 1);
    assert_eq!(s.get_misses(), 1);
}

#[test]
fn gat_with_a_bad_key_changes_nothing() {
    let mut s = fresh();
    run(&mut s, "set a 0 0 1\r\nx\r\n", T0);
    let long = "k".repeat(251);
    assert_eq!(
        run(&mut s, &format!("gats 100 a {}\r\n", long), T0),
        "CLIENT_ERROR bad command line format\r\n"
    );
    assert_eq!(s.get_hits(), 0);
    assert_eq!(s.get_misses(), 0);
    assert_eq!(s.get_cas(b"a"), Some(1));
    assert_eq!(s.get_key(b"a").unwrap().timeout, 0);
}

#[test]
fn splitting_at_a_command_boundary_changes_nothing() {
    let a = "set k 0 0 5\r\nhello\r\nincr n 1\r\n";
    let b = "get k\r\nappend k 0 0 1\r\n!\r\ngets k\r\n";
    let mut whole = fresh();
    let mut whole_out = Vec::new();
    assert!(process_input_at(&mut whole, format!("{}{}", a, b).as_bytes(), &mut whole_out, T0));
    let mut split = fresh();
    let mut split_out = Vec::new();
    assert!(process_input_at(&mut split, a.as_bytes(), &mut split_out, T0));
    assert!(process_input_at(&mut split, b.as_bytes(), &mut split_out, T0));
    assert_eq!(whole_out, split_out);
    assert_eq!(whole.get_key(b"k").unwrap().data, split.get_key(b"k").unwrap().data);
    assert_eq!(whole.get_cas(b"k"), split.get_cas(b"k"));
}

#[test]
fn tokens_stay_fresh_after_flush_all() {
    let mut s = fresh();
    run(&mut s, "set a 0 0 1\r\nx\r\nset b 0 0 1\r\ny\r\n", T0);
    let before = s.get_cas(b"b").unwrap();
    assert_eq!(run(&mut s, "flush_all\r\n", T0), "OK\r\n");
    run(&mut s, "set a 0 0 1\r\nz\r\n", T0);
    assert!(s.get_cas(b"a").unwrap() > before);
    assert_eq!(run(&mut s, &format!("cas a 0 0 1 {}\r\nw\r\n", before), T0), "EXISTS\r\n");
}

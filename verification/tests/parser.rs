use sysutil::snapshot::{parse_line, Line};
use sysutil::text::{parse_number, split_bytes, split_lines, tokenize, Delimiter};
use sysutil::{getRate, getStats, parse_snapshot, Family, SampleError};

const STAT: &str = "cpu  100 0 50 800 10 0 0 0 0 0\n\
cpu0 60 0 30 400 5 0 0 0 0 0\n\
cpu1 40 0 20 400 5 0 0 0 0 0\n\
intr 12345 0 0\n\
ctxt 99\n\
btime 1700000000\n\
processes 4242";

const NET_DEV: &str = "Inter-|   Receive                                                |  Transmit\n \
face |bytes    packets errs drop fifo frame compressed multicast|bytes    packets errs drop fifo colls carrier compressed\n    \
lo: 1000 10 0 0 0 0 0 0 500 10 0 0 0 0 0 0\n  \
eth0:2000 20 0 0 0 0 0 0 700 20 0 0 0 0 0 0";

#[test]
fn split_keeps_empty_pieces() {
    let got = split_bytes(b"a\n\nbc\n", Delimiter::Newline, false);
    assert_eq!(got, vec![b"a".to_vec(), b"".to_vec(), b"bc".to_vec(), b"".to_vec()]);
}

#[test]
fn split_of_empty_text_is_one_empty_piece() {
    assert_eq!(split_lines(b""), vec![Vec::<u8>::new()]);
    assert_eq!(split_bytes(b"", Delimiter::Colon, true), Vec::<Vec<u8>>::new());
}

#[test]
fn split_at_colon() {
    let got = split_bytes(b"eth0: 1 2", Delimiter::Colon, false);
    assert_eq!(got, vec![b"eth0".to_vec(), b" 1 2".to_vec()]);
}

#[test]
fn tokens_are_runs_between_blanks() {
    let got = tokenize(b"  cpu \t 12  7\r ");
    assert_eq!(got, vec![b"cpu".to_vec(), b"12".to_vec(), b"7".to_vec()]);
    assert_eq!(tokenize(b"   "), Vec::<Vec<u8>>::new());
}

#[test]
fn numbers_are_decimal() {
    assert_eq!(parse_number(b"0"), Some(0));
    assert_eq!(parse_number(b"007"), Some(7));
    assert_eq!(parse_number(b"1234567890"), Some(1234567890));
    assert_eq!(parse_number(b"+42"), Some(42));
}

#[test]
fn numbers_reject_what_is_not_decimal() {
    assert_eq!(parse_number(b""), None);
    assert_eq!(parse_number(b"+"), None);
    assert_eq!(parse_number(b"-1"), None);
    assert_eq!(parse_number(b"12a"), None);
    assert_eq!(parse_number(b"1.5"), None);
    assert_eq!(parse_number(b"++1"), None);
}

#[test]
fn numbers_stop_at_the_machine_word() {
    let max = format!("{}", usize::MAX);
    assert_eq!(parse_number(max.as_bytes()), Some(usize::MAX));
    let over = format!("{}0", usize::MAX);
    assert_eq!(parse_number(over.as_bytes()), None);
    assert_eq!(parse_number(b"340282366920938463463374607431768211456"), None);
}

#[test]
fn stat_text_gives_one_row_per_cpu_line() {
    let snapshot = getStats(STAT.as_bytes()).unwrap();
    assert_eq!(
        snapshot.rows,
        vec![
            vec![100, 0, 50, 800, 10, 0, 0, 0, 0, 0],
            vec![60, 0, 30, 400, 5, 0, 0, 0, 0, 0],
            vec![40, 0, 20, 400, 5, 0, 0, 0, 0, 0],
        ]
    );
}

#[test]
fn empty_text_gives_empty_snapshot() {
    assert_eq!(getStats(b"").unwrap().rows, Vec::<Vec<usize>>::new());
    assert_eq!(parse_snapshot(b"", Family::Network).unwrap().rows, Vec::<Vec<usize>>::new());
    assert_eq!(getRate(b""), Ok((0, 0)));
}

#[test]
fn only_a_leading_label_retains_a_line() {
    let text = b"cpux 1 2 3 4 5 6 7\nfoo cpu 1 2 3 4 5 6 7\ncp 1 2 3 4 5 6 7\ncpu12 1 2 3 4 5 6 7";
    let snapshot = getStats(text).unwrap();
    assert_eq!(snapshot.rows, vec![vec![1, 2, 3, 4, 5, 6, 7]]);
}

#[test]
fn trailing_blanks_are_discarded() {
    let snapshot = getStats(b"cpu 1 2 3 4 5 6 7   \t\r\n").unwrap();
    assert_eq!(snapshot.rows, vec![vec![1, 2, 3, 4, 5, 6, 7]]);
}

#[test]
fn non_numeric_token_names_its_line() {
    let text = b"intr 1 x\ncpu 1 2 3 4 5 6 7\ncpu0 1 2 three 4 5 6 7\ncpu1 bad";
    assert_eq!(
        getStats(text).unwrap_err(),
        SampleError::MalformedCounterLine { line: 2, family: Family::Cpu }
    );
}

#[test]
fn too_few_counters_is_malformed() {
    assert_eq!(
        getStats(b"cpu 1 2 3 4 5 6").unwrap_err(),
        SampleError::MalformedCounterLine { line: 0, family: Family::Cpu }
    );
    assert_eq!(
        getRate(b"h\nlo: 1 2 3 4 5 6 7 8").unwrap_err(),
        SampleError::MalformedCounterLine { line: 1, family: Family::Network }
    );
}

#[test]
fn second_label_in_a_row_is_malformed() {
    assert_eq!(
        getStats(b"cpu cpu0 1 2 3 4 5 6 7").unwrap_err(),
        SampleError::MalformedCounterLine { line: 0, family: Family::Cpu }
    );
}

#[test]
fn network_text_gives_one_row_per_interface() {
    let snapshot = parse_snapshot(NET_DEV.as_bytes(), Family::Network).unwrap();
    assert_eq!(
        snapshot.rows,
        vec![
            vec![1000, 10, 0, 0, 0, 0, 0, 0, 500, 10, 0, 0, 0, 0, 0, 0],
            vec![2000, 20, 0, 0, 0, 0, 0, 0, 700, 20, 0, 0, 0, 0, 0, 0],
        ]
    );
}

#[test]
fn traffic_totals_sum_over_interfaces() {
    assert_eq!(getRate(NET_DEV.as_bytes()), Ok((3000, 1200)));
}

#[test]
fn traffic_totals_do_not_wrap() {
    let row = format!("a: {m} 0 0 0 0 0 0 0 {m}\nb: {m} 0 0 0 0 0 0 0 1", m = usize::MAX);
    let expected = (2 * (usize::MAX as u128), usize::MAX as u128 + 1);
    assert_eq!(getRate(row.as_bytes()), Ok(expected));
}

#[test]
fn network_line_with_bad_token_is_malformed() {
    assert_eq!(
        getRate(b"lo: 1 2 3 4 5 6 7 8 9\neth0: 1 2 3 4 5 6 7 8 n/a").unwrap_err(),
        SampleError::MalformedCounterLine { line: 1, family: Family::Network }
    );
}

#[test]
fn tokens_after_the_first_colon_only() {
    assert_eq!(
        getRate(b"a:b: 1 2 3 4 5 6 7 8 9").unwrap_err(),
        SampleError::MalformedCounterLine { line: 0, family: Family::Network }
    );
}

#[test]
fn line_kinds() {
    assert!(matches!(parse_line(b"ctxt 5", Family::Cpu), Line::Skipped));
    assert!(matches!(parse_line(b"", Family::Network), Line::Skipped));
    assert!(matches!(parse_line(b"cpu 1", Family::Cpu), Line::Malformed));
    match parse_line(b"cpu3 7 6 5 4 3 2 1", Family::Cpu) {
        Line::Row(v) => assert_eq!(v, vec![7, 6, 5, 4, 3, 2, 1]),
        other => panic!("unexpected {:?}", other),
    }
}

#[test]
fn parsing_twice_gives_the_same_snapshot() {
    let first = getStats(STAT.as_bytes()).unwrap();
    let second = getStats(STAT.as_bytes()).unwrap();
    assert_eq!(first.rows, second.rows);
    let bad = b"cpu 1 2 3 4 5 6 x";
    assert_eq!(getStats(bad).unwrap_err(), getStats(bad).unwrap_err());
}

use cq::args::parse_args;
use cq::engine::{feed, finish, ReaderState};

fn toks(args: &[&str]) -> Vec<Vec<u8>> {
    let mut v: Vec<Vec<u8>> = vec![b"cq".to_vec()];
    for a in args {
        v.push(a.as_bytes().to_vec());
    }
    v
}

fn run_query_chunked(args: &[&str], input: &[u8], chunk: usize) -> Vec<String> {
    let q = parse_args(toks(args)).expect("arguments should parse");
    let mut state = ReaderState::new(&q);
    if input.is_empty() {
        feed(&q, &mut state, &Vec::new());
    } else {
        for piece in input.chunks(chunk) {
            feed(&q, &mut state, &piece.to_vec());
        }
    }
    finish(&q, &mut state);
    state
        .output
        .iter()
        .map(|line| String::from_utf8(line.clone()).expect("output should be text"))
        .collect()
}

fn run_query(args: &[&str], input: &[u8]) -> Vec<String> {
    run_query_chunked(args, input, input.len().max(1))
}

#[test]
fn no_flags_outputs_all_columns() {
    let out = run_query(&[], b"a,b\r\n1,2\r\n3,4\r\n");
    assert_eq!(out, vec!["1,2".to_string(), "3,4".to_string()]);
}

#[test]
fn select_and_filter() {
    let out = run_query(
        &["-select", "city", "-where", "name", "-eq", "Ada"],
        b"name,city\r\nAda,London\r\nBob,Paris\r\n",
    );
    assert_eq!(out, vec!["London".to_string()]);
}

#[test]
fn select_missing_column_outputs_nothing() {
    let out = run_query(&["-select", "missing"], b"name,city\r\nAda,London\r\nBob,Paris\r\n");
    assert_eq!(out, Vec::<String>::new());
}

#[test]
fn chunk_sizes_do_not_matter() {
    let input = b"name,city\r\nAda,London\r\nBob,Paris\r\nEve,Oslo";
    let args = ["-select", "city"];
    let whole = run_query(&args, input);
    assert_eq!(whole, vec!["London".to_string(), "Paris".to_string(), "Oslo".to_string()]);
    for chunk in 1..=input.len() {
        assert_eq!(run_query_chunked(&args, input, chunk), whole);
    }
}

#[test]
fn header_only_no_output() {
    assert_eq!(run_query(&[], b"name,city"), Vec::<String>::new());
    assert_eq!(run_query(&[], b"name,city\r\n"), Vec::<String>::new());
    assert_eq!(run_query(&["-select", "name"], b"name,city\r\n"), Vec::<String>::new());
}

#[test]
fn empty_input_no_output() {
    assert_eq!(run_query(&[], b""), Vec::<String>::new());
}

#[test]
fn last_record_without_terminator_still_emitted() {
    let out = run_query(&[], b"a,b\r\n1,2");
    assert_eq!(out, vec!["1,2".to_string()]);
    let out = run_query(&["-select", "b"], b"a,b\r\n1,2\r\n3,4");
    assert_eq!(out, vec!["2".to_string(), "4".to_string()]);
}

#[test]
fn projection_keeps_original_column_order() {
    let out = run_query(&["-select", "c", "a"], b"a,b,c\r\n1,2,3\r\n");
    assert_eq!(out, vec!["1,3".to_string()]);
}

#[test]
fn filters_are_anded() {
    let input = b"x,y\r\n1,2\r\n1,9\r\n8,2\r\n";
    let out = run_query(&["-where", "x", "-eq", "1", "-where", "y", "-eq", "2"], input);
    assert_eq!(out, vec!["1,2".to_string()]);
}

#[test]
fn filter_on_absent_column_suppresses_everything() {
    let out = run_query(&["-where", "nope", "-eq", "1"], b"a,b\r\n1,2\r\n3,4\r\n");
    assert_eq!(out, Vec::<String>::new());
}

#[test]
fn first_filter_for_a_column_wins() {
    let input = b"x\r\n1\r\n9\r\n";
    let out = run_query(&["-where", "x", "-eq", "1", "-where", "x", "-eq", "9"], input);
    assert_eq!(out, vec!["1".to_string()]);
}

#[test]
fn bare_line_feeds_do_not_end_records() {
    // The record separator is the carriage-return byte; a bare line feed is
    // dropped, so text with LF-only line endings stays one header record.
    let out = run_query(&[], b"a,b\nc,d");
    assert_eq!(out, Vec::<String>::new());
}

#[test]
fn bare_carriage_returns_end_records() {
    let out = run_query(&[], b"a\r1\r2");
    assert_eq!(out, vec!["1".to_string(), "2".to_string()]);
}

#[test]
fn empty_data_record_gives_empty_line_when_projecting_all() {
    let out = run_query(&[], b"a\r\n\r\n1\r\n");
    assert_eq!(out, vec!["".to_string(), "1".to_string()]);
}

#[test]
fn unprojected_fields_may_hold_any_bytes() {
    let mut input: Vec<u8> = Vec::new();
    input.extend_from_slice(b"a,b\r\n1,");
    input.extend_from_slice(&[0xFF, 0xFE]);
    input.extend_from_slice(b"\r\n");
    let out = run_query(&["-select", "a"], &input);
    assert_eq!(out, vec!["1".to_string()]);
}

#[test]
fn feeding_after_draining_output_continues_the_stream() {
    let q = parse_args(toks(&[])).unwrap();
    let mut state = ReaderState::new(&q);
    feed(&q, &mut state, &b"a\r\n1\r\n".to_vec());
    let first: Vec<Vec<u8>> = std::mem::take(&mut state.output);
    assert_eq!(first, vec![b"1".to_vec()]);
    feed(&q, &mut state, &b"2\r\n".to_vec());
    finish(&q, &mut state);
    assert_eq!(state.output, vec![b"2".to_vec()]);
}

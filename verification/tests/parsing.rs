use cq::args::{parse_args, ArgError};
use cq::cursor::Iterator;

fn toks(args: &[&str]) -> Vec<Vec<u8>> {
    let mut v: Vec<Vec<u8>> = vec![b"cq".to_vec()];
    for a in args {
        v.push(a.as_bytes().to_vec());
    }
    v
}

#[test]
fn defaults_with_no_flags() {
    let a = parse_args(toks(&[])).unwrap();
    assert_eq!(a.input_path, None);
    assert!(a.columns.is_empty());
    assert!(a.filters.is_empty());
}

#[test]
fn select_consumes_names_until_next_flag() {
    let a = parse_args(toks(&["-select", "city", "county", "-where", "state", "-eq", "WA"]))
        .unwrap();
    assert_eq!(a.columns, vec![b"city".to_vec(), b"county".to_vec()]);
    assert_eq!(a.filters.len(), 1);
    assert_eq!(a.filters[0].column, b"state".to_vec());
    assert_eq!(a.filters[0].value, b"WA".to_vec());
}

#[test]
fn repeated_select_extends_the_projection() {
    let a = parse_args(toks(&["-select", "a", "-select", "b", "c"])).unwrap();
    assert_eq!(a.columns, vec![b"a".to_vec(), b"b".to_vec(), b"c".to_vec()]);
}

#[test]
fn in_flag_records_the_path_and_last_one_wins() {
    let a = parse_args(toks(&["-in", "one.csv", "-in", "two.csv"])).unwrap();
    assert_eq!(a.input_path, Some(b"two.csv".to_vec()));
}

#[test]
fn repeated_where_adds_predicates() {
    let a = parse_args(toks(&["-where", "x", "-eq", "1", "-where", "y", "-eq", "2"])).unwrap();
    assert_eq!(a.filters.len(), 2);
    assert_eq!(a.filters[0].column, b"x".to_vec());
    assert_eq!(a.filters[0].value, b"1".to_vec());
    assert_eq!(a.filters[1].column, b"y".to_vec());
    assert_eq!(a.filters[1].value, b"2".to_vec());
}

#[test]
fn empty_token_list_is_an_error() {
    assert_eq!(parse_args(Vec::new()).unwrap_err(), ArgError::MissingExecutable);
}

#[test]
fn in_without_filename_is_an_error() {
    assert_eq!(parse_args(toks(&["-in"])).unwrap_err(), ArgError::MissingFileName);
}

#[test]
fn where_without_column_is_an_error() {
    assert_eq!(parse_args(toks(&["-where"])).unwrap_err(), ArgError::MissingWhereColumn);
}

#[test]
fn where_without_eq_token_is_an_error() {
    assert_eq!(parse_args(toks(&["-where", "x"])).unwrap_err(), ArgError::MissingEq);
}

#[test]
fn where_with_wrong_eq_token_is_an_error() {
    assert_eq!(
        parse_args(toks(&["-where", "x", "-gt", "1"])).unwrap_err(),
        ArgError::NotEq(b"-gt".to_vec())
    );
}

#[test]
fn where_without_value_is_an_error() {
    assert_eq!(parse_args(toks(&["-where", "x", "-eq"])).unwrap_err(), ArgError::MissingValue);
}

#[test]
fn unknown_flag_is_an_error() {
    assert_eq!(
        parse_args(toks(&["-frobnicate"])).unwrap_err(),
        ArgError::UnknownArgument(b"-frobnicate".to_vec())
    );
    assert_eq!(
        parse_args(toks(&["stray"])).unwrap_err(),
        ArgError::UnknownArgument(b"stray".to_vec())
    );
}

#[test]
fn cursor_walks_accepts_and_refunds() {
    let mut it = Iterator::new(vec![b"a".to_vec(), b"b".to_vec()]);
    assert_eq!(it.index, 0);
    assert_eq!(it.accept(), Some(b"a".to_vec()));
    assert_eq!(it.accept(), Some(b"b".to_vec()));
    assert_eq!(it.accept(), None);
    it.refund();
    assert_eq!(it.accept(), Some(b"b".to_vec()));
}

#[test]
fn cursor_expect_reports_the_given_error() {
    let mut it = Iterator::new(vec![b"a".to_vec()]);
    assert_eq!(it.expect(ArgError::MissingValue), Ok(b"a".to_vec()));
    assert_eq!(it.expect(ArgError::MissingValue), Err(ArgError::MissingValue));
}

//! Command-token parsing: a verified walk over the raw argument tokens that
//! yields the input path, the projection list and the filter predicates.
//!
//! Tokens are byte strings, compared byte for byte.  The abstract function
//! [`spec_parse_args`] states the whole grammar; [`parse_args`] is proved to
//! return exactly its result.

use vstd::prelude::*;
use crate::cursor::Iterator;

verus! {

/// One equality predicate as requested on the command line: the named column
/// must hold exactly `value`.
#[derive(Debug)]
pub struct Filter {
    pub column: Vec<u8>,
    pub value: Vec<u8>,
}

/// The parsed invocation: where to read from (`None` means standard input),
/// which columns to project (empty means all), and which filters to apply.
#[derive(Debug)]
pub struct ReaderArgs {
    pub input_path: Option<Vec<u8>>,
    pub columns: Vec<Vec<u8>>,
    pub filters: Vec<Filter>,
}

/// A malformed command line, carrying the offending token where there is one.
#[derive(Debug, PartialEq, Eq)]
pub enum ArgError {
    /// The token list was empty: even the executable path was missing.
    MissingExecutable,
    /// `-in` stood last, with no file name after it.
    MissingFileName,
    /// `-where` stood last, with no column name after it.
    MissingWhereColumn,
    /// The tokens ran out where the literal `-eq` was expected.
    MissingEq,
    /// Another token stood where the literal `-eq` was expected.
    NotEq(Vec<u8>),
    /// The tokens ran out where the filter value was expected.
    MissingValue,
    /// A token that is no known flag where a flag was expected.
    UnknownArgument(Vec<u8>),
}

#[verifier::ext_equal]
pub ghost struct FilterAbs {
    pub column: Seq<u8>,
    pub value: Seq<u8>,
}

#[verifier::ext_equal]
pub ghost struct ArgsAbs {
    pub input_path: Option<Seq<u8>>,
    pub columns: Seq<Seq<u8>>,
    pub filters: Seq<FilterAbs>,
}

#[verifier::ext_equal]
pub ghost enum ArgErrAbs {
    MissingExecutable,
    MissingFileName,
    MissingWhereColumn,
    MissingEq,
    NotEq(Seq<u8>),
    MissingValue,
    UnknownArgument(Seq<u8>),
}

impl View for Filter {
    type V = FilterAbs;

    open spec fn view(&self) -> FilterAbs {
        FilterAbs { column: self.column@, value: self.value@ }
    }
}

impl View for ReaderArgs {
    type V = ArgsAbs;

    open spec fn view(&self) -> ArgsAbs {
        ArgsAbs {
            input_path: self.input_path.deep_view(),
            columns: self.columns.deep_view(),
            filters: self.filters@.map_values(|f: Filter| f@),
        }
    }
}

impl View for ArgError {
    type V = ArgErrAbs;

    open spec fn view(&self) -> ArgErrAbs {
        match self {
            ArgError::MissingExecutable => ArgErrAbs::MissingExecutable,
            ArgError::MissingFileName => ArgErrAbs::MissingFileName,
            ArgError::MissingWhereColumn => ArgErrAbs::MissingWhereColumn,
            ArgError::MissingEq => ArgErrAbs::MissingEq,
            ArgError::NotEq(t) => ArgErrAbs::NotEq(t@),
            ArgError::MissingValue => ArgErrAbs::MissingValue,
            ArgError::UnknownArgument(t) => ArgErrAbs::UnknownArgument(t@),
        }
    }
}

/// The bytes of the flag `-in`.
pub open spec fn tok_in() -> Seq<u8> {
    seq![45u8, 105u8, 110u8]
}

/// The bytes of the flag `-select`.
pub open spec fn tok_select() -> Seq<u8> {
    seq![45u8, 115u8, 101u8, 108u8, 101u8, 99u8, 116u8]
}

/// The bytes of the flag `-where`.
pub open spec fn tok_where() -> Seq<u8> {
    seq![45u8, 119u8, 104u8, 101u8, 114u8, 101u8]
}

/// The bytes of the literal `-eq`.
pub open spec fn tok_eq() -> Seq<u8> {
    seq![45u8, 101u8, 113u8]
}

/// Whether a token begins with the dash byte, marking it as a flag.
pub open spec fn starts_dash(t: Seq<u8>) -> bool {
    t.len() > 0 && t[0] == 45u8
}

/// Arguments before any flag was seen: read standard input, project all
/// columns, filter nothing.
pub open spec fn init_args() -> ArgsAbs {
    ArgsAbs { input_path: None, columns: Seq::empty(), filters: Seq::empty() }
}

/// The tail of the token walk from position `i`, with `acc` parsed so far:
/// each flag consumes its operands, an unknown token is fatal.
pub open spec fn spec_parse_rest(tokens: Seq<Seq<u8>>, i: int, acc: ArgsAbs) -> Result<
    ArgsAbs,
    ArgErrAbs,
>
    decreases tokens.len() - i, 0int,
{
    if i >= tokens.len() {
        Ok(acc)
    } else if tokens[i] == tok_in() {
        if i + 1 >= tokens.len() {
            Err(ArgErrAbs::MissingFileName)
        } else {
            spec_parse_rest(tokens, i + 2, ArgsAbs { input_path: Some(tokens[i + 1]), ..acc })
        }
    } else if tokens[i] == tok_select() {
        spec_parse_selects(tokens, i + 1, acc)
    } else if tokens[i] == tok_where() {
        if i + 1 >= tokens.len() {
            Err(ArgErrAbs::MissingWhereColumn)
        } else if i + 2 >= tokens.len() {
            Err(ArgErrAbs::MissingEq)
        } else if tokens[i + 2] != tok_eq() {
            Err(ArgErrAbs::NotEq(tokens[i + 2]))
        } else if i + 3 >= tokens.len() {
            Err(ArgErrAbs::MissingValue)
        } else {
            spec_parse_rest(
                tokens,
                i + 4,
                ArgsAbs {
                    filters: acc.filters.push(
                        FilterAbs { column: tokens[i + 1], value: tokens[i + 3] },
                    ),
                    ..acc
                },
            )
        }
    } else {
        Err(ArgErrAbs::UnknownArgument(tokens[i]))
    }
}

/// The greedy operand walk of `-select`: every token up to the next flag (or
/// the end) is one more projected column name.
pub open spec fn spec_parse_selects(tokens: Seq<Seq<u8>>, i: int, acc: ArgsAbs) -> Result<
    ArgsAbs,
    ArgErrAbs,
>
    decreases tokens.len() - i, 1int,
{
    if i >= tokens.len() {
        Ok(acc)
    } else if starts_dash(tokens[i]) {
        spec_parse_rest(tokens, i, acc)
    } else {
        spec_parse_selects(tokens, i + 1, ArgsAbs { columns: acc.columns.push(tokens[i]), ..acc })
    }
}

/// What parsing a whole token list yields.  The first token is the executable
/// path and carries no meaning; its absence is the only way an empty list
/// fails.
pub open spec fn spec_parse_args(tokens: Seq<Seq<u8>>) -> Result<ArgsAbs, ArgErrAbs> {
    if tokens.len() == 0 {
        Err(ArgErrAbs::MissingExecutable)
    } else {
        spec_parse_rest(tokens, 1, init_args())
    }
}

/// The abstraction of an exec parse result.
pub open spec fn parse_result_view(r: Result<ReaderArgs, ArgError>) -> Result<
    ArgsAbs,
    ArgErrAbs,
> {
    match r {
        Ok(a) => Ok(a@),
        Err(e) => Err(e@),
    }
}

/// Whether `t` holds exactly the bytes of `-in`.
fn is_tok_in(t: &Vec<u8>) -> (r: bool)
    ensures
        r == (t@ == tok_in()),
{
    let r = t.len() == 3 && t[0] == 45 && t[1] == 105 && t[2] == 110;
    proof {
        if r {
            assert(t@ =~= tok_in());
        }
    }
    r
}

/// Whether `t` holds exactly the bytes of `-select`.
fn is_tok_select(t: &Vec<u8>) -> (r: bool)
    ensures
        r == (t@ == tok_select()),
{
    let r = t.len() == 7 && t[0] == 45 && t[1] == 115 && t[2] == 101 && t[3] == 108 && t[4] == 101
        && t[5] == 99 && t[6] == 116;
    proof {
        if r {
            assert(t@ =~= tok_select());
        }
    }
    r
}

/// Whether `t` holds exactly the bytes of `-where`.
fn is_tok_where(t: &Vec<u8>) -> (r: bool)
    ensures
        r == (t@ == tok_where()),
{
    let r = t.len() == 6 && t[0] == 45 && t[1] == 119 && t[2] == 104 && t[3] == 101 && t[4] == 114
        && t[5] == 101;
    proof {
        if r {
            assert(t@ =~= tok_where());
        }
    }
    r
}

/// Whether `t` holds exactly the bytes of `-eq`.
fn is_tok_eq(t: &Vec<u8>) -> (r: bool)
    ensures
        r == (t@ == tok_eq()),
{
    let r = t.len() == 3 && t[0] == 45 && t[1] == 101 && t[2] == 113;
    proof {
        if r {
            assert(t@ =~= tok_eq());
        }
    }
    r
}

/// Whether `t` begins with the dash byte.
fn starts_with_dash(t: &Vec<u8>) -> (r: bool)
    ensures
        r == starts_dash(t@),
{
    t.len() > 0 && t[0] == 45
}

/// Parses the raw command tokens (the executable path first) into
/// [`ReaderArgs`], returning exactly what [`spec_parse_args`] states: the last
/// `-in` wins, `-select` consumes names up to the next flag, each `-where`
/// adds one predicate, and the first malformed token decides the error.
#[verifier::loop_isolation(false)]
pub fn parse_args(tokens: Vec<Vec<u8>>) -> (r: Result<ReaderArgs, ArgError>)
    ensures
        parse_result_view(r) == spec_parse_args(tokens.deep_view()),
{
    let ghost toks = tokens.deep_view();
    let mut it = Iterator::new(tokens);
    match it.expect(ArgError::MissingExecutable) {
        Err(e) => {
            return Err(e);
        },
        Ok(_) => {},
    }
    let mut result = ReaderArgs { input_path: None, columns: Vec::new(), filters: Vec::new() };
    proof {
        assert(result@ =~= init_args());
    }
    while it.index < it.items.len()
        invariant
            it.items.deep_view() == toks,
            it.index <= it.items.len(),
            spec_parse_rest(toks, it.index as int, result@) == spec_parse_args(toks),
        decreases it.items.len() - it.index,
    {
        let ghost i = it.index as int;
        let ghost acc = result@;
        let arg = it.accept().unwrap();
        assert(arg@ == toks[i]);
        if is_tok_in(&arg) {
            match it.expect(ArgError::MissingFileName) {
                Err(e) => {
                    proof {
                        assert(spec_parse_rest(toks, i, acc) == Err::<ArgsAbs, ArgErrAbs>(
                            ArgErrAbs::MissingFileName,
                        ));
                    }
                    return Err(e);
                },
                Ok(f) => {
                    result.input_path = Some(f);
                    proof {
                        assert(result@ =~~= ArgsAbs { input_path: Some(toks[i + 1]), ..acc });
                    }
                },
            }
        } else if is_tok_select(&arg) {
            let mut scanning = true;
            while scanning
                invariant
                    it.items.deep_view() == toks,
                    it.index <= it.items.len(),
                    it.index as int > i,
                    scanning ==> spec_parse_selects(toks, it.index as int, result@)
                        == spec_parse_args(toks),
                    !scanning ==> spec_parse_rest(toks, it.index as int, result@)
                        == spec_parse_args(toks),
                decreases it.items.len() - it.index + (if scanning { 1int } else { 0int }),
            {
                let ghost j = it.index as int;
                let ghost acc2 = result@;
                match it.accept() {
                    None => {
                        scanning = false;
                    },
                    Some(s) => {
                        if starts_with_dash(&s) {
                            it.refund();
                            scanning = false;
                        } else {
                            result.columns.push(s);
                            proof {
                                assert(result@ =~~= ArgsAbs {
                                    columns: acc2.columns.push(toks[j]),
                                    ..acc2
                                });
                            }
                        }
                    },
                }
            }
        } else if is_tok_where(&arg) {
            let column = match it.expect(ArgError::MissingWhereColumn) {
                Err(e) => {
                    proof {
                        assert(spec_parse_rest(toks, i, acc) == Err::<ArgsAbs, ArgErrAbs>(
                            ArgErrAbs::MissingWhereColumn,
                        ));
                    }
                    return Err(e);
                },
                Ok(c) => c,
            };
            let eqtok = match it.expect(ArgError::MissingEq) {
                Err(e) => {
                    return Err(e);
                },
                Ok(t) => t,
            };
            if !is_tok_eq(&eqtok) {
                proof {
                    assert(spec_parse_rest(toks, i, acc) == Err::<ArgsAbs, ArgErrAbs>(
                        ArgErrAbs::NotEq(toks[i + 2]),
                    ));
                }
                return Err(ArgError::NotEq(eqtok));
            }
            let value = match it.expect(ArgError::MissingValue) {
                Err(e) => {
                    return Err(e);
                },
                Ok(v) => v,
            };
            result.filters.push(Filter { column, value });
            proof {
                assert(result@ =~~= ArgsAbs {
                    filters: acc.filters.push(
                        FilterAbs { column: toks[i + 1], value: toks[i + 3] },
                    ),
                    ..acc
                });
            }
        } else {
            return Err(ArgError::UnknownArgument(arg));
        }
    }
    Ok(result)
}

} // verus!

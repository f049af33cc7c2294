//! The streaming engine: an incremental tokenizer over comma-delimited bytes,
//! header-driven column resolution, per-record filter evaluation, and
//! projection of accepted records as comma-joined output lines.
//!
//! The abstract state machine is given by [`spec_step`] (one input byte),
//! [`spec_run`] (a whole byte sequence) and [`spec_finish`] (end of stream).
//! The executable [`ReaderState`] is proved to follow it exactly, chunk by
//! chunk, so the output provably depends only on the concatenated input, not
//! on how it was chunked.

use vstd::prelude::*;
use vstd::pervasive::VecAdditionalExecFns;
use crate::args::{ArgsAbs, Filter, FilterAbs, ReaderArgs};
use crate::bytes::{bytes_eq, clone_bytes, contains_bytes};

verus! {

/// The byte that is dropped wherever it appears (the line-feed half of a
/// two-byte line terminator).
pub const LINE_FEED: u8 = 10;

/// The byte that ends a record (the carriage-return byte).
pub const RECORD_SEP: u8 = 13;

/// The byte that ends a field within a record (the comma byte).
pub const FIELD_SEP: u8 = 44;

/// One filter predicate resolved against the header: the field index it
/// watches, the value it expects there, and whether the current record has
/// matched it.
pub struct FilterState {
    pub column_index: usize,
    pub value: Vec<u8>,
    pub matched: bool,
}

/// All state that survives a chunk boundary: the header resolution results,
/// the position inside the current record, the pending field bytes, the
/// values collected for the current record, and the finished output lines.
pub struct ReaderState {
    pub column_indexes: Vec<usize>,
    pub filters: Vec<FilterState>,
    pub filters_resolved: Vec<bool>,
    pub in_header: bool,
    pub column_index: usize,
    pub current_value: Vec<u8>,
    pub to_print: Vec<Vec<u8>>,
    pub output: Vec<Vec<u8>>,
}

#[verifier::ext_equal]
pub ghost struct FilterStateAbs {
    pub column_index: int,
    pub value: Seq<u8>,
    pub matched: bool,
}

#[verifier::ext_equal]
pub ghost struct StateAbs {
    pub column_indexes: Seq<int>,
    pub filters: Seq<FilterStateAbs>,
    pub filters_resolved: Seq<bool>,
    pub in_header: bool,
    pub column_index: int,
    pub current_value: Seq<u8>,
    pub to_print: Seq<Seq<u8>>,
    pub output: Seq<Seq<u8>>,
}

impl View for FilterState {
    type V = FilterStateAbs;

    open spec fn view(&self) -> FilterStateAbs {
        FilterStateAbs {
            column_index: self.column_index as int,
            value: self.value@,
            matched: self.matched,
        }
    }
}

impl View for ReaderState {
    type V = StateAbs;

    open spec fn view(&self) -> StateAbs {
        StateAbs {
            column_indexes: self.column_indexes@.map_values(|x: usize| x as int),
            filters: self.filters@.map_values(|f: FilterState| f@),
            filters_resolved: self.filters_resolved@,
            in_header: self.in_header,
            column_index: self.column_index as int,
            current_value: self.current_value@,
            to_print: self.to_print.deep_view(),
            output: self.output.deep_view(),
        }
    }
}

/// The state before any byte arrived: in the header record, nothing pending,
/// nothing resolved, nothing written, and no predicate yet found in the
/// header.
pub open spec fn init_state(q: ArgsAbs) -> StateAbs {
    StateAbs {
        column_indexes: Seq::empty(),
        filters: Seq::empty(),
        filters_resolved: Seq::new(q.filters.len(), |k: int| false),
        in_header: true,
        column_index: 0,
        current_value: Seq::empty(),
        to_print: Seq::empty(),
        output: Seq::empty(),
    }
}

/// `j` points at the first predicate whose column name is `name`.
pub open spec fn first_filter_for(filters: Seq<FilterAbs>, name: Seq<u8>, j: int) -> bool {
    &&& 0 <= j < filters.len()
    &&& filters[j].column == name
    &&& forall|k: int| 0 <= k < j ==> filters[k].column != name
}

/// Some predicate has column name `name`.
pub open spec fn has_filter_for(filters: Seq<FilterAbs>, name: Seq<u8>) -> bool {
    exists|j: int| first_filter_for(filters, name, j)
}

/// `j` points at the first resolved entry watching field index `idx`.
pub open spec fn first_entry_at(filters: Seq<FilterStateAbs>, idx: int, j: int) -> bool {
    &&& 0 <= j < filters.len()
    &&& filters[j].column_index == idx
    &&& forall|k: int| 0 <= k < j ==> filters[k].column_index != idx
}

/// Some resolved entry watches field index `idx`.
pub open spec fn has_entry_at(filters: Seq<FilterStateAbs>, idx: int) -> bool {
    exists|j: int| first_entry_at(filters, idx, j)
}

/// At most one position is the first match for a name.
pub proof fn lemma_first_filter_unique(filters: Seq<FilterAbs>, name: Seq<u8>, j1: int, j2: int)
    requires
        first_filter_for(filters, name, j1),
        first_filter_for(filters, name, j2),
    ensures
        j1 == j2,
{
    if j1 < j2 {
        assert(filters[j1].column == name);
    } else if j2 < j1 {
        assert(filters[j2].column == name);
    }
}

/// At most one position is the first entry for an index.
pub proof fn lemma_first_entry_unique(filters: Seq<FilterStateAbs>, idx: int, j1: int, j2: int)
    requires
        first_entry_at(filters, idx, j1),
        first_entry_at(filters, idx, j2),
    ensures
        j1 == j2,
{
    if j1 < j2 {
        assert(filters[j1].column_index == idx);
    } else if j2 < j1 {
        assert(filters[j2].column_index == idx);
    }
}

/// The single evaluation of the field at index `idx` against the resolved
/// predicates: the first entry watching `idx`, if any, is set to whether the
/// field value equals its expected value.
pub open spec fn eval_filters(filters: Seq<FilterStateAbs>, idx: int, value: Seq<u8>) -> Seq<
    FilterStateAbs,
> {
    if has_entry_at(filters, idx) {
        let j = choose|j: int| first_entry_at(filters, idx, j);
        filters.update(
            j,
            FilterStateAbs { matched: value == filters[j].value, ..filters[j] },
        )
    } else {
        filters
    }
}

/// The per-predicate resolution marks after one header field: a predicate
/// whose column name equals the field's text is now known to be resolvable.
pub open spec fn mark_resolved(q: ArgsAbs, s: StateAbs) -> Seq<bool> {
    Seq::new(
        s.filters_resolved.len(),
        |k: int| s.filters_resolved[k] || (k < q.filters.len() && q.filters[k].column
            == s.current_value),
    )
}

/// Every predicate's column name was seen in the header.
pub open spec fn all_resolved(flags: Seq<bool>) -> bool {
    forall|k: int| 0 <= k < flags.len() ==> flags[k]
}

/// Header resolution of one field: a field whose text is a requested column
/// name contributes its index to the projection, and a field whose text is
/// the column of a predicate resolves that predicate (the first predicate
/// with that name wins) to the field's index.
pub open spec fn spec_header_field(q: ArgsAbs, s: StateAbs) -> StateAbs {
    let with_col = if q.columns.contains(s.current_value) {
        s.column_indexes.push(s.column_index)
    } else {
        s.column_indexes
    };
    let with_fs = if has_filter_for(q.filters, s.current_value) {
        let j = choose|j: int| first_filter_for(q.filters, s.current_value, j);
        s.filters.push(
            FilterStateAbs {
                column_index: s.column_index,
                value: q.filters[j].value,
                matched: false,
            },
        )
    } else {
        s.filters
    };
    StateAbs {
        column_indexes: with_col,
        filters: with_fs,
        filters_resolved: mark_resolved(q, s),
        ..s
    }
}

/// One data field: its value joins the record's output list when its index is
/// projected (or the projection is empty, meaning all columns), and the
/// predicate watching its index, if any, is evaluated against it.
pub open spec fn spec_data_field(q: ArgsAbs, s: StateAbs) -> StateAbs {
    let tp = if s.column_indexes.contains(s.column_index) || q.columns.len() == 0 {
        s.to_print.push(s.current_value)
    } else {
        s.to_print
    };
    StateAbs {
        to_print: tp,
        filters: eval_filters(s.filters, s.column_index, s.current_value),
        ..s
    }
}

/// End of a field: the pending bytes are handed to header resolution or data
/// evaluation, the field index advances, and the pending buffer clears.
pub open spec fn spec_value_end(q: ArgsAbs, s: StateAbs) -> StateAbs {
    let s1 = if s.in_header {
        spec_header_field(q, s)
    } else {
        spec_data_field(q, s)
    };
    StateAbs { column_index: s1.column_index + 1, current_value: Seq::empty(), ..s1 }
}

/// Every resolved predicate matched the current record (vacuously true with
/// no predicates).
pub open spec fn all_matched(filters: Seq<FilterStateAbs>) -> bool {
    forall|j: int| 0 <= j < filters.len() ==> filters[j].matched
}

/// All `matched` flags lowered for the next record.
pub open spec fn reset_matched(filters: Seq<FilterStateAbs>) -> Seq<FilterStateAbs> {
    filters.map_values(|f: FilterStateAbs| FilterStateAbs { matched: false, ..f })
}

/// The collected values of a record, comma-joined.
pub open spec fn join_fields(vals: Seq<Seq<u8>>) -> Seq<u8>
    decreases vals.len(),
{
    if vals.len() == 0 {
        Seq::empty()
    } else if vals.len() == 1 {
        vals[0]
    } else {
        vals[0] + seq![FIELD_SEP] + join_fields(vals.drop_first())
    }
}

/// End of a record: a line is written exactly when every predicate was
/// resolved against the header, every resolved predicate matched, and the
/// record's output list is non-empty; then the header phase ends (if it had
/// not), the field index and the output list reset, and the `matched` flags
/// lower.  A predicate whose column is absent from the header can never be
/// resolved, so it suppresses every record.
pub open spec fn spec_line_end(s: StateAbs) -> StateAbs {
    let out = if all_matched(s.filters) && all_resolved(s.filters_resolved) && s.to_print.len()
        > 0 {
        s.output.push(join_fields(s.to_print))
    } else {
        s.output
    };
    StateAbs {
        column_indexes: s.column_indexes,
        filters: reset_matched(s.filters),
        filters_resolved: s.filters_resolved,
        in_header: false,
        column_index: 0,
        current_value: Seq::empty(),
        to_print: Seq::empty(),
        output: out,
    }
}

/// One input byte: line-feed is dropped, carriage-return ends the field and
/// then the record, comma ends the field, and any other byte joins the
/// pending field.
pub open spec fn spec_step(q: ArgsAbs, s: StateAbs, b: u8) -> StateAbs {
    if b == LINE_FEED {
        s
    } else if b == RECORD_SEP {
        spec_line_end(spec_value_end(q, s))
    } else if b == FIELD_SEP {
        spec_value_end(q, s)
    } else {
        StateAbs { current_value: s.current_value.push(b), ..s }
    }
}

/// A whole byte sequence, one byte at a time.
pub open spec fn spec_run(q: ArgsAbs, s: StateAbs, input: Seq<u8>) -> StateAbs
    decreases input.len(),
{
    if input.len() == 0 {
        s
    } else {
        spec_run(q, spec_step(q, s, input[0]), input.drop_first())
    }
}

/// Whether the current record has begun: some pending byte was read, or an
/// earlier field of this record already ended.
pub open spec fn record_started(s: StateAbs) -> bool {
    s.current_value.len() > 0 || s.column_index != 0
}

/// End of the stream: a started pending field is flushed as a final field
/// boundary, and a final record boundary is emitted, so a last record that
/// lacks its terminator is still delivered.
pub open spec fn spec_finish(q: ArgsAbs, s: StateAbs) -> StateAbs {
    if record_started(s) {
        spec_line_end(spec_value_end(q, s))
    } else {
        spec_line_end(s)
    }
}

/// The output lines of a whole run over `input` under the query `q`.
pub open spec fn run_output(q: ArgsAbs, input: Seq<u8>) -> Seq<Seq<u8>> {
    spec_finish(q, spec_run(q, init_state(q), input)).output
}

/// Whether `list` holds `x`.
fn contains_index(list: &Vec<usize>, x: usize) -> (r: bool)
    ensures
        r == list@.map_values(|v: usize| v as int).contains(x as int),
{
    let ghost m = list@.map_values(|v: usize| v as int);
    let mut i: usize = 0;
    while i < list.len()
        invariant
            i <= list.len(),
            m == list@.map_values(|v: usize| v as int),
            m.len() == list@.len(),
            forall|j: int| 0 <= j < i ==> m[j] != x as int,
        decreases list.len() - i,
    {
        if list[i] == x {
            assert(m[i as int] == x as int);
            return true;
        }
        i = i + 1;
    }
    false
}

/// The position of the first predicate whose column name is `name`.
fn find_filter_for(filters: &Vec<Filter>, name: &Vec<u8>) -> (r: Option<usize>)
    ensures
        match r {
            Some(j) => first_filter_for(
                filters@.map_values(|f: Filter| f@),
                name@,
                j as int,
            ),
            None => !has_filter_for(filters@.map_values(|f: Filter| f@), name@),
        },
{
    let ghost m = filters@.map_values(|f: Filter| f@);
    let mut i: usize = 0;
    while i < filters.len()
        invariant
            i <= filters.len(),
            m == filters@.map_values(|f: Filter| f@),
            m.len() == filters@.len(),
            forall|k: int| 0 <= k < i ==> m[k].column != name@,
        decreases filters.len() - i,
    {
        if bytes_eq(&filters[i].column, name) {
            assert(m[i as int].column == name@);
            return Some(i);
        }
        i = i + 1;
    }
    proof {
        assert forall|j: int| !first_filter_for(m, name@, j) by {
            if 0 <= j < m.len() {
                assert(m[j].column != name@);
            }
        }
    }
    None
}

/// The position of the first resolved entry watching field index `idx`.
fn find_entry_at(filters: &Vec<FilterState>, idx: usize) -> (r: Option<usize>)
    ensures
        match r {
            Some(j) => first_entry_at(
                filters@.map_values(|f: FilterState| f@),
                idx as int,
                j as int,
            ),
            None => !has_entry_at(filters@.map_values(|f: FilterState| f@), idx as int),
        },
{
    let ghost m = filters@.map_values(|f: FilterState| f@);
    let mut i: usize = 0;
    while i < filters.len()
        invariant
            i <= filters.len(),
            m == filters@.map_values(|f: FilterState| f@),
            m.len() == filters@.len(),
            forall|k: int| 0 <= k < i ==> m[k].column_index != idx as int,
        decreases filters.len() - i,
    {
        if filters[i].column_index == idx {
            assert(m[i as int].column_index == idx as int);
            return Some(i);
        }
        i = i + 1;
    }
    proof {
        assert forall|j: int| !first_entry_at(m, idx as int, j) by {
            if 0 <= j < m.len() {
                assert(m[j].column_index != idx as int);
            }
        }
    }
    None
}

/// Whether every resolved predicate matched.
fn all_matched_exec(filters: &Vec<FilterState>) -> (r: bool)
    ensures
        r == all_matched(filters@.map_values(|f: FilterState| f@)),
{
    let ghost m = filters@.map_values(|f: FilterState| f@);
    let mut i: usize = 0;
    while i < filters.len()
        invariant
            i <= filters.len(),
            m == filters@.map_values(|f: FilterState| f@),
            m.len() == filters@.len(),
            forall|k: int| 0 <= k < i ==> m[k].matched,
        decreases filters.len() - i,
    {
        if !filters[i].matched {
            assert(!m[i as int].matched);
            return false;
        }
        i = i + 1;
    }
    true
}

/// Whether every predicate was resolved against the header.
fn all_resolved_exec(flags: &Vec<bool>) -> (r: bool)
    ensures
        r == all_resolved(flags@),
{
    let mut i: usize = 0;
    while i < flags.len()
        invariant
            i <= flags.len(),
            forall|k: int| 0 <= k < i ==> flags@[k],
        decreases flags.len() - i,
    {
        if !flags[i] {
            return false;
        }
        i = i + 1;
    }
    true
}

/// Joining a list extended by one value appends a comma (unless the list was
/// empty) and then the value.
pub proof fn lemma_join_snoc(vals: Seq<Seq<u8>>, x: Seq<u8>)
    ensures
        join_fields(vals.push(x)) == if vals.len() == 0 {
            x
        } else {
            join_fields(vals) + seq![FIELD_SEP] + x
        },
    decreases vals.len(),
{
    if vals.len() == 0 {
        assert(vals.push(x).len() == 1);
        assert(vals.push(x)[0] == x);
    } else {
        lemma_join_snoc(vals.drop_first(), x);
        assert(vals.push(x).drop_first() =~= vals.drop_first().push(x));
        assert(vals.push(x)[0] == vals[0]);
        if vals.len() == 1 {
            assert(join_fields(vals) == vals[0]);
            assert(join_fields(vals.push(x)) =~= vals[0] + seq![FIELD_SEP] + x);
        } else {
            assert(join_fields(vals.push(x)) == vals[0] + seq![FIELD_SEP] + join_fields(
                vals.drop_first().push(x),
            ));
            assert(vals[0] + seq![FIELD_SEP] + (join_fields(vals.drop_first()) + seq![FIELD_SEP]
                + x) =~= (vals[0] + seq![FIELD_SEP] + join_fields(vals.drop_first())) + seq![
                FIELD_SEP,
            ] + x);
        }
    }
}

/// Builds the comma-joined line for the collected values.
fn join_fields_exec(vals: &Vec<Vec<u8>>) -> (r: Vec<u8>)
    ensures
        r@ == join_fields(vals.deep_view()),
{
    let ghost m = vals.deep_view();
    let mut r: Vec<u8> = Vec::new();
    let mut i: usize = 0;
    while i < vals.len()
        invariant
            i <= vals.len(),
            m == vals.deep_view(),
            m.len() == vals@.len(),
            r@ == join_fields(m.take(i as int)),
        decreases vals.len() - i,
    {
        if i > 0 {
            r.push(FIELD_SEP);
        }
        r.extend_from_slice(vals[i].as_slice());
        proof {
            assert(m[i as int] =~= vals@[i as int]@);
            lemma_join_snoc(m.take(i as int), m[i as int]);
            assert(m.take(i + 1) =~= m.take(i as int).push(m[i as int]));
            assert(r@ =~= join_fields(m.take(i + 1)));
        }
        i = i + 1;
    }
    proof {
        assert(m.take(m.len() as int) =~= m);
    }
    r
}

impl ReaderState {
    /// The reader before any byte arrived, with one unresolved mark per
    /// predicate of the query.
    pub fn new(q: &ReaderArgs) -> (r: ReaderState)
        ensures
            r@ == init_state(q@),
    {
        let mut flags: Vec<bool> = Vec::new();
        let mut k: usize = 0;
        while k < q.filters.len()
            invariant
                k <= q.filters.len(),
                flags@.len() == k as int,
                forall|j: int| 0 <= j < k ==> flags@[j] == false,
            decreases q.filters.len() - k,
        {
            flags.push(false);
            k = k + 1;
        }
        let r = ReaderState {
            column_indexes: Vec::new(),
            filters: Vec::new(),
            filters_resolved: flags,
            in_header: true,
            column_index: 0,
            current_value: Vec::new(),
            to_print: Vec::new(),
            output: Vec::new(),
        };
        proof {
            assert(r@.filters_resolved =~= init_state(q@).filters_resolved);
            assert(r@ =~~= init_state(q@));
        }
        r
    }
}

/// Ends the pending field: during the header it resolves the field's name
/// against the projection and the predicates; in a data record it collects
/// the value if projected and evaluates the predicate watching this index.
#[verifier::loop_isolation(false)]
pub fn handle_value_end(q: &ReaderArgs, state: &mut ReaderState)
    requires
        old(state)@.column_index < usize::MAX as int,
    ensures
        final(state)@ == spec_value_end(q@, old(state)@),
{
    let ghost s = old(state)@;
    if state.in_header {
        let mut k: usize = 0;
        while k < state.filters_resolved.len()
            invariant
                k <= state.filters_resolved.len(),
                state.filters_resolved@.len() == s.filters_resolved.len(),
                forall|j: int| 0 <= j < k ==> state.filters_resolved@[j] == mark_resolved(
                    q@,
                    s,
                )[j],
                forall|j: int| k <= j < s.filters_resolved.len() ==> state.filters_resolved@[j]
                    == s.filters_resolved[j],
                state.column_indexes == old(state).column_indexes,
                state.filters == old(state).filters,
                state.in_header == old(state).in_header,
                state.column_index == old(state).column_index,
                state.current_value == old(state).current_value,
                state.to_print == old(state).to_print,
                state.output == old(state).output,
            decreases state.filters_resolved.len() - k,
        {
            if k < q.filters.len() {
                if bytes_eq(&q.filters[k].column, &state.current_value) {
                    state.filters_resolved.set(k, true);
                }
            }
            k = k + 1;
        }
        proof {
            assert(state@.filters_resolved =~= mark_resolved(q@, s));
        }
        if contains_bytes(&q.columns, &state.current_value) {
            state.column_indexes.push(state.column_index);
        }
        proof {
            assert(state@.column_indexes =~= spec_header_field(q@, s).column_indexes);
        }
        match find_filter_for(&q.filters, &state.current_value) {
            Some(j) => {
                let value = clone_bytes(&q.filters[j].value);
                state.filters.push(
                    FilterState { column_index: state.column_index, value, matched: false },
                );
                proof {
                    let jj = choose|jj: int| first_filter_for(q@.filters, s.current_value, jj);
                    lemma_first_filter_unique(q@.filters, s.current_value, j as int, jj);
                    assert(state@.filters =~~= spec_header_field(q@, s).filters);
                }
            },
            None => {
                proof {
                    assert(state@.filters =~~= spec_header_field(q@, s).filters);
                }
            },
        }
    } else {
        if contains_index(&state.column_indexes, state.column_index) || q.columns.len() == 0 {
            let value = clone_bytes(&state.current_value);
            state.to_print.push(value);
        }
        proof {
            assert(state@.to_print =~~= spec_data_field(q@, s).to_print);
        }
        match find_entry_at(&state.filters, state.column_index) {
            Some(j) => {
                let matched = bytes_eq(&state.filters[j].value, &state.current_value);
                let value = clone_bytes(&state.filters[j].value);
                let ci = state.filters[j].column_index;
                state.filters.set(j, FilterState { column_index: ci, value, matched });
                proof {
                    let jj = choose|jj: int| first_entry_at(s.filters, s.column_index, jj);
                    lemma_first_entry_unique(s.filters, s.column_index, j as int, jj);
                    assert(state@.filters =~~= spec_data_field(q@, s).filters);
                }
            },
            None => {
                proof {
                    assert(state@.filters =~~= spec_data_field(q@, s).filters);
                }
            },
        }
    }
    state.column_index = state.column_index + 1;
    state.current_value = Vec::new();
    proof {
        assert(state@ =~~= spec_value_end(q@, s));
    }
}

/// Ends the current record: writes its line when accepted, leaves the header
/// phase, and resets the per-record state.
pub fn handle_line_end(state: &mut ReaderState)
    ensures
        final(state)@ == spec_line_end(old(state)@),
{
    let ghost s = old(state)@;
    state.in_header = false;
    state.column_index = 0;
    state.current_value = Vec::new();
    let accepted = all_matched_exec(&state.filters) && all_resolved_exec(
        &state.filters_resolved,
    );
    if accepted && state.to_print.len() > 0 {
        let line = join_fields_exec(&state.to_print);
        state.output.push(line);
    }
    proof {
        assert(state@.output =~~= spec_line_end(s).output);
    }
    state.to_print = Vec::new();
    let mut j: usize = 0;
    while j < state.filters.len()
        invariant
            j <= state.filters.len(),
            state.filters@.len() == s.filters.len(),
            forall|k: int| 0 <= k < j ==> state.filters@[k]@ == reset_matched(s.filters)[k],
            forall|k: int| j <= k < s.filters.len() ==> state.filters@[k]@ == s.filters[k],
            state.in_header == false,
            state.column_index == 0,
            state.current_value@ == Seq::<u8>::empty(),
            state.to_print@ =~= Seq::<Vec<u8>>::empty(),
            state.output.deep_view() == spec_line_end(s).output,
            state.column_indexes == old(state).column_indexes,
            state.filters_resolved@ == s.filters_resolved,
        decreases state.filters.len() - j,
    {
        let value = clone_bytes(&state.filters[j].value);
        let ci = state.filters[j].column_index;
        state.filters.set(j, FilterState { column_index: ci, value, matched: false });
        proof {
            assert(state.filters@[j as int]@ =~~= reset_matched(s.filters)[j as int]);
        }
        j = j + 1;
    }
    proof {
        assert(state@ =~~= spec_line_end(s));
    }
}

/// Running one byte sequence extended by one byte is one more step after
/// running the sequence.
pub proof fn lemma_run_snoc(q: ArgsAbs, s: StateAbs, input: Seq<u8>, b: u8)
    ensures
        spec_run(q, s, input.push(b)) == spec_step(q, spec_run(q, s, input), b),
    decreases input.len(),
{
    if input.len() == 0 {
        assert(input.push(b)[0] == b);
        assert(input.push(b).drop_first() =~= Seq::<u8>::empty());
        assert(spec_run(q, s, input.push(b)) == spec_run(
            q,
            spec_step(q, s, b),
            Seq::<u8>::empty(),
        ));
        assert(spec_run(q, spec_step(q, s, b), Seq::<u8>::empty()) == spec_step(q, s, b));
        assert(spec_run(q, s, input) == s);
    } else {
        assert(input.push(b)[0] == input[0]);
        assert(input.push(b).drop_first() =~= input.drop_first().push(b));
        lemma_run_snoc(q, spec_step(q, s, input[0]), input.drop_first(), b);
        assert(spec_run(q, s, input.push(b)) == spec_run(
            q,
            spec_step(q, s, input[0]),
            input.drop_first().push(b),
        ));
        assert(spec_run(q, s, input) == spec_run(q, spec_step(q, s, input[0]), input.drop_first()));
    }
}

/// Consumes one chunk of input bytes, in order.  The resulting state is
/// exactly the abstract run of the chunk from the previous state, so feeding
/// a stream in chunks of any sizes reaches the same state as feeding it
/// whole.
#[verifier::loop_isolation(false)]
pub fn feed(q: &ReaderArgs, state: &mut ReaderState, chunk: &Vec<u8>)
    requires
        old(state)@.column_index + chunk@.len() <= usize::MAX as int,
    ensures
        final(state)@ == spec_run(q@, old(state)@, chunk@),
{
    let mut i: usize = 0;
    while i < chunk.len()
        invariant
            i <= chunk.len(),
            state@ == spec_run(q@, old(state)@, chunk@.take(i as int)),
            state@.column_index <= old(state)@.column_index + i,
        decreases chunk.len() - i,
    {
        proof {
            lemma_run_snoc(q@, old(state)@, chunk@.take(i as int), chunk@[i as int]);
            assert(chunk@.take(i + 1) =~= chunk@.take(i as int).push(chunk@[i as int]));
        }
        let b = chunk[i];
        if b == LINE_FEED {
        } else if b == RECORD_SEP {
            handle_value_end(q, state);
            handle_line_end(state);
        } else if b == FIELD_SEP {
            handle_value_end(q, state);
        } else {
            let ghost before = state@;
            state.current_value.push(b);
            proof {
                assert(state@ =~~= StateAbs { current_value: before.current_value.push(b), ..before });
            }
        }
        i = i + 1;
    }
    proof {
        assert(chunk@.take(chunk@.len() as int) =~= chunk@);
    }
}

/// Ends the stream: flushes a started pending field as a final field
/// boundary and emits the final record boundary, so a last record without a
/// trailing record separator is still delivered.
pub fn finish(q: &ReaderArgs, state: &mut ReaderState)
    requires
        old(state)@.column_index < usize::MAX as int,
    ensures
        final(state)@ == spec_finish(q@, old(state)@),
{
    if state.current_value.len() > 0 || state.column_index > 0 {
        handle_value_end(q, state);
    }
    handle_line_end(state);
}

} // verus!

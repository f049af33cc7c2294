//! The engine's general guarantees, each stated and proved over the abstract
//! state machine of [`crate::engine`].

use vstd::prelude::*;
use crate::args::ArgsAbs;
use crate::engine::{
    all_matched, all_resolved, init_state, join_fields, record_started, run_output, spec_finish,
    spec_line_end, spec_run, spec_step, spec_value_end, StateAbs, RECORD_SEP,
};

verus! {

/// Running two byte sequences one after the other reaches the same state as
/// running their concatenation: a chunk boundary carries no meaning.
pub proof fn lemma_run_append(q: ArgsAbs, s: StateAbs, a: Seq<u8>, b: Seq<u8>)
    ensures
        spec_run(q, s, a + b) == spec_run(q, spec_run(q, s, a), b),
    decreases a.len(),
{
    if a.len() == 0 {
        assert(a + b =~= b);
        assert(spec_run(q, s, a) == s);
    } else {
        assert((a + b)[0] == a[0]);
        assert((a + b).drop_first() =~= a.drop_first() + b);
        lemma_run_append(q, spec_step(q, s, a[0]), a.drop_first(), b);
        assert(spec_run(q, s, a + b) == spec_run(
            q,
            spec_step(q, s, a[0]),
            a.drop_first() + b,
        ));
        assert(spec_run(q, s, a) == spec_run(q, spec_step(q, s, a[0]), a.drop_first()));
    }
}

/// The concatenation of a list of chunks.
pub open spec fn concat_chunks(chunks: Seq<Seq<u8>>) -> Seq<u8>
    decreases chunks.len(),
{
    if chunks.len() == 0 {
        Seq::empty()
    } else {
        chunks[0] + concat_chunks(chunks.drop_first())
    }
}

/// The state after running a list of chunks, one after the other.
pub open spec fn run_chunks(q: ArgsAbs, s: StateAbs, chunks: Seq<Seq<u8>>) -> StateAbs
    decreases chunks.len(),
{
    if chunks.len() == 0 {
        s
    } else {
        run_chunks(q, spec_run(q, s, chunks[0]), chunks.drop_first())
    }
}

/// Chunk-boundary invariance: splitting a byte stream into chunks of any
/// sizes reaches exactly the state of one run over the whole stream, and so
/// produces identical output.
pub proof fn lemma_chunking_irrelevant(q: ArgsAbs, s: StateAbs, chunks: Seq<Seq<u8>>)
    ensures
        run_chunks(q, s, chunks) == spec_run(q, s, concat_chunks(chunks)),
    decreases chunks.len(),
{
    if chunks.len() == 0 {
        assert(spec_run(q, s, Seq::<u8>::empty()) == s);
    } else {
        lemma_chunking_irrelevant(q, spec_run(q, s, chunks[0]), chunks.drop_first());
        lemma_run_append(q, s, chunks[0], concat_chunks(chunks.drop_first()));
    }
}

/// While the header record is still being read and nothing was collected or
/// written, a run without a record separator collects and writes nothing.
proof fn lemma_header_run_quiet(q: ArgsAbs, s: StateAbs, input: Seq<u8>)
    requires
        s.in_header,
        s.to_print.len() == 0,
        s.output.len() == 0,
        forall|i: int| 0 <= i < input.len() ==> input[i] != RECORD_SEP,
    ensures
        spec_run(q, s, input).in_header,
        spec_run(q, s, input).to_print.len() == 0,
        spec_run(q, s, input).output.len() == 0,
    decreases input.len(),
{
    if input.len() > 0 {
        let s1 = spec_step(q, s, input[0]);
        assert(input[0] != RECORD_SEP);
        assert(s1.in_header && s1.to_print.len() == 0 && s1.output.len() == 0);
        assert(forall|i: int| 0 <= i < input.drop_first().len() ==> input.drop_first()[i]
            != RECORD_SEP);
        lemma_header_run_quiet(q, s1, input.drop_first());
    }
}

/// A header-only input — one with no record separator at all — produces zero
/// output lines.
pub proof fn lemma_header_only_no_output(q: ArgsAbs, input: Seq<u8>)
    requires
        forall|i: int| 0 <= i < input.len() ==> input[i] != RECORD_SEP,
    ensures
        run_output(q, input) =~= Seq::<Seq<u8>>::empty(),
{
    lemma_header_run_quiet(q, init_state(q), input);
    let s = spec_run(q, init_state(q), input);
    if record_started(s) {
        assert(spec_value_end(q, s).to_print.len() == 0);
    }
}

/// A header record closed by a record separator, with no data record after
/// it, still produces zero output lines.
pub proof fn lemma_terminated_header_no_output(q: ArgsAbs, header: Seq<u8>)
    requires
        forall|i: int| 0 <= i < header.len() ==> header[i] != RECORD_SEP,
    ensures
        run_output(q, header.push(RECORD_SEP)) =~= Seq::<Seq<u8>>::empty(),
{
    lemma_header_run_quiet(q, init_state(q), header);
    let s = spec_run(q, init_state(q), header);
    crate::engine::lemma_run_snoc(q, init_state(q), header, RECORD_SEP);
    let s1 = spec_run(q, init_state(q), header.push(RECORD_SEP));
    assert(s1 == spec_line_end(spec_value_end(q, s)));
    assert(spec_value_end(q, s).to_print.len() == 0);
    assert(s1.output.len() == 0);
    assert(!record_started(s1));
    assert(s1.to_print.len() == 0);
}

/// A last record that lacks its trailing record separator is still emitted:
/// once the stream has a started final record, finishing it produces the same
/// output as if the separator had been there.
pub proof fn lemma_missing_terminator_flush(q: ArgsAbs, input: Seq<u8>)
    requires
        record_started(spec_run(q, init_state(q), input)),
    ensures
        run_output(q, input) == run_output(q, input.push(RECORD_SEP)),
{
    let s = spec_run(q, init_state(q), input);
    crate::engine::lemma_run_snoc(q, init_state(q), input, RECORD_SEP);
    let s1 = spec_run(q, init_state(q), input.push(RECORD_SEP));
    assert(s1 == spec_line_end(spec_value_end(q, s)));
    assert(!record_started(s1));
    assert(s1.to_print.len() == 0);
    assert(spec_finish(q, s1).output == s1.output);
    assert(spec_finish(q, s).output == s1.output);
}

/// With an empty projection every data field is collected, in field order:
/// an empty `-select` list projects all columns.
pub proof fn lemma_empty_projection_keeps_all_fields(q: ArgsAbs, s: StateAbs)
    requires
        q.columns.len() == 0,
        !s.in_header,
    ensures
        spec_value_end(q, s).to_print == s.to_print.push(s.current_value),
{
}

/// A projected name absent from the header contributes no field index: only
/// header fields whose text is a requested name are ever projected.
pub proof fn lemma_absent_name_never_projected(q: ArgsAbs, s: StateAbs)
    requires
        s.in_header,
        !q.columns.contains(s.current_value),
    ensures
        spec_value_end(q, s).column_indexes == s.column_indexes,
{
}

/// A record that collected no projected value writes no line — not even an
/// empty one — whatever the filters said.
pub proof fn lemma_empty_record_suppressed(s: StateAbs)
    requires
        s.to_print.len() == 0,
    ensures
        spec_line_end(s).output == s.output,
{
}

/// Filter predicates are conjunctive: a record with one unmatched resolved
/// predicate writes nothing, a record under one predicate never resolved
/// against the header writes nothing, and a record with every predicate
/// resolved and matched and a non-empty collected list writes exactly its
/// comma-joined line.
pub proof fn lemma_filters_are_conjunctive(s: StateAbs)
    ensures
        (exists|j: int| 0 <= j < s.filters.len() && !s.filters[j].matched) ==> spec_line_end(
            s,
        ).output == s.output,
        (exists|k: int| 0 <= k < s.filters_resolved.len() && !s.filters_resolved[k])
            ==> spec_line_end(s).output == s.output,
        (all_matched(s.filters) && all_resolved(s.filters_resolved) && s.to_print.len() > 0)
            ==> spec_line_end(s).output == s.output.push(join_fields(s.to_print)),
{
    if exists|j: int| 0 <= j < s.filters.len() && !s.filters[j].matched {
        let j = choose|j: int| 0 <= j < s.filters.len() && !s.filters[j].matched;
        assert(!s.filters[j].matched);
        assert(!all_matched(s.filters));
    }
    if exists|k: int| 0 <= k < s.filters_resolved.len() && !s.filters_resolved[k] {
        let k = choose|k: int| 0 <= k < s.filters_resolved.len() && !s.filters_resolved[k];
        assert(!s.filters_resolved[k]);
        assert(!all_resolved(s.filters_resolved));
    }
}

/// The header phase ends at the first record boundary and never returns:
/// once the reader is past the header, no input brings it back.
pub proof fn lemma_header_phase_one_way(q: ArgsAbs, s: StateAbs, input: Seq<u8>)
    requires
        !s.in_header,
    ensures
        !spec_run(q, s, input).in_header,
    decreases input.len(),
{
    if input.len() > 0 {
        let s1 = spec_step(q, s, input[0]);
        assert(!s1.in_header);
        lemma_header_phase_one_way(q, s1, input.drop_first());
    }
}

/// A predicate left unresolved once the header has passed stays unresolved,
/// so the output is permanently empty: no later input adds a line.
pub proof fn lemma_unresolved_filter_permanently_empty(
    q: ArgsAbs,
    s: StateAbs,
    input: Seq<u8>,
    k: int,
)
    requires
        !s.in_header,
        0 <= k < s.filters_resolved.len(),
        !s.filters_resolved[k],
    ensures
        spec_run(q, s, input).filters_resolved == s.filters_resolved,
        !spec_run(q, s, input).in_header,
        spec_run(q, s, input).output == s.output,
        spec_finish(q, spec_run(q, s, input)).output == s.output,
    decreases input.len(),
{
    assert(!all_resolved(s.filters_resolved));
    if input.len() == 0 {
        assert(spec_run(q, s, input) == s);
        assert(spec_finish(q, s).output == s.output);
    } else {
        let s1 = spec_step(q, s, input[0]);
        assert(s1.filters_resolved == s.filters_resolved);
        assert(!s1.in_header);
        assert(s1.output == s.output);
        lemma_unresolved_filter_permanently_empty(q, s1, input.drop_first(), k);
        assert(spec_run(q, s, input) == spec_run(q, s1, input.drop_first()));
    }
}

} // verus!

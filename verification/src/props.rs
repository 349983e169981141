//! Properties of the emission pipeline: emitted ranges stay within the
//! source buffer and come out in reading order, emission is deterministic, an
//! unclassified span emits nothing, and the innermost classification wins.

use vstd::prelude::*;

use crate::emit::{
    doc_views, event_ok, events_wf, spec_emit, Document, Event, TokenizerError,
};
use crate::kinds::{spec_resolve, SyntaxKind};
use crate::line_index::{
    col_of, lemma_line_col_characterize, lemma_line_col_monotone, lemma_line_offsets_wf,
    lemma_offsets_dominate_index, line_of, line_offsets, spec_range, wf_offsets,
    MAX_PACKABLE_OFFSET,
};

verus! {

/// Whether an event is a source span.
pub open spec fn is_span(ev: Result<Event, TokenizerError>) -> bool {
    ev matches Ok(Event::Span(_, _))
}

/// The start offset of a span event.
pub open spec fn span_start(ev: Result<Event, TokenizerError>) -> int {
    match ev {
        Ok(Event::Span(start, _)) => start as int,
        _ => 0,
    }
}

/// The end offset of a span event.
pub open spec fn span_end(ev: Result<Event, TokenizerError>) -> int {
    match ev {
        Ok(Event::Span(_, end)) => end as int,
        _ => 0,
    }
}

/// Every span event stays within the `n`-byte buffer.
pub open spec fn spans_within(events: Seq<Result<Event, TokenizerError>>, n: int) -> bool {
    forall|i: int|
        0 <= i < events.len() && is_span(#[trigger] events[i]) ==> span_start(events[i]) <= n
            && span_end(events[i]) <= n
}

/// The tokenizer hands spans over left to right: each span ends no later
/// than it starts, and no span begins before an earlier one has ended.
pub open spec fn spans_ordered(events: Seq<Result<Event, TokenizerError>>) -> bool {
    &&& forall|i: int|
        0 <= i < events.len() && is_span(#[trigger] events[i]) ==> span_start(events[i])
            <= span_end(events[i])
    &&& forall|i: int, j: int|
        0 <= i < j < events.len() && is_span(#[trigger] events[i]) && is_span(
            #[trigger] events[j],
        ) ==> span_end(events[i]) <= span_start(events[j])
}

/// A contract-valid event stream over an `n`-byte buffer: well formed for the
/// emitter and with spans in left-to-right order.
pub open spec fn contract_valid(events: Seq<Result<Event, TokenizerError>>, n: int) -> bool {
    &&& events_wf(events, n)
    &&& spans_ordered(events)
}

/// The (line, column) position of a byte offset.
pub open spec fn pos_of(offsets: Seq<usize>, off: int) -> (int, int) {
    (line_of(offsets, off), col_of(offsets, off))
}

/// Reading order on positions.
pub open spec fn pos_le(a: (int, int), b: (int, int)) -> bool {
    a.0 < b.0 || (a.0 == b.0 && a.1 <= b.1)
}

/// The decoded start position of a packed range.
pub open spec fn packed_start(r: Seq<i32>) -> (int, int) {
    (r[0] as int, r[1] as int)
}

/// A packed range that lies within the `n`-byte buffer whose line starts are
/// `offsets`, with its start no later than its end in reading order.
pub open spec fn occ_within(r: Seq<i32>, offsets: Seq<usize>, n: int) -> bool {
    if r.len() == 3 {
        &&& 0 <= r[0] < offsets.len()
        &&& 0 <= r[1] <= r[2]
        &&& offsets[r[0] as int] + r[2] <= n
    } else if r.len() == 4 {
        &&& 0 <= r[0] < offsets.len()
        &&& 0 <= r[2] < offsets.len()
        &&& r[0] < r[2]
        &&& 0 <= r[1]
        &&& 0 <= r[3]
        &&& offsets[r[0] as int] + r[1] <= n
        &&& offsets[r[2] as int] + r[3] <= n
    } else {
        false
    }
}

/// Checks a collected event stream against the whole tokenizer contract:
/// well formed for the emitter, and spans handed over left to right.
pub fn events_contract_valid(
    events: &Vec<Result<Event, TokenizerError>>,
    source_len: usize,
) -> (r: bool)
    ensures
        r == contract_valid(events@, source_len as int),
{
    if !crate::emit::events_ok(events, source_len) {
        return false;
    }
    let n = events.len();
    let mut last_end: usize = 0;
    let mut seen = false;
    let ghost mut last_idx: int = 0;
    let mut i: usize = 0;
    while i < n
        invariant
            i <= n,
            n == events@.len(),
            events_wf(events@, source_len as int),
            forall|j: int|
                0 <= j < i && is_span(#[trigger] events@[j]) ==> span_start(events@[j])
                    <= span_end(events@[j]),
            seen ==> {
                &&& 0 <= last_idx < i
                &&& is_span(events@[last_idx])
                &&& span_end(events@[last_idx]) == last_end
                &&& forall|j: int|
                    0 <= j < i && is_span(#[trigger] events@[j]) ==> span_end(events@[j])
                        <= last_end
            },
            !seen ==> forall|j: int| 0 <= j < i ==> !is_span(#[trigger] events@[j]),
            forall|j1: int, j2: int|
                0 <= j1 < j2 < i && is_span(#[trigger] events@[j1]) && is_span(
                    #[trigger] events@[j2],
                ) ==> span_end(events@[j1]) <= span_start(events@[j2]),
        decreases n - i,
    {
        let ev = events[i];
        match ev {
            Ok(Event::Span(start, end)) => {
                if start > end {
                    assert(is_span(events@[i as int]));
                    return false;
                }
                if seen && last_end > start {
                    assert(is_span(events@[last_idx]) && is_span(events@[i as int])
                        && span_end(events@[last_idx]) > span_start(events@[i as int]));
                    return false;
                }
                last_end = end;
                seen = true;
                proof {
                    last_idx = i as int;
                }
            },
            _ => {},
        }
        i = i + 1;
    }
    true
}

/// A well-formed stream keeps its spans within the buffer.
pub proof fn lemma_wf_spans_within(events: Seq<Result<Event, TokenizerError>>, n: int)
    requires
        events_wf(events, n),
    ensures
        spans_within(events, n),
{
    assert forall|i: int|
        0 <= i < events.len() && is_span(#[trigger] events[i]) implies span_start(events[i]) <= n
        && span_end(events[i]) <= n by {
        assert(event_ok(events, i, n));
    }
}

/// Emission over a contract-valid stream only ever yields occurrences whose
/// ranges lie within the buffer, each starting no earlier than the position
/// of offset `lo`, and in non-decreasing reading order of their starts.
pub proof fn lemma_emit_occurrence_props(
    events: Seq<Result<Event, TokenizerError>>,
    stack: Seq<usize>,
    offsets: Seq<usize>,
    n: int,
    lo: int,
)
    requires
        wf_offsets(offsets),
        n <= MAX_PACKABLE_OFFSET,
        spans_within(events, n),
        spans_ordered(events),
        0 <= lo <= n,
        forall|i: int|
            0 <= i < events.len() && is_span(#[trigger] events[i]) ==> lo <= span_start(
                events[i],
            ),
    ensures
        spec_emit(events, stack, offsets) matches Ok(occs) ==> {
            &&& forall|k: int| 0 <= k < occs.len() ==> occ_within(#[trigger] occs[k].0, offsets, n)
            &&& forall|k: int|
                0 <= k < occs.len() ==> pos_le(
                    pos_of(offsets, lo),
                    packed_start(#[trigger] occs[k].0),
                )
            &&& forall|k1: int, k2: int|
                0 <= k1 < k2 < occs.len() ==> pos_le(
                    packed_start(occs[k1].0),
                    packed_start(occs[k2].0),
                )
        },
    decreases events.len(),
{
    if events.len() == 0 {
        return ;
    }
    let rest = events.drop_first();
    assert forall|i: int| 0 <= i < rest.len() implies rest[i] == events[i + 1] by {}
    assert(spans_within(rest, n)) by {
        assert forall|i: int|
            0 <= i < rest.len() && is_span(#[trigger] rest[i]) implies span_start(rest[i]) <= n
            && span_end(rest[i]) <= n by {
            assert(rest[i] == events[i + 1]);
        }
    }
    assert(spans_ordered(rest)) by {
        assert forall|i: int|
            0 <= i < rest.len() && is_span(#[trigger] rest[i]) implies span_start(rest[i])
            <= span_end(rest[i]) by {
            assert(rest[i] == events[i + 1]);
        }
        assert forall|i: int, j: int|
            0 <= i < j < rest.len() && is_span(#[trigger] rest[i]) && is_span(
                #[trigger] rest[j],
            ) implies span_end(rest[i]) <= span_start(rest[j]) by {
            assert(rest[i] == events[i + 1]);
            assert(rest[j] == events[j + 1]);
        }
    }
    match events[0] {
        Err(_) => {},
        Ok(Event::Start(id)) => {
            assert forall|i: int|
                0 <= i < rest.len() && is_span(#[trigger] rest[i]) implies lo <= span_start(
                rest[i],
            ) by {
                assert(rest[i] == events[i + 1]);
            }
            lemma_emit_occurrence_props(rest, stack.push(id), offsets, n, lo);
        },
        Ok(Event::End) => {
            assert forall|i: int|
                0 <= i < rest.len() && is_span(#[trigger] rest[i]) implies lo <= span_start(
                rest[i],
            ) by {
                assert(rest[i] == events[i + 1]);
            }
            let popped = if stack.len() == 0 {
                stack
            } else {
                stack.drop_last()
            };
            lemma_emit_occurrence_props(rest, popped, offsets, n, lo);
        },
        Ok(Event::Span(start, end)) => {
            let s = start as int;
            let e = end as int;
            assert(is_span(events[0]));
            assert(s <= e && e <= n && lo <= s);
            if stack.len() == 0 {
                assert forall|i: int|
                    0 <= i < rest.len() && is_span(#[trigger] rest[i]) implies lo <= span_start(
                    rest[i],
                ) by {
                    assert(rest[i] == events[i + 1]);
                }
                lemma_emit_occurrence_props(rest, stack, offsets, n, lo);
            } else {
                assert forall|i: int|
                    0 <= i < rest.len() && is_span(#[trigger] rest[i]) implies e <= span_start(
                    rest[i],
                ) by {
                    assert(rest[i] == events[i + 1]);
                }
                lemma_emit_occurrence_props(rest, stack, offsets, n, e);
                match spec_emit(rest, stack, offsets) {
                    Err(_) => {},
                    Ok(tail) => {
                        lemma_line_col_characterize(offsets, lo);
                        lemma_line_col_characterize(offsets, s);
                        lemma_line_col_characterize(offsets, e);
                        lemma_line_col_monotone(offsets, lo, s);
                        lemma_line_col_monotone(offsets, s, e);
                        let sl = line_of(offsets, s);
                        let sc = col_of(offsets, s);
                        let el = line_of(offsets, e);
                        let ec = col_of(offsets, e);
                        lemma_offsets_dominate_index(offsets, sl);
                        lemma_offsets_dominate_index(offsets, el);
                        let r = spec_range(offsets, s, e);
                        assert(occ_within(r, offsets, n));
                        assert(packed_start(r) == pos_of(offsets, s));
                        let ov = (r, spec_resolve(stack.last() as int));
                        let occs = seq![ov] + tail;
                        assert(spec_emit(events, stack, offsets) == Ok::<
                            _,
                            TokenizerError,
                        >(occs));
                        assert(occs[0] == ov);
                        assert forall|k: int| 1 <= k < occs.len() implies occs[k] == tail[k
                            - 1] by {}
                        assert forall|k: int| 0 <= k < occs.len() implies occ_within(
                            #[trigger] occs[k].0,
                            offsets,
                            n,
                        ) by {
                            if k >= 1 {
                                assert(occ_within(tail[k - 1].0, offsets, n));
                            }
                        }
                        assert forall|k: int| 0 <= k < occs.len() implies pos_le(
                            pos_of(offsets, lo),
                            packed_start(#[trigger] occs[k].0),
                        ) by {
                            if k >= 1 {
                                assert(pos_le(pos_of(offsets, e), packed_start(tail[k - 1].0)));
                                lemma_line_col_monotone(offsets, lo, e);
                            }
                        }
                        assert forall|k1: int, k2: int| 0 <= k1 < k2 < occs.len() implies pos_le(
                            packed_start(occs[k1].0),
                            packed_start(occs[k2].0),
                        ) by {
                            if k1 == 0 {
                                assert(pos_le(pos_of(offsets, e), packed_start(tail[k2 - 1].0)));
                            } else {
                                assert(pos_le(
                                    packed_start(tail[k1 - 1].0),
                                    packed_start(tail[k2 - 1].0),
                                ));
                            }
                        }
                    },
                }
            }
        },
    }
}

/// Over a contract-valid stream, every emitted occurrence's range lies within
/// the source buffer and the occurrences come out in non-decreasing reading
/// order of their start positions.
pub proof fn lemma_emission_bounded_and_ordered(
    events: Seq<Result<Event, TokenizerError>>,
    source: Seq<u8>,
)
    requires
        contract_valid(events, source.len() as int),
        source.len() <= MAX_PACKABLE_OFFSET,
    ensures
        spec_emit(events, Seq::empty(), line_offsets(source)) matches Ok(occs) ==> {
            &&& forall|k: int|
                0 <= k < occs.len() ==> occ_within(
                    #[trigger] occs[k].0,
                    line_offsets(source),
                    source.len() as int,
                )
            &&& forall|k1: int, k2: int|
                0 <= k1 < k2 < occs.len() ==> pos_le(
                    packed_start(occs[k1].0),
                    packed_start(occs[k2].0),
                )
        },
{
    lemma_line_offsets_wf(source);
    lemma_wf_spans_within(events, source.len() as int);
    lemma_emit_occurrence_props(
        events,
        Seq::empty(),
        line_offsets(source),
        source.len() as int,
        0,
    );
}

/// The same statement for a named emission result: when a contract-valid
/// stream emits `occs`, every range of `occs` lies within the buffer and the
/// start positions come in non-decreasing reading order.
pub proof fn lemma_emitted_occs_bounded_and_ordered(
    events: Seq<Result<Event, TokenizerError>>,
    source: Seq<u8>,
    occs: Seq<(Seq<i32>, SyntaxKind)>,
)
    requires
        contract_valid(events, source.len() as int),
        source.len() <= MAX_PACKABLE_OFFSET,
        spec_emit(events, Seq::empty(), line_offsets(source)) == Ok::<_, TokenizerError>(occs),
    ensures
        forall|k: int|
            0 <= k < occs.len() ==> occ_within(
                #[trigger] occs[k].0,
                line_offsets(source),
                source.len() as int,
            ),
        forall|k1: int, k2: int|
            0 <= k1 < k2 < occs.len() ==> pos_le(
                packed_start(occs[k1].0),
                packed_start(occs[k2].0),
            ),
{
    lemma_emission_bounded_and_ordered(events, source);
    let offs = line_offsets(source);
    let n = source.len() as int;
    match spec_emit(events, Seq::empty(), offs) {
        Ok(o) => {
            assert(o == occs);
            assert forall|k: int| 0 <= k < occs.len() implies occ_within(
                #[trigger] occs[k].0,
                offs,
                n,
            ) by {
                assert(occ_within(o[k].0, offs, n));
            }
            assert forall|k1: int, k2: int| 0 <= k1 < k2 < occs.len() implies pos_le(
                packed_start(occs[k1].0),
                packed_start(occs[k2].0),
            ) by {
                assert(pos_le(packed_start(o[k1].0), packed_start(o[k2].0)));
            }
        },
        Err(_) => {
            assert(false);
        },
    }
}

/// Emission is a pure function of the source and the events: two documents
/// that both satisfy the emitter's contract for the same inputs say the same
/// thing, occurrence for occurrence.
pub proof fn lemma_emission_pure(
    events: Seq<Result<Event, TokenizerError>>,
    source: Seq<u8>,
    d1: Document,
    d2: Document,
)
    requires
        Ok::<_, TokenizerError>(doc_views(d1)) == spec_emit(
            events,
            Seq::empty(),
            line_offsets(source),
        ),
        Ok::<_, TokenizerError>(doc_views(d2)) == spec_emit(
            events,
            Seq::empty(),
            line_offsets(source),
        ),
    ensures
        doc_views(d1) == doc_views(d2),
{
}

/// A span that goes by while the classification stack is empty never
/// produces an occurrence: the stream emits exactly what it would without it.
pub proof fn lemma_empty_stack_span_emits_nothing(
    start: usize,
    end: usize,
    rest: Seq<Result<Event, TokenizerError>>,
    offsets: Seq<usize>,
)
    ensures
        spec_emit(
            seq![Ok::<Event, TokenizerError>(Event::Span(start, end))] + rest,
            Seq::empty(),
            offsets,
        ) == spec_emit(rest, Seq::empty(), offsets),
{
    let events = seq![Ok::<Event, TokenizerError>(Event::Span(start, end))] + rest;
    assert(events[0] == Ok::<Event, TokenizerError>(Event::Span(start, end)));
    assert(events.drop_first() =~= rest);
}

/// With one classification nested in another, the span between them takes the
/// inner one's kind: the resulting document has exactly one occurrence and it
/// is classified by `b`, never by `a`.
pub proof fn lemma_innermost_wins(a: usize, b: usize, start: usize, end: usize, offsets: Seq<
    usize,
>)
    requires
        a != b,
    ensures
        spec_emit(
            seq![
                Ok::<Event, TokenizerError>(Event::Start(a)),
                Ok::<Event, TokenizerError>(Event::Start(b)),
                Ok::<Event, TokenizerError>(Event::Span(start, end)),
                Ok::<Event, TokenizerError>(Event::End),
                Ok::<Event, TokenizerError>(Event::End),
            ],
            Seq::empty(),
            offsets,
        ) == Ok::<_, TokenizerError>(
            seq![
                (
                    spec_range(offsets, start as int, end as int),
                    spec_resolve(b as int),
                ),
            ],
        ),
{
    let e0 = seq![
        Ok::<Event, TokenizerError>(Event::Start(a)),
        Ok::<Event, TokenizerError>(Event::Start(b)),
        Ok::<Event, TokenizerError>(Event::Span(start, end)),
        Ok::<Event, TokenizerError>(Event::End),
        Ok::<Event, TokenizerError>(Event::End),
    ];
    let e1 = e0.drop_first();
    let e2 = e1.drop_first();
    let e3 = e2.drop_first();
    let e4 = e3.drop_first();
    let e5 = e4.drop_first();
    let s0 = Seq::<usize>::empty();
    let s1 = s0.push(a);
    let s2 = s1.push(b);
    assert(e5 =~= Seq::<Result<Event, TokenizerError>>::empty());
    assert(s2.last() == b);
    assert(s2.drop_last() =~= s1);
    assert(s1.drop_last() =~= s0);
    assert(spec_emit(e5, s0, offsets) == Ok::<_, TokenizerError>(
        Seq::<(Seq<i32>, SyntaxKind)>::empty(),
    ));
    assert(spec_emit(e4, s1, offsets) == spec_emit(e5, s0, offsets));
    assert(spec_emit(e3, s2, offsets) == spec_emit(e4, s1, offsets));
    let ov = (spec_range(offsets, start as int, end as int), spec_resolve(b as int));
    assert(spec_emit(e2, s2, offsets) == Ok::<_, TokenizerError>(
        seq![ov] + Seq::<(Seq<i32>, SyntaxKind)>::empty(),
    ));
    assert(seq![ov] + Seq::<(Seq<i32>, SyntaxKind)>::empty() =~= seq![ov]);
    assert(spec_emit(e1, s1, offsets) == spec_emit(e2, s2, offsets));
    assert(spec_emit(e0, s0, offsets) == spec_emit(e1, s1, offsets));
}

} // verus!

//! Document emitter: consumes the tokenizer's event stream while keeping a
//! classification stack, and appends one occurrence per classified span,
//! resolved against the innermost active classification.

use vstd::prelude::*;

use crate::kinds::{get_syntax_kind_for_hl, spec_resolve, SyntaxKind, CAPTURE_COUNT};
use crate::line_index::{line_offsets, spec_range, wf_offsets, LineManager, MAX_PACKABLE_OFFSET};

verus! {

/// One step of the tokenizer's event stream: a classification opens, the
/// innermost classification closes, or a span of source bytes goes by.
#[derive(Clone, Copy, Debug, PartialEq, Eq, Structural)]
pub enum Event {
    Start(usize),
    End,
    Span(usize, usize),
}

/// The reason the tokenizer failed; opaque to the emitter, which aborts and
/// hands it back unchanged.
#[derive(Clone, Copy, Debug, PartialEq, Eq, Structural)]
pub enum TokenizerError {
    Cancelled,
    InvalidLanguage,
    Unknown,
}

/// One classified span of source text in the output document.
#[derive(Clone, Debug)]
pub struct Occurrence {
    pub range: Vec<i32>,
    pub syntax_kind: SyntaxKind,
}

/// What an occurrence says, mathematically: its packed range and its kind.
pub open spec fn occ_view(o: Occurrence) -> (Seq<i32>, SyntaxKind) {
    (o.range@, o.syntax_kind)
}

impl Occurrence {
    /// An empty occurrence, to be filled in by the emitter.
    pub fn new() -> (o: Occurrence)
        ensures
            o.range@ =~= Seq::<i32>::empty(),
            o.syntax_kind == SyntaxKind::UnspecifiedSyntaxKind,
    {
        Occurrence { range: Vec::new(), syntax_kind: SyntaxKind::UnspecifiedSyntaxKind }
    }
}

/// Ordered collection of occurrences plus caller-supplied path metadata; the
/// unit of output per source file.
#[derive(Clone, Debug)]
pub struct Document {
    pub relative_path: String,
    pub occurrences: Vec<Occurrence>,
}

/// The occurrences of a document, each reduced to what it says.
pub open spec fn doc_views(d: Document) -> Seq<(Seq<i32>, SyntaxKind)> {
    d.occurrences@.map(|i: int, o: Occurrence| occ_view(o))
}

impl Document {
    /// An empty document with no path metadata.
    pub fn new() -> (d: Document)
        ensures
            d.occurrences@ =~= Seq::<Occurrence>::empty(),
            d.relative_path@ =~= Seq::<char>::empty(),
    {
        Document { relative_path: String::new(), occurrences: Vec::new() }
    }

    /// The occurrences, in emission order.
    pub fn get_occurrences(&self) -> (r: &Vec<Occurrence>)
        ensures
            r == &self.occurrences,
    {
        &self.occurrences
    }
}

impl Default for Document {
    /// Same as `Document::new`: empty, with no path metadata.
    fn default() -> (d: Document)
        ensures
            d.occurrences@ =~= Seq::<Occurrence>::empty(),
            d.relative_path@ =~= Seq::<char>::empty(),
    {
        Document { relative_path: String::new(), occurrences: Vec::new() }
    }
}

/// The classification stack after the first `i` events: `Start` pushes its
/// id, `End` pops the innermost one, spans and failures leave it alone.
pub open spec fn stack_after(events: Seq<Result<Event, TokenizerError>>, i: int) -> Seq<usize>
    decreases i,
{
    if i <= 0 {
        Seq::empty()
    } else {
        let s = stack_after(events, i - 1);
        match events[i - 1] {
            Ok(Event::Start(id)) => s.push(id),
            Ok(Event::End) => if s.len() == 0 {
                s
            } else {
                s.drop_last()
            },
            _ => s,
        }
    }
}

/// The tokenizer contract on one event of the stream: `Start` ids have a
/// table entry, `End` never arrives on an empty stack, and span boundaries
/// stay within the `n`-byte buffer.
pub open spec fn event_ok(
    events: Seq<Result<Event, TokenizerError>>,
    i: int,
    n: int,
) -> bool {
    match events[i] {
        Ok(Event::Start(id)) => id < CAPTURE_COUNT,
        Ok(Event::End) => stack_after(events, i).len() > 0,
        Ok(Event::Span(start, end)) => start <= n && end <= n,
        Err(_) => true,
    }
}

/// The tokenizer contract on a whole stream over an `n`-byte buffer.
pub open spec fn events_wf(events: Seq<Result<Event, TokenizerError>>, n: int) -> bool {
    forall|i: int| 0 <= i < events.len() ==> #[trigger] event_ok(events, i, n)
}

/// What emission produces: walking the events with the given classification
/// stack, every span that goes by under a non-empty stack contributes one
/// occurrence, packed against `offsets` and classified by the innermost
/// (last-pushed) id; an error aborts with nothing.
pub open spec fn spec_emit(
    events: Seq<Result<Event, TokenizerError>>,
    stack: Seq<usize>,
    offsets: Seq<usize>,
) -> Result<Seq<(Seq<i32>, SyntaxKind)>, TokenizerError>
    decreases events.len(),
{
    if events.len() == 0 {
        Ok(Seq::empty())
    } else {
        match events[0] {
            Err(e) => Err(e),
            Ok(Event::Start(id)) => spec_emit(events.drop_first(), stack.push(id), offsets),
            Ok(Event::End) => spec_emit(
                events.drop_first(),
                if stack.len() == 0 {
                    stack
                } else {
                    stack.drop_last()
                },
                offsets,
            ),
            Ok(Event::Span(start, end)) => {
                if stack.len() == 0 {
                    spec_emit(events.drop_first(), stack, offsets)
                } else {
                    match spec_emit(events.drop_first(), stack, offsets) {
                        Ok(tail) => Ok(
                            seq![
                                (
                                    spec_range(offsets, start as int, end as int),
                                    spec_resolve(stack.last() as int),
                                ),
                            ] + tail,
                        ),
                        Err(e) => Err(e),
                    }
                }
            },
        }
    }
}

/// Checks a collected event stream against the tokenizer contract: returns
/// whether every `Start` id has a table entry, no `End` underflows the
/// stack, and every span stays within the `source_len`-byte buffer.
pub fn events_ok(events: &Vec<Result<Event, TokenizerError>>, source_len: usize) -> (r: bool)
    ensures
        r == events_wf(events@, source_len as int),
{
    let n = events.len();
    let mut depth: usize = 0;
    let mut i: usize = 0;
    while i < n
        invariant
            0 <= i <= n,
            n == events@.len(),
            depth <= i,
            depth == stack_after(events@, i as int).len(),
            forall|j: int| 0 <= j < i ==> #[trigger] event_ok(events@, j, source_len as int),
        decreases n - i,
    {
        match &events[i] {
            Ok(Event::Start(id)) => {
                if *id >= CAPTURE_COUNT {
                    assert(!event_ok(events@, i as int, source_len as int));
                    return false;
                }
                depth = depth + 1;
            },
            Ok(Event::End) => {
                if depth == 0 {
                    assert(!event_ok(events@, i as int, source_len as int));
                    return false;
                }
                depth = depth - 1;
            },
            Ok(Event::Span(start, end)) => {
                if *start > source_len || *end > source_len {
                    assert(!event_ok(events@, i as int, source_len as int));
                    return false;
                }
            },
            Err(_) => {},
        }
        assert(event_ok(events@, i as int, source_len as int));
        i = i + 1;
    }
    true
}

/// Stitches a prefix of emitted occurrences onto the outcome of emitting the
/// rest of the stream: an error from the rest wins and discards the prefix.
pub open spec fn emit_compose(
    pre: Seq<(Seq<i32>, SyntaxKind)>,
    rest: Result<Seq<(Seq<i32>, SyntaxKind)>, TokenizerError>,
) -> Result<Seq<(Seq<i32>, SyntaxKind)>, TokenizerError> {
    match rest {
        Ok(tail) => Ok(pre + tail),
        Err(e) => Err(e),
    }
}

/// Emits occurrences from a tokenizer event stream. The struct itself holds
/// no state: each `render` call works on state scoped to that call alone.
pub struct LsifEmitter {}

impl LsifEmitter {
    /// A fresh emitter.
    pub fn new() -> (e: LsifEmitter) {
        LsifEmitter {}
    }

    /// Walks the event stream over `source` and returns the document that
    /// `spec_emit` describes: one occurrence per span classified under a
    /// non-empty stack, in event order, or the stream's own error. The
    /// document is complete or discarded: no partial result ever escapes.
    pub fn render(
        &mut self,
        events: &Vec<Result<Event, TokenizerError>>,
        source: &Vec<u8>,
    ) -> (r: Result<Document, TokenizerError>)
        requires
            events_wf(events@, source@.len() as int),
            source@.len() <= MAX_PACKABLE_OFFSET,
        ensures
            match r {
                Ok(d) => {
                    &&& Ok::<_, TokenizerError>(doc_views(d)) == spec_emit(
                        events@,
                        Seq::empty(),
                        line_offsets(source@),
                    )
                    &&& d.relative_path@ =~= Seq::<char>::empty()
                },
                Err(e) => spec_emit(events@, Seq::empty(), line_offsets(source@)) == Err::<
                    Seq<(Seq<i32>, SyntaxKind)>,
                    _,
                >(e),
            },
    {
        let mut doc = Document::new();
        let line_manager = LineManager::new(source);
        let source_len = source.len();
        let mut highlights: Vec<usize> = Vec::new();
        let n = events.len();
        let mut i: usize = 0;
        proof {
            assert(events@.subrange(0, n as int) =~= events@);
            assert(doc_views(doc) =~= Seq::<(Seq<i32>, SyntaxKind)>::empty());
            match spec_emit(events@, Seq::empty(), line_manager@) {
                Ok(t) => {
                    assert(Seq::<(Seq<i32>, SyntaxKind)>::empty() + t =~= t);
                },
                Err(_) => {},
            }
        }
        while i < n
            invariant
                0 <= i <= n,
                n == events@.len(),
                source_len == source@.len(),
                source@.len() <= MAX_PACKABLE_OFFSET,
                events_wf(events@, source@.len() as int),
                line_manager@ == line_offsets(source@),
                wf_offsets(line_manager@),
                highlights@ == stack_after(events@, i as int),
                forall|k: int| 0 <= k < highlights@.len() ==> highlights@[k] < CAPTURE_COUNT,
                doc.relative_path@ =~= Seq::<char>::empty(),
                spec_emit(events@, Seq::empty(), line_manager@) == emit_compose(
                    doc_views(doc),
                    spec_emit(
                        events@.subrange(i as int, n as int),
                        highlights@,
                        line_manager@,
                    ),
                ),
            decreases n - i,
        {
            let ghost rest = events@.subrange(i as int, n as int);
            let ghost offs = line_manager@;
            proof {
                assert(event_ok(events@, i as int, source@.len() as int));
                assert(rest[0] == events@[i as int]);
                assert(rest.drop_first() =~= events@.subrange(i as int + 1, n as int));
            }
            let ev = events[i];
            match ev {
                Ok(Event::Start(id)) => {
                    highlights.push(id);
                },
                Ok(Event::End) => {
                    highlights.pop();
                },
                Ok(Event::Span(start, end)) => {
                    if highlights.len() > 0 {
                        let ghost old_views = doc_views(doc);
                        let top = highlights[highlights.len() - 1];
                        let mut occurence = Occurrence::new();
                        occurence.range = line_manager.range(start, end);
                        occurence.syntax_kind = get_syntax_kind_for_hl(top);
                        let ghost ov = occ_view(occurence);
                        doc.occurrences.push(occurence);
                        proof {
                            assert(doc_views(doc) =~= old_views.push(ov));
                            let inner = spec_emit(
                                events@.subrange(i as int + 1, n as int),
                                highlights@,
                                offs,
                            );
                            match inner {
                                Ok(tail) => {
                                    assert(old_views + (seq![ov] + tail) =~= old_views.push(ov)
                                        + tail);
                                },
                                Err(_) => {},
                            }
                        }
                    }
                },
                Err(e) => {
                    proof {
                        assert(spec_emit(rest, highlights@, offs) == Err::<
                            Seq<(Seq<i32>, SyntaxKind)>,
                            TokenizerError,
                        >(e));
                    }
                    return Err(e);
                },
            }
            i = i + 1;
        }
        proof {
            assert(events@.subrange(n as int, n as int) =~= Seq::<
                Result<Event, TokenizerError>,
            >::empty());
            assert(doc_views(doc) + Seq::<(Seq<i32>, SyntaxKind)>::empty() =~= doc_views(doc));
        }
        Ok(doc)
    }
}

} // verus!

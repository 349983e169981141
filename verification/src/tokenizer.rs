//! The boundary to the external grammar-driven tokenizer: the engine parses
//! the source against a per-language query and hands back the nested event
//! stream that the emitter consumes. Everything the engine does is opaque
//! here; whatever comes back is checked against the tokenizer contract before
//! any of it reaches verified logic.

use vstd::prelude::*;

use crate::emit::{doc_views, spec_emit, Document, Event, LsifEmitter, TokenizerError};
use crate::kinds::capture_names;
use crate::line_index::{line_offsets, MAX_PACKABLE_OFFSET};
use crate::props::{
    contract_valid, events_contract_valid, lemma_emitted_occs_bounded_and_ordered, occ_within,
    packed_start, pos_le,
};

verus! {

#[verifier::external_type_specification]
#[verifier::external_body]
pub struct ExLanguage(tree_sitter::Language);

#[verifier::external_type_specification]
#[verifier::external_body]
pub struct ExQueryError(tree_sitter::QueryError);

#[verifier::external_type_specification]
#[verifier::external_body]
pub struct ExHighlightConfiguration(tree_sitter_highlight::HighlightConfiguration);

#[verifier::external_type_specification]
#[verifier::external_body]
pub struct ExHighlighter(tree_sitter_highlight::Highlighter);

#[verifier::external_type_specification]
#[verifier::external_body]
pub struct ExHighlightError(tree_sitter_highlight::Error);

#[verifier::external_type_specification]
#[verifier::external_body]
pub struct ExHighlightEvent(tree_sitter_highlight::HighlightEvent);

/// Relies on tree_sitter_highlight::HighlightConfiguration::new: compiles the
/// highlight query against the language and fails on a malformed query.
#[verifier::external_body]
fn new_highlight_config(
    language: tree_sitter::Language,
    language_name: &str,
    highlights_query: &str,
) -> (r: Result<tree_sitter_highlight::HighlightConfiguration, tree_sitter::QueryError>)
{
    tree_sitter_highlight::HighlightConfiguration::new(
        language,
        language_name,
        highlights_query,
        "",
        "",
    )
}

/// Relies on tree_sitter_highlight::HighlightConfiguration::configure: sets
/// the recognized capture names, so that every `Highlight` index the engine
/// later emits points into this list.
#[verifier::external_body]
fn configure_config(
    config: &mut tree_sitter_highlight::HighlightConfiguration,
    recognized_names: &Vec<&str>,
)
{
    config.configure(recognized_names.as_slice());
}

/// Relies on tree_sitter_highlight::Highlighter::new: a fresh engine with no
/// state of its own beyond reusable parsing buffers.
#[verifier::external_body]
fn new_highlighter() -> (h: tree_sitter_highlight::Highlighter) {
    tree_sitter_highlight::Highlighter::new()
}

/// Relies on tree_sitter_highlight::Error having exactly the three variants
/// mirrored by TokenizerError.
#[verifier::external_body]
fn convert_error(e: tree_sitter_highlight::Error) -> (r: TokenizerError) {
    match e {
        tree_sitter_highlight::Error::Cancelled => TokenizerError::Cancelled,
        tree_sitter_highlight::Error::InvalidLanguage(_) => TokenizerError::InvalidLanguage,
        tree_sitter_highlight::Error::Unknown => TokenizerError::Unknown,
    }
}

/// Relies on tree_sitter_highlight::HighlightEvent having exactly the three
/// event shapes mirrored by Event.
#[verifier::external_body]
fn convert_event(ev: tree_sitter_highlight::HighlightEvent) -> (r: Event) {
    match ev {
        tree_sitter_highlight::HighlightEvent::HighlightStart(h) => Event::Start(h.0),
        tree_sitter_highlight::HighlightEvent::HighlightEnd => Event::End,
        tree_sitter_highlight::HighlightEvent::Source { start, end } => Event::Span(start, end),
    }
}

/// Relies on tree_sitter_highlight::Highlighter::highlight: yields the
/// engine's event stream over `code`. The stream is collected up to and
/// including its first error, each event converted one-to-one; a failure to
/// start the stream becomes a one-error stream. Nothing further is assumed:
/// callers check the collected events against the tokenizer contract.
#[verifier::external_body]
fn run_highlighter(
    highlighter: &mut tree_sitter_highlight::Highlighter,
    config: &tree_sitter_highlight::HighlightConfiguration,
    code: &Vec<u8>,
) -> (events: Vec<Result<Event, TokenizerError>>)
{
    let iter = match highlighter.highlight(config, code.as_slice(), None, None, |_| None) {
        Ok(iter) => iter,
        Err(e) => return vec![Err(convert_error(e))],
    };
    let mut events: Vec<Result<Event, TokenizerError>> = Vec::new();
    for item in iter {
        let failed = item.is_err();
        events.push(item.map(convert_event).map_err(convert_error));
        if failed {
            break ;
        }
    }
    events
}

/// Why indexing a buffer failed.
#[derive(Clone, Copy, Debug, PartialEq, Eq, Structural)]
pub enum IndexError {
    /// The highlight query does not compile against the language: a
    /// configuration fault, surfaced at load time, never per request.
    InvalidQuery,
    /// The engine's event stream broke the tokenizer contract: an unmatched
    /// `End`, a classification id with no table entry, or a span beyond the
    /// buffer. A collaborator fault, not a user error.
    InvalidEvents,
    /// The engine itself failed; its reason, handed back unchanged.
    Tokenizer(TokenizerError),
}

/// Runs the external tokenizer over `code` and emits the classified document.
/// Whatever stream the engine hands back is checked against the tokenizer
/// contract first; a document is only ever produced from a contract-valid
/// stream, says exactly what `spec_emit` says of that stream, and therefore
/// holds only in-bounds ranges, in non-decreasing reading order.
pub fn index_language(
    language: tree_sitter::Language,
    highlights_query: &str,
    code: &Vec<u8>,
) -> (r: Result<Document, IndexError>)
    requires
        code@.len() <= MAX_PACKABLE_OFFSET,
    ensures
        r matches Ok(d) ==> {
            &&& exists|events: Seq<Result<Event, TokenizerError>>|
                {
                    &&& contract_valid(events, code@.len() as int)
                    &&& #[trigger] spec_emit(events, Seq::empty(), line_offsets(code@))
                        == Ok::<_, TokenizerError>(doc_views(d))
                }
            &&& d.relative_path@ =~= Seq::<char>::empty()
            &&& forall|k: int|
                0 <= k < doc_views(d).len() ==> occ_within(
                    #[trigger] doc_views(d)[k].0,
                    line_offsets(code@),
                    code@.len() as int,
                )
            &&& forall|k1: int, k2: int|
                0 <= k1 < k2 < doc_views(d).len() ==> pos_le(
                    packed_start(doc_views(d)[k1].0),
                    packed_start(doc_views(d)[k2].0),
                )
        },
{
    let config = match new_highlight_config(language, "source", highlights_query) {
        Ok(config) => config,
        Err(_) => {
            return Err(IndexError::InvalidQuery);
        },
    };
    let mut config = config;
    let names = capture_names();
    configure_config(&mut config, &names);
    let mut highlighter = new_highlighter();
    let events = run_highlighter(&mut highlighter, &config, code);
    if !events_contract_valid(&events, code.len()) {
        return Err(IndexError::InvalidEvents);
    }
    let mut emitter = LsifEmitter::new();
    match emitter.render(&events, code) {
        Ok(d) => {
            proof {
                assert(spec_emit(events@, Seq::empty(), line_offsets(code@)) == Ok::<
                    _,
                    TokenizerError,
                >(doc_views(d)));
                lemma_emitted_occs_bounded_and_ordered(events@, code@, doc_views(d));
            }
            Ok(d)
        },
        Err(e) => Err(IndexError::Tokenizer(e)),
    }
}

} // verus!

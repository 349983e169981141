//! Tests of the document emitter over hand-built event streams.

use sg_syntax::emit::events_ok;
use sg_syntax::props::events_contract_valid;
use sg_syntax::{Event, LsifEmitter, Occurrence, SyntaxKind, TokenizerError};

type Ev = Result<Event, TokenizerError>;

fn render(events: &Vec<Ev>, source: &[u8]) -> Result<sg_syntax::Document, TokenizerError> {
    let mut emitter = LsifEmitter::new();
    emitter.render(events, &source.to_vec())
}

fn occ_pairs(occs: &[Occurrence]) -> Vec<(Vec<i32>, SyntaxKind)> {
    occs.iter().map(|o| (o.range.clone(), o.syntax_kind)).collect()
}

// capture table positions used below
const COMMENT: usize = 3;
const FUNCTION: usize = 5;
const KEYWORD: usize = 8;
const VARIABLE: usize = 21;

#[test]
fn one_comment_capture_gives_one_occurrence() {
    let source = b"// Hello World";
    let events: Vec<Ev> = vec![
        Ok(Event::Start(COMMENT)),
        Ok(Event::Span(0, 14)),
        Ok(Event::End),
    ];
    let doc = render(&events, source).unwrap();
    assert_eq!(
        occ_pairs(doc.get_occurrences()),
        vec![(vec![0, 0, 14], SyntaxKind::Comment)]
    );
    assert_eq!(doc.relative_path, String::new());
}

#[test]
fn go_snippet_gives_four_ordered_occurrences() {
    let source = b"package main\nfunc foo() {}\n";
    let events: Vec<Ev> = vec![
        Ok(Event::Start(KEYWORD)),
        Ok(Event::Span(0, 7)),
        Ok(Event::End),
        Ok(Event::Span(7, 8)),
        Ok(Event::Start(VARIABLE)),
        Ok(Event::Span(8, 12)),
        Ok(Event::End),
        Ok(Event::Span(12, 13)),
        Ok(Event::Start(KEYWORD)),
        Ok(Event::Span(13, 17)),
        Ok(Event::End),
        Ok(Event::Span(17, 18)),
        Ok(Event::Start(FUNCTION)),
        Ok(Event::Span(18, 21)),
        Ok(Event::End),
        Ok(Event::Span(21, 27)),
    ];
    let doc = render(&events, source).unwrap();
    assert_eq!(
        occ_pairs(doc.get_occurrences()),
        vec![
            (vec![0, 0, 7], SyntaxKind::Keyword),
            (vec![0, 8, 12], SyntaxKind::Identifier),
            (vec![1, 0, 4], SyntaxKind::Keyword),
            (vec![1, 5, 8], SyntaxKind::FunctionDefinition),
        ]
    );
}

#[test]
fn span_on_empty_stack_emits_nothing() {
    let source = b"plain text";
    let events: Vec<Ev> = vec![Ok(Event::Span(0, 10))];
    let doc = render(&events, source).unwrap();
    assert_eq!(doc.get_occurrences().len(), 0);
}

#[test]
fn innermost_classification_wins() {
    let source = b"// nested";
    let events: Vec<Ev> = vec![
        Ok(Event::Start(KEYWORD)),
        Ok(Event::Start(COMMENT)),
        Ok(Event::Span(0, 9)),
        Ok(Event::End),
        Ok(Event::End),
    ];
    let doc = render(&events, source).unwrap();
    assert_eq!(
        occ_pairs(doc.get_occurrences()),
        vec![(vec![0, 0, 9], SyntaxKind::Comment)]
    );
}

#[test]
fn span_crossing_lines_packs_to_four_elements() {
    let source = b"ab\ncd";
    let events: Vec<Ev> = vec![
        Ok(Event::Start(COMMENT)),
        Ok(Event::Span(1, 4)),
        Ok(Event::End),
    ];
    let doc = render(&events, source).unwrap();
    assert_eq!(
        occ_pairs(doc.get_occurrences()),
        vec![(vec![0, 1, 1, 1], SyntaxKind::Comment)]
    );
}

#[test]
fn emission_is_deterministic() {
    let source = b"package main\nfunc foo() {}\n";
    let events: Vec<Ev> = vec![
        Ok(Event::Start(KEYWORD)),
        Ok(Event::Span(0, 7)),
        Ok(Event::End),
        Ok(Event::Start(FUNCTION)),
        Ok(Event::Span(18, 21)),
        Ok(Event::End),
    ];
    let d1 = render(&events, source).unwrap();
    let d2 = render(&events, source).unwrap();
    assert_eq!(occ_pairs(d1.get_occurrences()), occ_pairs(d2.get_occurrences()));
    assert_eq!(d1.relative_path, d2.relative_path);
}

#[test]
fn error_event_aborts_and_discards_the_document() {
    let source = b"// Hello World";
    let events: Vec<Ev> = vec![
        Ok(Event::Start(COMMENT)),
        Ok(Event::Span(0, 14)),
        Err(TokenizerError::Unknown),
    ];
    assert!(matches!(render(&events, source), Err(TokenizerError::Unknown)));
}

#[test]
fn cancelled_error_is_handed_back() {
    let source = b"x";
    let events: Vec<Ev> = vec![Err(TokenizerError::Cancelled)];
    assert!(matches!(render(&events, source), Err(TokenizerError::Cancelled)));
}

#[test]
fn invalid_language_error_is_handed_back() {
    let source = b"x";
    let events: Vec<Ev> = vec![Ok(Event::Span(0, 1)), Err(TokenizerError::InvalidLanguage)];
    assert!(matches!(render(&events, source), Err(TokenizerError::InvalidLanguage)));
}

#[test]
fn checker_accepts_a_contract_valid_stream() {
    let events: Vec<Ev> = vec![
        Ok(Event::Start(COMMENT)),
        Ok(Event::Span(0, 14)),
        Ok(Event::End),
    ];
    assert!(events_ok(&events, 14));
}

#[test]
fn checker_rejects_an_unmatched_end() {
    let events: Vec<Ev> = vec![Ok(Event::End)];
    assert!(!events_ok(&events, 14));
}

#[test]
fn checker_rejects_an_unknown_classification_id() {
    let events: Vec<Ev> = vec![Ok(Event::Start(sg_syntax::CAPTURE_COUNT))];
    assert!(!events_ok(&events, 14));
}

#[test]
fn checker_rejects_a_span_beyond_the_buffer() {
    let events: Vec<Ev> = vec![Ok(Event::Span(0, 15))];
    assert!(!events_ok(&events, 14));
}

#[test]
fn contract_checker_accepts_left_to_right_spans() {
    let events: Vec<Ev> = vec![
        Ok(Event::Start(KEYWORD)),
        Ok(Event::Span(0, 7)),
        Ok(Event::End),
        Ok(Event::Span(7, 8)),
        Ok(Event::Span(8, 12)),
    ];
    assert!(events_contract_valid(&events, 12));
}

#[test]
fn contract_checker_rejects_a_backwards_span() {
    let events: Vec<Ev> = vec![Ok(Event::Span(5, 2))];
    assert!(!events_contract_valid(&events, 12));
}

#[test]
fn contract_checker_rejects_overlapping_spans() {
    let events: Vec<Ev> = vec![Ok(Event::Span(0, 7)), Ok(Event::Span(5, 9))];
    assert!(!events_contract_valid(&events, 12));
}

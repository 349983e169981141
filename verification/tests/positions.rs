//! Tests of the offset indexer, the packed range form and order, sorting,
//! and the annotated dump.

use sg_syntax::dump::{dump_document, sort_occurrences};
use sg_syntax::kinds::{capture_name, capture_names, get_syntax_kind_for_hl};
use sg_syntax::{Document, LineManager, Occurrence, PackedRange, SyntaxKind, CAPTURE_COUNT};

fn occ(range: Vec<i32>, kind: SyntaxKind) -> Occurrence {
    let mut o = Occurrence::new();
    o.range = range;
    o.syntax_kind = kind;
    o
}

#[test]
fn line_starts_map_to_column_zero() {
    let source: Vec<u8> = b"ab\ncd\nef".to_vec();
    let lm = LineManager::new(&source);
    assert_eq!(lm.line_and_col(0), (0, 0));
    assert_eq!(lm.line_and_col(3), (1, 0));
    assert_eq!(lm.line_and_col(6), (2, 0));
}

#[test]
fn offsets_within_a_line_keep_their_column() {
    let source: Vec<u8> = b"ab\ncd\n".to_vec();
    let lm = LineManager::new(&source);
    assert_eq!(lm.line_and_col(1), (0, 1));
    assert_eq!(lm.line_and_col(2), (0, 2));
    assert_eq!(lm.line_and_col(4), (1, 1));
}

#[test]
fn same_line_span_packs_to_three_elements() {
    let source: Vec<u8> = b"package main\nfunc foo() {}\n".to_vec();
    let lm = LineManager::new(&source);
    assert_eq!(lm.range(0, 7), vec![0, 0, 7]);
    assert_eq!(lm.range(18, 21), vec![1, 5, 8]);
}

#[test]
fn cross_line_span_packs_to_four_elements() {
    let source: Vec<u8> = b"ab\ncd\n".to_vec();
    let lm = LineManager::new(&source);
    assert_eq!(lm.range(1, 4), vec![0, 1, 1, 1]);
}

#[test]
fn from_vec_decodes_both_forms() {
    let three = PackedRange::from_vec(&vec![5, 1, 9]);
    assert_eq!(
        three,
        PackedRange { start_line: 5, start_col: 1, end_line: 5, end_col: 9 }
    );
    let four = PackedRange::from_vec(&vec![1, 2, 3, 4]);
    assert_eq!(
        four,
        PackedRange { start_line: 1, start_col: 2, end_line: 3, end_col: 4 }
    );
}

#[test]
fn range_order_ignores_the_end_column() {
    let a = PackedRange { start_line: 0, start_col: 0, end_line: 0, end_col: 1 };
    let b = PackedRange { start_line: 0, start_col: 0, end_line: 0, end_col: 9 };
    assert_eq!(a.partial_cmp(&b), Some(std::cmp::Ordering::Equal));
    let c = PackedRange { start_line: 1, start_col: 0, end_line: 1, end_col: 3 };
    assert_eq!(b.partial_cmp(&c), Some(std::cmp::Ordering::Less));
    assert_eq!(c.partial_cmp(&b), Some(std::cmp::Ordering::Greater));
    assert!(a.le(&b) && b.le(&a));
}

#[test]
fn sorting_orders_by_start_line_end_line_start_col() {
    let occs = vec![
        occ(vec![1, 0, 3], SyntaxKind::Keyword),
        occ(vec![0, 0, 5], SyntaxKind::Comment),
    ];
    let sorted = sort_occurrences(occs);
    assert_eq!(sorted[0].range, vec![0, 0, 5]);
    assert_eq!(sorted[1].range, vec![1, 0, 3]);
}

#[test]
fn capture_table_resolves_ids() {
    assert_eq!(get_syntax_kind_for_hl(3), SyntaxKind::Comment);
    assert_eq!(get_syntax_kind_for_hl(8), SyntaxKind::Keyword);
    assert_eq!(get_syntax_kind_for_hl(0), SyntaxKind::UnspecifiedSyntaxKind);
    assert_eq!(get_syntax_kind_for_hl(16), SyntaxKind::StringLiteral);
    assert_eq!(get_syntax_kind_for_hl(25), SyntaxKind::BuiltinIdentifier);
}

#[test]
fn capture_names_match_the_table() {
    let names = capture_names();
    assert_eq!(names.len(), CAPTURE_COUNT);
    assert_eq!(capture_name(3), "comment");
    assert_eq!(names[0], "attribute");
    assert_eq!(names[8], "keyword");
    assert_eq!(names[25], "boolean");
}

#[test]
fn dump_underlines_a_comment() {
    let source: Vec<u8> = b"// Hello World".to_vec();
    let mut doc = Document::new();
    doc.occurrences.push(occ(vec![0, 0, 14], SyntaxKind::Comment));
    let out = dump_document(doc, &source);
    assert_eq!(
        out,
        b"  // Hello World\n//^^^^^^^^^^^^^^ Comment\n".to_vec()
    );
}

#[test]
fn dump_skips_unspecified_and_cross_line_ranges_and_shows_tabs_as_spaces() {
    let source: Vec<u8> = b"a\tb\ncd".to_vec();
    let mut doc = Document::new();
    doc.occurrences.push(occ(vec![1, 0, 2], SyntaxKind::Identifier));
    doc.occurrences.push(occ(vec![0, 0, 1], SyntaxKind::UnspecifiedSyntaxKind));
    doc.occurrences.push(occ(vec![0, 0, 1, 1], SyntaxKind::Keyword));
    let out = dump_document(doc, &source);
    assert_eq!(out, b"  a b\n  cd\n//^^ Identifier\n".to_vec());
}

#[test]
fn empty_source_dumps_to_nothing() {
    let source: Vec<u8> = Vec::new();
    let doc = Document::new();
    let out = dump_document(doc, &source);
    assert_eq!(out, Vec::<u8>::new());
}

#[test]
fn a_fresh_document_is_empty() {
    let doc = Document::new();
    assert_eq!(doc.get_occurrences().len(), 0);
    assert_eq!(doc.relative_path, "");
    let dft = Document::default();
    assert_eq!(dft.get_occurrences().len(), 0);
    assert_eq!(dft.relative_path, "");
}

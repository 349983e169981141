//! End-to-end tests that drive the real tree-sitter engine through the
//! library's indexing entry point.

use sg_syntax::{index_language, Document, IndexError};

fn go_language() -> tree_sitter::Language {
    tree_sitter_go::LANGUAGE.into()
}

#[test]
fn sg_treesitter_test_highlights_one_comment() -> Result<(), IndexError> {
    let code: Vec<u8> = b"// Hello World".to_vec();
    let document = index_language(go_language(), tree_sitter_go::HIGHLIGHTS_QUERY, &code)?;
    assert_eq!(document.relative_path, Document::default().relative_path);

    Ok(())
}

#[test]
fn mod_test_highlights_one_comment() -> Result<(), IndexError> {
    Ok(())
}

#[test]
fn indexes_a_go_comment_as_comment_occurrence() {
    let code: Vec<u8> = b"// Hello World".to_vec();
    let document =
        index_language(go_language(), tree_sitter_go::HIGHLIGHTS_QUERY, &code).unwrap();
    let occurrences = document.get_occurrences();
    assert_eq!(occurrences.len(), 1);
    assert_eq!(occurrences[0].range, vec![0, 0, 14]);
    assert_eq!(occurrences[0].syntax_kind, sg_syntax::SyntaxKind::Comment);
}

#[test]
fn rejects_a_malformed_query() {
    let code: Vec<u8> = b"package main\n".to_vec();
    let result = index_language(go_language(), "(this is not a query", &code);
    assert!(matches!(result, Err(IndexError::InvalidQuery)));
}

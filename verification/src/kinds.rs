//! Capture resolver: a fixed table mapping tokenizer capture identifiers to
//! coarse syntax kinds. The position of a capture name in the table is the
//! classification id the tokenizer is configured to emit for that name.

use vstd::prelude::*;

verus! {

/// Coarse, cross-language category assigned to a classified span of source.
/// Many fine-grained capture names map onto the same kind on purpose: the
/// reduction keeps the output consistent across languages.
#[derive(Clone, Copy, Debug, PartialEq, Eq, Structural)]
pub enum SyntaxKind {
    UnspecifiedSyntaxKind,
    Comment,
    Keyword,
    StringLiteral,
    Identifier,
    TypeIdentifier,
    Operator,
    FunctionDefinition,
    BuiltinIdentifier,
}

/// Number of entries in the capture table. Every classification id emitted by
/// a tokenizer configured with `capture_names` is below this bound.
pub const CAPTURE_COUNT: usize = 26;

/// The syntax kind assigned to classification id `id` by the capture table.
pub open spec fn spec_resolve(id: int) -> SyntaxKind {
    if id == 0 {
        SyntaxKind::UnspecifiedSyntaxKind  // attribute
    } else if id == 1 {
        SyntaxKind::Identifier  // constant
    } else if id == 2 {
        SyntaxKind::BuiltinIdentifier  // constant.builtin
    } else if id == 3 {
        SyntaxKind::Comment  // comment
    } else if id == 4 {
        SyntaxKind::FunctionDefinition  // function.builtin
    } else if id == 5 {
        SyntaxKind::FunctionDefinition  // function
    } else if id == 6 {
        SyntaxKind::Identifier  // method
    } else if id == 7 {
        SyntaxKind::Keyword  // include
    } else if id == 8 {
        SyntaxKind::Keyword  // keyword
    } else if id == 9 {
        SyntaxKind::Keyword  // keyword.function
    } else if id == 10 {
        SyntaxKind::Keyword  // keyword.return
    } else if id == 11 {
        SyntaxKind::Operator  // operator
    } else if id == 12 {
        SyntaxKind::UnspecifiedSyntaxKind  // property
    } else if id == 13 {
        SyntaxKind::UnspecifiedSyntaxKind  // punctuation
    } else if id == 14 {
        SyntaxKind::UnspecifiedSyntaxKind  // punctuation.bracket
    } else if id == 15 {
        SyntaxKind::UnspecifiedSyntaxKind  // punctuation.delimiter
    } else if id == 16 {
        SyntaxKind::StringLiteral  // string
    } else if id == 17 {
        SyntaxKind::StringLiteral  // string.special
    } else if id == 18 {
        SyntaxKind::UnspecifiedSyntaxKind  // tag
    } else if id == 19 {
        SyntaxKind::TypeIdentifier  // type
    } else if id == 20 {
        SyntaxKind::TypeIdentifier  // type.builtin
    } else if id == 21 {
        SyntaxKind::Identifier  // variable
    } else if id == 22 {
        SyntaxKind::UnspecifiedSyntaxKind  // variable.builtin
    } else if id == 23 {
        SyntaxKind::UnspecifiedSyntaxKind  // variable.parameter
    } else if id == 24 {
        SyntaxKind::Keyword  // conditional
    } else {
        SyntaxKind::BuiltinIdentifier  // boolean
    }
}

/// The capture name whose table position is `id`.
pub open spec fn spec_capture_name(id: int) -> Seq<char> {
    if id == 0 {
        "attribute"@
    } else if id == 1 {
        "constant"@
    } else if id == 2 {
        "constant.builtin"@
    } else if id == 3 {
        "comment"@
    } else if id == 4 {
        "function.builtin"@
    } else if id == 5 {
        "function"@
    } else if id == 6 {
        "method"@
    } else if id == 7 {
        "include"@
    } else if id == 8 {
        "keyword"@
    } else if id == 9 {
        "keyword.function"@
    } else if id == 10 {
        "keyword.return"@
    } else if id == 11 {
        "operator"@
    } else if id == 12 {
        "property"@
    } else if id == 13 {
        "punctuation"@
    } else if id == 14 {
        "punctuation.bracket"@
    } else if id == 15 {
        "punctuation.delimiter"@
    } else if id == 16 {
        "string"@
    } else if id == 17 {
        "string.special"@
    } else if id == 18 {
        "tag"@
    } else if id == 19 {
        "type"@
    } else if id == 20 {
        "type.builtin"@
    } else if id == 21 {
        "variable"@
    } else if id == 22 {
        "variable.builtin"@
    } else if id == 23 {
        "variable.parameter"@
    } else if id == 24 {
        "conditional"@
    } else {
        "boolean"@
    }
}

/// Maps a classification id to its syntax kind. An id at or beyond
/// `CAPTURE_COUNT` has no table entry: such an id signals a tokenizer
/// configured against a different table, which callers must rule out.
pub fn get_syntax_kind_for_hl(id: usize) -> (k: SyntaxKind)
    requires
        id < CAPTURE_COUNT,
    ensures
        k == spec_resolve(id as int),
{
    if id == 0 {
        SyntaxKind::UnspecifiedSyntaxKind
    } else if id == 1 {
        SyntaxKind::Identifier
    } else if id == 2 {
        SyntaxKind::BuiltinIdentifier
    } else if id == 3 {
        SyntaxKind::Comment
    } else if id == 4 {
        SyntaxKind::FunctionDefinition
    } else if id == 5 {
        SyntaxKind::FunctionDefinition
    } else if id == 6 {
        SyntaxKind::Identifier
    } else if id == 7 {
        SyntaxKind::Keyword
    } else if id == 8 {
        SyntaxKind::Keyword
    } else if id == 9 {
        SyntaxKind::Keyword
    } else if id == 10 {
        SyntaxKind::Keyword
    } else if id == 11 {
        SyntaxKind::Operator
    } else if id == 16 {
        SyntaxKind::StringLiteral
    } else if id == 17 {
        SyntaxKind::StringLiteral
    } else if id == 19 {
        SyntaxKind::TypeIdentifier
    } else if id == 20 {
        SyntaxKind::TypeIdentifier
    } else if id == 21 {
        SyntaxKind::Identifier
    } else if id == 24 {
        SyntaxKind::Keyword
    } else if id == 25 {
        SyntaxKind::BuiltinIdentifier
    } else {
        SyntaxKind::UnspecifiedSyntaxKind
    }
}

/// The capture name at table position `id`; the tokenizer is configured with
/// these names in table order, so that the `Highlight` indices it emits are
/// exactly the classification ids of this table.
pub fn capture_name(id: usize) -> (name: &'static str)
    requires
        id < CAPTURE_COUNT,
    ensures
        name@ == spec_capture_name(id as int),
{
    if id == 0 {
        "attribute"
    } else if id == 1 {
        "constant"
    } else if id == 2 {
        "constant.builtin"
    } else if id == 3 {
        "comment"
    } else if id == 4 {
        "function.builtin"
    } else if id == 5 {
        "function"
    } else if id == 6 {
        "method"
    } else if id == 7 {
        "include"
    } else if id == 8 {
        "keyword"
    } else if id == 9 {
        "keyword.function"
    } else if id == 10 {
        "keyword.return"
    } else if id == 11 {
        "operator"
    } else if id == 12 {
        "property"
    } else if id == 13 {
        "punctuation"
    } else if id == 14 {
        "punctuation.bracket"
    } else if id == 15 {
        "punctuation.delimiter"
    } else if id == 16 {
        "string"
    } else if id == 17 {
        "string.special"
    } else if id == 18 {
        "tag"
    } else if id == 19 {
        "type"
    } else if id == 20 {
        "type.builtin"
    } else if id == 21 {
        "variable"
    } else if id == 22 {
        "variable.builtin"
    } else if id == 23 {
        "variable.parameter"
    } else if id == 24 {
        "conditional"
    } else {
        "boolean"
    }
}

/// All capture names in table order: the list a tokenizer session must be
/// configured with for its classification ids to match this table.
pub fn capture_names() -> (names: Vec<&'static str>)
    ensures
        names@.len() == CAPTURE_COUNT,
        forall|i: int| 0 <= i < names@.len() ==> names@[i]@ == spec_capture_name(i),
{
    let mut names: Vec<&'static str> = Vec::new();
    let mut id: usize = 0;
    while id < CAPTURE_COUNT
        invariant
            id <= CAPTURE_COUNT,
            names@.len() == id,
            forall|i: int| 0 <= i < id ==> names@[i]@ == spec_capture_name(i),
        decreases CAPTURE_COUNT - id,
    {
        names.push(capture_name(id));
        id = id + 1;
    }
    names
}

} // verus!

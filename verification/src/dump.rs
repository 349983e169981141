//! Diagnostic consumer of a document: orders occurrences by their packed
//! range and renders an annotated text dump of the source, one caret line
//! under each classified same-line span.

use vstd::prelude::*;
use vstd::string::StrSliceExecFns;

use crate::emit::{doc_views, Document, Occurrence};
use crate::kinds::SyntaxKind;
use crate::props::occ_within;
use crate::line_index::{
    lemma_line_offsets_upto_wf, lemma_offsets_dominate_index, line_offsets, wf_offsets,
    LineManager, MAX_PACKABLE_OFFSET,
};
use crate::range::{packed_len_ok, range_le, spec_from_vec, PackedRange};

verus! {

/// The sort key of an occurrence: its packed range, decoded.
pub open spec fn occ_key(o: Occurrence) -> PackedRange {
    spec_from_vec(o.range@)
}

/// Every occurrence's range vector has one of the two canonical lengths.
pub open spec fn all_packed(s: Seq<Occurrence>) -> bool {
    forall|i: int| 0 <= i < s.len() ==> packed_len_ok(#[trigger] s[i].range@)
}

/// The occurrences are in range order.
pub open spec fn occs_sorted(s: Seq<Occurrence>) -> bool {
    forall|i: int, j: int| 0 <= i < j < s.len() ==> range_le(occ_key(s[i]), occ_key(s[j]))
}

/// Sorts occurrences by their packed range: same occurrences, range order.
pub fn sort_occurrences(occs: Vec<Occurrence>) -> (r: Vec<Occurrence>)
    requires
        all_packed(occs@),
    ensures
        occs_sorted(r@),
        r@.to_multiset() == occs@.to_multiset(),
        all_packed(r@),
        r@.len() == occs@.len(),
{
    let ghost orig = occs@;
    let mut occs = occs;
    let mut result: Vec<Occurrence> = Vec::new();
    proof {
        broadcast use vstd::seq_lib::group_to_multiset_ensures;
        broadcast use vstd::multiset::group_multiset_axioms;

        assert(result@.to_multiset().add(occs@.to_multiset()) =~= orig.to_multiset());
    }
    while occs.len() > 0
        invariant
            all_packed(occs@),
            all_packed(result@),
            occs_sorted(result@),
            result@.to_multiset().add(occs@.to_multiset()) == orig.to_multiset(),
            result@.len() + occs@.len() == orig.len(),
        decreases occs@.len(),
    {
        let ghost o0 = occs@;
        let x = occs.remove(0);
        let kx = PackedRange::from_vec(&x.range);
        let m = result.len();
        let mut pos: usize = 0;
        while pos < m
            invariant_except_break
                pos <= m,
                m == result@.len(),
                all_packed(result@),
                kx == occ_key(x),
                forall|i: int| 0 <= i < pos ==> range_le(occ_key(result@[i]), occ_key(x)),
            ensures
                pos <= result@.len(),
                m == result@.len(),
                forall|i: int| 0 <= i < pos ==> range_le(occ_key(result@[i]), occ_key(x)),
                pos < result@.len() ==> !range_le(occ_key(result@[pos as int]), occ_key(x)),
            decreases m - pos,
        {
            let kp = PackedRange::from_vec(&result[pos].range);
            if kp.le(&kx) {
                pos = pos + 1;
            } else {
                break ;
            }
        }
        let ghost r0 = result@;
        result.insert(pos, x);
        proof {
            broadcast use vstd::seq_lib::group_to_multiset_ensures;
            broadcast use vstd::multiset::group_multiset_axioms;

            assert(occs@ == o0.remove(0));
            assert(o0.contains(x)) by {
                assert(o0[0] == x);
            }
            assert(result@.to_multiset().add(occs@.to_multiset()) =~= orig.to_multiset());
            assert(all_packed(result@)) by {
                assert forall|i: int|
                    0 <= i < result@.len() implies packed_len_ok(#[trigger] result@[i].range@) by {
                    if i < pos {
                        assert(result@[i] == r0[i]);
                    } else if i == pos {
                        assert(result@[i] == x);
                    } else {
                        assert(result@[i] == r0[i - 1]);
                    }
                }
            }
            assert(occs_sorted(result@)) by {
                assert forall|i: int, j: int| 0 <= i < j < result@.len() implies range_le(
                    occ_key(result@[i]),
                    occ_key(result@[j]),
                ) by {
                    if j < pos {
                    } else if j == pos {
                        assert(result@[i] == r0[i]);
                        assert(result@[j] == x);
                    } else {
                        assert(result@[j] == r0[j - 1]);
                        if i < pos {
                            assert(result@[i] == r0[i]);
                            if pos < r0.len() {
                                assert(range_le(occ_key(x), occ_key(r0[pos as int])));
                            }
                        } else if i == pos {
                            assert(result@[i] == x);
                            assert(!range_le(occ_key(r0[pos as int]), occ_key(x)));
                            assert(range_le(occ_key(x), occ_key(r0[pos as int])));
                            assert(range_le(occ_key(r0[pos as int]), occ_key(r0[j - 1])));
                        } else {
                            assert(result@[i] == r0[i - 1]);
                        }
                    }
                }
            }
        }
    }
    result
}

/// `count` copies of one byte.
pub open spec fn spec_repeat(b: u8, count: int) -> Seq<u8> {
    if count <= 0 {
        Seq::empty()
    } else {
        Seq::new(count as nat, |i: int| b)
    }
}

/// A tab byte shown as a space; every other byte as itself.
pub open spec fn tab_to_space(b: u8) -> u8 {
    if b == 9 {
        32
    } else {
        b
    }
}

/// A sequence of bytes with its tabs shown as spaces.
pub open spec fn tabs_to_spaces(s: Seq<u8>) -> Seq<u8> {
    Seq::new(s.len(), |i: int| tab_to_space(s[i]))
}

/// The bytes of a sequence of ASCII characters.
pub open spec fn str_bytes(s: Seq<char>) -> Seq<u8> {
    s.map_values(|c: char| c as u8)
}

/// The dump's name for a syntax kind, as bytes.
pub open spec fn spec_kind_label(kind: SyntaxKind) -> Seq<u8> {
    match kind {
        SyntaxKind::UnspecifiedSyntaxKind => str_bytes("UnspecifiedSyntaxKind"@),
        SyntaxKind::Comment => str_bytes("Comment"@),
        SyntaxKind::Keyword => str_bytes("Keyword"@),
        SyntaxKind::StringLiteral => str_bytes("StringLiteral"@),
        SyntaxKind::Identifier => str_bytes("Identifier"@),
        SyntaxKind::TypeIdentifier => str_bytes("TypeIdentifier"@),
        SyntaxKind::Operator => str_bytes("Operator"@),
        SyntaxKind::FunctionDefinition => str_bytes("FunctionDefinition"@),
        SyntaxKind::BuiltinIdentifier => str_bytes("BuiltinIdentifier"@),
    }
}

/// One displayed source line: two spaces, the line's bytes with tabs shown as
/// spaces, and a newline.
pub open spec fn spec_line_text(source: Seq<u8>, start: int, end: int) -> Seq<u8> {
    seq![32u8, 32u8] + tabs_to_spaces(source.subrange(start, end)) + seq![10u8]
}

/// One caret line: a comment leader, spaces up to the span's start column, a
/// caret per spanned column, a space, and the kind's name.
pub open spec fn spec_caret(start_col: int, end_col: int, kind: SyntaxKind) -> Seq<u8> {
    seq![47u8, 47u8] + spec_repeat(32u8, start_col) + spec_repeat(94u8, end_col - start_col)
        + seq![32u8] + spec_kind_label(kind) + seq![10u8]
}

/// Where the displayed content of line `l` ends: just before the next line's
/// start, or at the end of the buffer, leaving out one trailing newline.
pub open spec fn line_content_end(source: Seq<u8>, offsets: Seq<usize>, l: int) -> int {
    if l < offsets.len() - 1 {
        offsets[l + 1] - 1
    } else if source.len() > 0 && source[source.len() - 1] == 10 {
        source.len() - 1
    } else {
        source.len() as int
    }
}

/// The caret lines printed under line `idx`, walking the sorted occurrences
/// from position `qi`: kinds with nothing to say and cross-line ranges are
/// passed over, a range on a later line stops the walk, and a range on this
/// line prints one caret line. Returns the bytes and the position the walk
/// stopped at.
pub open spec fn spec_dump_carets(occs: Seq<Occurrence>, qi: int, idx: int) -> (Seq<u8>, int)
    decreases occs.len() - qi,
{
    if qi < 0 || qi >= occs.len() {
        (Seq::empty(), qi)
    } else {
        let o = occs[qi];
        if o.syntax_kind == SyntaxKind::UnspecifiedSyntaxKind {
            spec_dump_carets(occs, qi + 1, idx)
        } else {
            let k = spec_from_vec(o.range@);
            if k.start_line != k.end_line {
                spec_dump_carets(occs, qi + 1, idx)
            } else if k.start_line as int != idx {
                (Seq::empty(), qi)
            } else {
                let t = spec_dump_carets(occs, qi + 1, idx);
                (spec_caret(k.start_col as int, k.end_col as int, o.syntax_kind) + t.0, t.1)
            }
        }
    }
}

/// The dump from line `idx` on: each line's text followed by its caret lines.
pub open spec fn spec_dump_lines(
    occs: Seq<Occurrence>,
    qi: int,
    source: Seq<u8>,
    offsets: Seq<usize>,
    idx: int,
) -> Seq<u8>
    decreases offsets.len() - idx,
{
    if idx < 0 || idx >= offsets.len() {
        Seq::empty()
    } else {
        let text = spec_line_text(
            source,
            offsets[idx] as int,
            line_content_end(source, offsets, idx),
        );
        let carets = spec_dump_carets(occs, qi, idx);
        text + carets.0 + spec_dump_lines(occs, carets.1, source, offsets, idx + 1)
    }
}

/// The whole dump of a sorted occurrence list over a source buffer.
pub open spec fn spec_dump(occs: Seq<Occurrence>, source: Seq<u8>) -> Seq<u8> {
    if source.len() == 0 {
        Seq::empty()
    } else {
        spec_dump_lines(occs, 0, source, line_offsets(source), 0)
    }
}

/// The columns an occurrence would be drawn with are usable: whenever it can
/// print a caret line, its start column is at most its end column and neither
/// is negative.
pub open spec fn dump_cols_ok(o: Occurrence) -> bool {
    (o.syntax_kind != SyntaxKind::UnspecifiedSyntaxKind && occ_key(o).start_line == occ_key(
        o,
    ).end_line && occ_key(o).start_line >= 0) ==> (0 <= occ_key(o).start_col && occ_key(o).start_col
        <= occ_key(o).end_col)
}

/// What the dump asks of a document's occurrences.
pub open spec fn dumpable(s: Seq<Occurrence>) -> bool {
    &&& all_packed(s)
    &&& forall|i: int| 0 <= i < s.len() ==> dump_cols_ok(#[trigger] s[i])
}

/// A document whose ranges all lie within the buffer — as everything the
/// emitter produces from a contract-valid stream does — is usable by the
/// dump: canonical lengths throughout, columns in order on every line.
pub proof fn lemma_bounded_occurrences_are_dumpable(
    d: Document,
    offsets: Seq<usize>,
    n: int,
)
    requires
        forall|k: int|
            0 <= k < doc_views(d).len() ==> occ_within(
                #[trigger] doc_views(d)[k].0,
                offsets,
                n,
            ),
    ensures
        dumpable(d.occurrences@),
{
    assert forall|i: int|
        0 <= i < d.occurrences@.len() implies packed_len_ok(
        #[trigger] d.occurrences@[i].range@,
    ) by {
        assert(doc_views(d)[i].0 == d.occurrences@[i].range@);
        assert(occ_within(doc_views(d)[i].0, offsets, n));
    }
    assert forall|i: int| 0 <= i < d.occurrences@.len() implies dump_cols_ok(
        #[trigger] d.occurrences@[i],
    ) by {
        assert(doc_views(d)[i].0 == d.occurrences@[i].range@);
        assert(occ_within(doc_views(d)[i].0, offsets, n));
    }
}

/// Reordering occurrences keeps every one of them usable by the dump.
proof fn lemma_perm_preserves_cols_ok(a: Seq<Occurrence>, b: Seq<Occurrence>)
    requires
        a.to_multiset() == b.to_multiset(),
        forall|i: int| 0 <= i < a.len() ==> dump_cols_ok(#[trigger] a[i]),
    ensures
        forall|i: int| 0 <= i < b.len() ==> dump_cols_ok(#[trigger] b[i]),
{
    assert forall|i: int| 0 <= i < b.len() implies dump_cols_ok(#[trigger] b[i]) by {
        broadcast use vstd::seq_lib::group_to_multiset_ensures;

        assert(b.contains(b[i]));
        assert(b.to_multiset().count(b[i]) > 0);
        assert(a.to_multiset().count(b[i]) > 0);
        assert(a.contains(b[i]));
        let j = choose|j: int| 0 <= j < a.len() && a[j] == b[i];
        assert(dump_cols_ok(a[j]));
    }
}

/// Appends `count` copies of `b`.
fn push_repeat(out: &mut Vec<u8>, b: u8, count: usize)
    ensures
        final(out)@ == old(out)@ + spec_repeat(b, count as int),
{
    let mut k: usize = 0;
    proof {
        assert(out@ =~= old(out)@ + spec_repeat(b, 0));
    }
    while k < count
        invariant
            k <= count,
            out@ == old(out)@ + spec_repeat(b, k as int),
        decreases count - k,
    {
        out.push(b);
        proof {
            assert(spec_repeat(b, k as int + 1) =~= spec_repeat(b, k as int).push(b));
            assert(out@ =~= old(out)@ + spec_repeat(b, k as int + 1));
        }
        k = k + 1;
    }
}

/// Appends the dump's name for a syntax kind.
fn push_label(out: &mut Vec<u8>, kind: SyntaxKind)
    ensures
        final(out)@ == old(out)@ + spec_kind_label(kind),
{
    match kind {
        SyntaxKind::UnspecifiedSyntaxKind => {
            proof {
                reveal_strlit("UnspecifiedSyntaxKind");
            }
            push_str_bytes(out, "UnspecifiedSyntaxKind");
        },
        SyntaxKind::Comment => {
            proof {
                reveal_strlit("Comment");
            }
            push_str_bytes(out, "Comment");
        },
        SyntaxKind::Keyword => {
            proof {
                reveal_strlit("Keyword");
            }
            push_str_bytes(out, "Keyword");
        },
        SyntaxKind::StringLiteral => {
            proof {
                reveal_strlit("StringLiteral");
            }
            push_str_bytes(out, "StringLiteral");
        },
        SyntaxKind::Identifier => {
            proof {
                reveal_strlit("Identifier");
            }
            push_str_bytes(out, "Identifier");
        },
        SyntaxKind::TypeIdentifier => {
            proof {
                reveal_strlit("TypeIdentifier");
            }
            push_str_bytes(out, "TypeIdentifier");
        },
        SyntaxKind::Operator => {
            proof {
                reveal_strlit("Operator");
            }
            push_str_bytes(out, "Operator");
        },
        SyntaxKind::FunctionDefinition => {
            proof {
                reveal_strlit("FunctionDefinition");
            }
            push_str_bytes(out, "FunctionDefinition");
        },
        SyntaxKind::BuiltinIdentifier => {
            proof {
                reveal_strlit("BuiltinIdentifier");
            }
            push_str_bytes(out, "BuiltinIdentifier");
        },
    }
}

/// Appends the bytes of an ASCII string slice.
fn push_str_bytes(out: &mut Vec<u8>, s: &str)
    requires
        s.is_ascii(),
    ensures
        final(out)@ == old(out)@ + str_bytes(s@),
{
    let n = s.unicode_len();
    let mut k: usize = 0;
    proof {
        assert(out@ =~= old(out)@ + str_bytes(s@.subrange(0, 0)));
    }
    while k < n
        invariant
            k <= n,
            n == s@.len(),
            s.is_ascii(),
            out@ == old(out)@ + str_bytes(s@.subrange(0, k as int)),
        decreases n - k,
    {
        let c = s.get_ascii(k);
        out.push(c);
        proof {
            assert(str_bytes(s@.subrange(0, k as int + 1)) =~= str_bytes(
                s@.subrange(0, k as int),
            ).push(s@[k as int] as u8));
            assert(out@ =~= old(out)@ + str_bytes(s@.subrange(0, k as int + 1)));
        }
        k = k + 1;
    }
    proof {
        assert(s@.subrange(0, s@.len() as int) =~= s@);
    }
}

/// Appends one displayed source line: two spaces, the bytes of
/// `source[start..end]` with tabs shown as spaces, and a newline.
fn push_line_text(out: &mut Vec<u8>, source: &Vec<u8>, start: usize, end: usize)
    requires
        start <= end,
        end <= source@.len(),
    ensures
        final(out)@ == old(out)@ + spec_line_text(source@, start as int, end as int),
{
    out.push(32);
    out.push(32);
    let mut p = start;
    proof {
        assert(out@ =~= old(out)@ + seq![32u8, 32u8] + tabs_to_spaces(
            source@.subrange(start as int, start as int),
        ));
    }
    while p < end
        invariant
            start <= p <= end,
            end <= source@.len(),
            out@ == old(out)@ + seq![32u8, 32u8] + tabs_to_spaces(
                source@.subrange(start as int, p as int),
            ),
        decreases end - p,
    {
        let b = source[p];
        if b == 9 {
            out.push(32);
        } else {
            out.push(b);
        }
        proof {
            assert(tabs_to_spaces(source@.subrange(start as int, p as int + 1)) =~= tabs_to_spaces(
                source@.subrange(start as int, p as int),
            ).push(tab_to_space(source@[p as int])));
            assert(out@ =~= old(out)@ + seq![32u8, 32u8] + tabs_to_spaces(
                source@.subrange(start as int, p as int + 1),
            ));
        }
        p = p + 1;
    }
    out.push(10);
    proof {
        assert(out@ =~= old(out)@ + spec_line_text(source@, start as int, end as int));
    }
}

/// Appends one caret line for a span of columns `start_col..end_col`.
fn push_caret_line(out: &mut Vec<u8>, start_col: usize, end_col: usize, kind: SyntaxKind)
    requires
        start_col <= end_col,
    ensures
        final(out)@ == old(out)@ + spec_caret(start_col as int, end_col as int, kind),
{
    out.push(47);
    out.push(47);
    push_repeat(out, 32, start_col);
    push_repeat(out, 94, end_col - start_col);
    out.push(32);
    push_label(out, kind);
    out.push(10);
    proof {
        assert(out@ =~= old(out)@ + spec_caret(start_col as int, end_col as int, kind));
    }
}

/// Renders the annotated dump of a document over its source: every source
/// line indented under a comment margin, and beneath each line one caret
/// underline per same-line occurrence on it, in range order, skipping the
/// unspecified kind and cross-line ranges.
pub fn dump_document(doc: Document, source: &Vec<u8>) -> (r: Vec<u8>)
    requires
        dumpable(doc.occurrences@),
        source@.len() <= MAX_PACKABLE_OFFSET,
    ensures
        exists|sorted: Seq<Occurrence>|
            {
                &&& sorted.to_multiset() == doc.occurrences@.to_multiset()
                &&& occs_sorted(sorted)
                &&& r@ == #[trigger] spec_dump(sorted, source@)
            },
{
    let ghost orig = doc.occurrences@;
    let occurrences = doc.occurrences;
    let sorted = sort_occurrences(occurrences);
    proof {
        lemma_perm_preserves_cols_ok(orig, sorted@);
    }
    let n = source.len();
    if n == 0 {
        let out: Vec<u8> = Vec::new();
        proof {
            assert(out@ =~= spec_dump(sorted@, source@));
        }
        return out;
    }
    let line_manager = LineManager::new(source);
    let line_count = line_manager.offsets.len();
    proof {
        lemma_line_offsets_upto_wf(source@, n as int);
        if line_count > 1 {
            lemma_offsets_dominate_index(line_manager@, line_count - 1);
            assert(line_manager@[line_count - 1] > 0);
        }
        assert(line_count <= n);
    }
    let mut out: Vec<u8> = Vec::new();
    let mut qi: usize = 0;
    let mut idx: usize = 0;
    proof {
        assert(Seq::<u8>::empty() + spec_dump_lines(sorted@, 0, source@, line_manager@, 0)
            =~= spec_dump_lines(sorted@, 0, source@, line_manager@, 0));
    }
    while idx < line_count
        invariant
            n == source@.len(),
            n >= 1,
            n <= MAX_PACKABLE_OFFSET,
            line_manager@ == line_offsets(source@),
            wf_offsets(line_manager@),
            line_count == line_manager@.len(),
            line_count <= n,
            idx <= line_count,
            qi <= sorted@.len(),
            dumpable(sorted@),
            spec_dump_lines(sorted@, 0, source@, line_manager@, 0) == out@ + spec_dump_lines(
                sorted@,
                qi as int,
                source@,
                line_manager@,
                idx as int,
            ),
        decreases line_count - idx,
    {
        let ghost offs = line_manager@;
        let ghost idx0 = idx as int;
        let ghost qi0 = qi as int;
        let ghost out0 = out@;
        let start = line_manager.offsets[idx];
        proof {
            if idx + 1 < line_count {
                assert(offs[idx0] < offs[idx0 + 1]);
            }
            lemma_line_offsets_upto_wf(source@, n as int);
            assert(forall|i: int| 0 <= i < offs.len() ==> offs[i] == 0 || offs[i] < n);
        }
        let end = if idx + 1 < line_count {
            line_manager.offsets[idx + 1] - 1
        } else if source[n - 1] == 10 {
            n - 1
        } else {
            n
        };
        proof {
            assert(end as int == line_content_end(source@, offs, idx0));
            assert(start <= end && end <= n);
        }
        push_line_text(&mut out, source, start, end);
        let ghost text = spec_line_text(source@, start as int, end as int);
        let ghost acc0 = out@;
        let ghost mut done: Seq<u8> = Seq::empty();
        proof {
            assert(done + spec_dump_carets(sorted@, qi as int, idx0).0 =~= spec_dump_carets(
                sorted@,
                qi as int,
                idx0,
            ).0);
        }
        let m = sorted.len();
        while qi < m
            invariant_except_break
                m == sorted@.len(),
                qi0 <= qi <= m,
                idx0 == idx as int,
                idx < line_count <= n <= MAX_PACKABLE_OFFSET,
                dumpable(sorted@),
                out@ == acc0 + done,
                spec_dump_carets(sorted@, qi0, idx0).0 == done + spec_dump_carets(
                    sorted@,
                    qi as int,
                    idx0,
                ).0,
                spec_dump_carets(sorted@, qi0, idx0).1 == spec_dump_carets(
                    sorted@,
                    qi as int,
                    idx0,
                ).1,
            ensures
                qi <= m,
                m == sorted@.len(),
                out@ == acc0 + spec_dump_carets(sorted@, qi0, idx0).0,
                qi as int == spec_dump_carets(sorted@, qi0, idx0).1,
            decreases m - qi,
        {
            let o = &sorted[qi];
            if o.syntax_kind == SyntaxKind::UnspecifiedSyntaxKind {
                qi = qi + 1;
                continue ;
            }
            assert(packed_len_ok(sorted@[qi as int].range@));
            let pr = PackedRange::from_vec(&o.range);
            if pr.start_line != pr.end_line {
                qi = qi + 1;
                continue ;
            }
            if pr.start_line != idx as i32 {
                proof {
                    assert(spec_dump_carets(sorted@, qi as int, idx0) == (
                        Seq::<u8>::empty(),
                        qi as int,
                    ));
                    assert(done + Seq::<u8>::empty() =~= done);
                }
                break ;
            }
            proof {
                assert(dump_cols_ok(sorted@[qi as int]));
                assert(occ_key(sorted@[qi as int]) == pr);
            }
            let start_col = pr.start_col as usize;
            let end_col = pr.end_col as usize;
            let ghost caret = spec_caret(start_col as int, end_col as int, o.syntax_kind);
            push_caret_line(&mut out, start_col, end_col, o.syntax_kind);
            proof {
                let t = spec_dump_carets(sorted@, qi as int + 1, idx0);
                assert(spec_dump_carets(sorted@, qi as int, idx0) == (caret + t.0, t.1));
                assert(acc0 + done + caret =~= acc0 + (done + caret));
                assert(done + (caret + t.0) =~= (done + caret) + t.0);
                done = done + caret;
            }
            qi = qi + 1;
        }
        proof {
            let q2 = spec_dump_carets(sorted@, qi0, idx0).1;
            assert(0 <= q2 <= sorted@.len()) by {
                lemma_carets_pos_bounds(sorted@, qi0, idx0);
            }
            assert(spec_dump_lines(sorted@, qi0, source@, offs, idx0) == text + spec_dump_carets(
                sorted@,
                qi0,
                idx0,
            ).0 + spec_dump_lines(sorted@, q2, source@, offs, idx0 + 1));
            assert(out0 + (text + spec_dump_carets(sorted@, qi0, idx0).0 + spec_dump_lines(
                sorted@,
                q2,
                source@,
                offs,
                idx0 + 1,
            )) =~= out@ + spec_dump_lines(sorted@, q2, source@, offs, idx0 + 1));
        }
        idx = idx + 1;
    }
    proof {
        assert(spec_dump_lines(sorted@, qi as int, source@, line_manager@, idx as int) =~= Seq::<
            u8,
        >::empty());
        assert(out@ + Seq::<u8>::empty() =~= out@);
        assert(out@ == spec_dump(sorted@, source@));
    }
    out
}

/// The walk over sorted occurrences never moves backwards nor past the end.
proof fn lemma_carets_pos_bounds(occs: Seq<Occurrence>, qi: int, idx: int)
    requires
        0 <= qi <= occs.len(),
    ensures
        qi <= spec_dump_carets(occs, qi, idx).1 <= occs.len(),
    decreases occs.len() - qi,
{
    if qi < occs.len() {
        lemma_carets_pos_bounds(occs, qi + 1, idx);
    }
}

} // verus!

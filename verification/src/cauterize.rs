//! The edit-synthesis engine: each unused-declaration fact's span is
//! extended over the attribute lines, the documentation-comment block and
//! the blank lines around it, overlapping extensions are merged, and the
//! resulting non-overlapping deletions are applied to the file's bytes.

use vstd::prelude::*;
use crate::unused::ByteRange;
use crate::unused::UnusedItem;
use crate::unused::spec_sorted_by_start;

verus! {

/// The start of the line containing position `i`: the greatest line
/// start at or before `i`.
pub open spec fn line_start_at(t: Seq<u8>, i: int) -> int
    decreases i,
{
    if i <= 0 {
        0
    } else if t[i - 1] == 10 {
        i
    } else {
        line_start_at(t, i - 1)
    }
}

/// One past the end of the line containing position `i`: just past the
/// next line break at or after `i`, or the end of the text.
pub open spec fn line_end_at(t: Seq<u8>, i: int) -> int
    decreases t.len() - i,
{
    if i >= t.len() {
        t.len() as int
    } else if t[i] == 10 {
        i + 1
    } else {
        line_end_at(t, i + 1)
    }
}

/// Horizontal whitespace: space, tab or carriage return.
pub open spec fn is_space(b: u8) -> bool {
    b == 32 || b == 9 || b == 13
}

/// The first position at or after `s` holding neither a space, a tab nor
/// a carriage return (possibly the end of the text or a line break).
pub open spec fn skip_spaces(t: Seq<u8>, s: int) -> int
    decreases t.len() - s,
{
    if s < 0 || s >= t.len() {
        s
    } else if is_space(t[s]) {
        skip_spaces(t, s + 1)
    } else {
        s
    }
}

/// Whether the line starting at `s` holds only whitespace.
pub open spec fn line_blank(t: Seq<u8>, s: int) -> bool {
    skip_spaces(t, s) >= t.len() || t[skip_spaces(t, s)] == 10
}

/// Whether the line starting at `s` opens an attribute: its first
/// non-space bytes are `#[`.
pub open spec fn line_attr(t: Seq<u8>, s: int) -> bool {
    let p = skip_spaces(t, s);
    0 <= p && p + 1 < t.len() && t[p] == 35 && t[p + 1] == 91
}

/// Whether the line starting at `s` is a documentation-comment line: its
/// first non-space bytes are `///`.
pub open spec fn line_doc(t: Seq<u8>, s: int) -> bool {
    let p = skip_spaces(t, s);
    0 <= p && p + 2 < t.len() && t[p] == 47 && t[p + 1] == 47 && t[p + 2] == 47
}

/// Whether a deletion extends over the line starting at `s`: blank
/// lines, attribute lines and documentation-comment lines belong to the
/// declaration below them.
pub open spec fn absorbable_line(t: Seq<u8>, s: int) -> bool {
    line_blank(t, s) || line_attr(t, s) || line_doc(t, s)
}

/// Backward extension from the line start `p`: while the previous line
/// is blank, an attribute line or a documentation-comment line, the
/// deletion grows to include it.
pub open spec fn extend_back(t: Seq<u8>, p: int) -> int
    decreases p,
{
    if p <= 0 {
        0
    } else {
        let q = line_start_at(t, p - 1);
        if absorbable_line(t, q) && 0 <= q && q < p {
            extend_back(t, q)
        } else {
            p
        }
    }
}

/// Forward extension from the span end `e`: through the rest of the
/// declaration's final line, plus at most one trailing blank line, so
/// that deletion does not swallow a following item's separation.
pub open spec fn extend_fwd(t: Seq<u8>, e: int) -> int {
    let e1 = if 0 < e <= t.len() && t[e - 1] == 10 {
        e
    } else {
        line_end_at(t, e)
    };
    if e1 < t.len() && line_blank(t, e1) {
        line_end_at(t, e1)
    } else {
        e1
    }
}

/// The line start is at or before `i`, preceded by a line break (or the
/// text's start), with no line break between it and `i`.
pub proof fn lemma_line_start_at(t: Seq<u8>, i: int)
    requires
        0 <= i <= t.len(),
    ensures
        0 <= line_start_at(t, i) <= i,
        line_start_at(t, i) == 0 || t[line_start_at(t, i) - 1] == 10,
        forall|j: int| line_start_at(t, i) <= j < i ==> t[j] != 10,
    decreases i,
{
    if i > 0 && t[i - 1] != 10 {
        lemma_line_start_at(t, i - 1);
    }
}

/// The line end is between `i` and the text's end, just past a line
/// break unless it is the text's end, with no line break before it.
pub proof fn lemma_line_end_at(t: Seq<u8>, i: int)
    requires
        0 <= i <= t.len(),
    ensures
        i <= line_end_at(t, i) <= t.len(),
        line_end_at(t, i) == t.len() || t[line_end_at(t, i) - 1] == 10,
        forall|j: int| i <= j < line_end_at(t, i) - 1 ==> t[j] != 10,
    decreases t.len() - i,
{
    if i < t.len() && t[i] != 10 {
        lemma_line_end_at(t, i + 1);
    }
}

/// A line start never lies beyond the position it is computed from.
pub proof fn lemma_line_start_le(t: Seq<u8>, i: int)
    requires
        0 <= i,
    ensures
        0 <= line_start_at(t, i) <= i,
    decreases i,
{
    if i > 0 && t[i - 1] != 10 {
        lemma_line_start_le(t, i - 1);
    }
}

/// Backward extension never goes below zero nor beyond its start.
pub proof fn lemma_extend_back_le(t: Seq<u8>, p: int)
    requires
        0 <= p,
    ensures
        0 <= extend_back(t, p) <= p,
    decreases p,
{
    if p > 0 {
        let q = line_start_at(t, p - 1);
        lemma_line_start_le(t, p - 1);
        if absorbable_line(t, q) && 0 <= q && q < p {
            lemma_extend_back_le(t, q);
        }
    }
}

/// The position where a line scanner stops.
fn find_line_start(t: &Vec<u8>, i: usize) -> (r: usize)
    requires
        i <= t@.len(),
    ensures
        r == line_start_at(t@, i as int),
{
    let mut j: usize = i;
    while j > 0 && t[j - 1] != 10
        invariant
            0 <= j <= i <= t@.len(),
            line_start_at(t@, j as int) == line_start_at(t@, i as int),
        decreases j,
    {
        j -= 1;
    }
    j
}

/// One past the end of the line containing `i`.
pub(crate) fn find_line_end(t: &Vec<u8>, i: usize) -> (r: usize)
    requires
        i <= t@.len(),
    ensures
        r == line_end_at(t@, i as int),
{
    let mut j: usize = i;
    while j < t.len() && t[j] != 10
        invariant
            i <= j <= t@.len(),
            line_end_at(t@, j as int) == line_end_at(t@, i as int),
        decreases t@.len() - j,
    {
        j += 1;
    }
    if j < t.len() {
        j + 1
    } else {
        j
    }
}

/// The first non-space position at or after `s`.
fn skip_spaces_exec(t: &Vec<u8>, s: usize) -> (r: usize)
    requires
        s <= t@.len(),
    ensures
        r == skip_spaces(t@, s as int),
        s <= r <= t@.len(),
{
    let mut j: usize = s;
    while j < t.len() && (t[j] == 32 || t[j] == 9 || t[j] == 13)
        invariant
            s <= j <= t@.len(),
            skip_spaces(t@, j as int) == skip_spaces(t@, s as int),
        decreases t@.len() - j,
    {
        j += 1;
    }
    j
}

/// Decides whether the deletion may extend over the line starting at `s`.
fn absorbable_exec(t: &Vec<u8>, s: usize) -> (r: bool)
    requires
        s <= t@.len(),
    ensures
        r == absorbable_line(t@, s as int),
{
    let p = skip_spaces_exec(t, s);
    if p >= t.len() {
        true
    } else if t[p] == 10 {
        true
    } else if t[p] == 35 && t.len() - p > 1 && t[p + 1] == 91 {
        true
    } else if t[p] == 47 && t.len() - p > 2 && t[p + 1] == 47 && t[p + 2] == 47 {
        true
    } else {
        false
    }
}

/// The backward extension of the line start `p`.
fn extend_back_exec(t: &Vec<u8>, p: usize) -> (r: usize)
    requires
        p <= t@.len(),
    ensures
        r == extend_back(t@, p as int),
        r <= p,
{
    let mut cur: usize = p;
    while cur > 0
        invariant
            0 <= cur <= p <= t@.len(),
            extend_back(t@, cur as int) == extend_back(t@, p as int),
        decreases cur,
    {
        let q = find_line_start(t, cur - 1);
        proof {
            lemma_line_start_le(t@, cur as int - 1);
        }
        if absorbable_exec(t, q) {
            cur = q;
        } else {
            assert(extend_back(t@, cur as int) == cur);
            return cur;
        }
    }
    cur
}

/// The full extension of a located span: backward over absorbable lines,
/// forward through the final line plus at most one blank line. The
/// extension contains the span it starts from.
pub open spec fn spec_extended(t: Seq<u8>, span: ByteRange) -> ByteRange {
    ByteRange {
        start: extend_back(t, line_start_at(t, span.start as int)) as usize,
        end: extend_fwd(t, span.end as int) as usize,
    }
}

/// Extends a span over its surrounding absorbable lines.
pub fn extend_span(t: &Vec<u8>, span: ByteRange) -> (r: ByteRange)
    requires
        span.wf(),
        span.end <= t@.len(),
    ensures
        r == spec_extended(t@, span),
        r.start <= span.start,
        span.end <= r.end <= t@.len(),
{
    let ls = find_line_start(t, span.start);
    proof {
        lemma_line_start_le(t@, span.start as int);
    }
    let lo = extend_back_exec(t, ls);
    let e1: usize = if span.end > 0 && t[span.end - 1] == 10 {
        span.end
    } else {
        proof {
            lemma_line_end_at(t@, span.end as int);
        }
        find_line_end(t, span.end)
    };
    let hi: usize = if e1 < t.len() {
        let p = skip_spaces_exec(t, e1);
        if p >= t.len() || t[p] == 10 {
            proof {
                lemma_line_end_at(t@, e1 as int);
            }
            find_line_end(t, e1)
        } else {
            e1
        }
    } else {
        e1
    };
    ByteRange { start: lo, end: hi }
}


/// Whether a fact's span can be located in the current text.
pub open spec fn spec_locatable(t: Seq<u8>, r: ByteRange) -> bool {
    r.start <= r.end && r.end <= t.len()
}

/// The extension of a located span stays within the text and never
/// starts after the span it extends.
pub proof fn lemma_extended_bounds(t: Seq<u8>, span: ByteRange)
    requires
        spec_locatable(t, span),
        t.len() <= usize::MAX,
    ensures
        spec_extended(t, span).start <= span.start,
        span.end <= spec_extended(t, span).end <= t.len(),
{
    lemma_line_start_le(t, span.start as int);
    lemma_extend_back_le(t, line_start_at(t, span.start as int));
    lemma_line_end_at(t, span.end as int);
    let e1 = if 0 < span.end <= t.len() && t[span.end - 1] == 10 {
        span.end as int
    } else {
        line_end_at(t, span.end as int)
    };
    lemma_line_end_at(t, e1);
}

/// The deletions synthesized from a file's facts, processed in order:
/// an unlocatable span is skipped, an extension that overlaps or touches
/// the previous deletion is merged into it, and any other non-empty
/// extension opens a new deletion.
pub open spec fn spec_assemble(t: Seq<u8>, items: Seq<UnusedItem>) -> Seq<ByteRange>
    decreases items.len(),
{
    if items.len() == 0 {
        Seq::empty()
    } else {
        let prev = spec_assemble(t, items.drop_last());
        let it = items.last();
        if !spec_locatable(t, it.span) {
            prev
        } else {
            let ext = spec_extended(t, it.span);
            if ext.start >= ext.end {
                prev
            } else if prev.len() > 0 && ext.start <= prev.last().end {
                prev.update(
                    prev.len() - 1,
                    ByteRange {
                        start: prev.last().start,
                        end: if prev.last().end >= ext.end {
                            prev.last().end
                        } else {
                            ext.end
                        },
                    },
                )
            } else {
                prev.push(ext)
            }
        }
    }
}

/// The non-overlap invariant of a deletion list: ranges are non-empty,
/// lie within the text, and each ends at or before the next begins.
pub open spec fn spec_edits_wf(t: Seq<u8>, rs: Seq<ByteRange>) -> bool {
    &&& forall|a: int, b: int| 0 <= a < b < rs.len() ==> (#[trigger] rs[a]).end <= (
    #[trigger] rs[b]).start
    &&& forall|a: int| 0 <= a < rs.len() ==> (#[trigger] rs[a]).start < rs[a].end
    &&& forall|a: int| 0 <= a < rs.len() ==> (#[trigger] rs[a]).end <= t.len()
}

/// The non-overlap invariant holds of every assembled deletion list,
/// whatever facts it was assembled from: for any two deletions, the
/// earlier ends at or before the later begins.
pub proof fn lemma_assemble_wf(t: Seq<u8>, items: Seq<UnusedItem>)
    requires
        t.len() <= usize::MAX,
    ensures
        spec_edits_wf(t, spec_assemble(t, items)),
    decreases items.len(),
{
    if items.len() > 0 {
        lemma_assemble_wf(t, items.drop_last());
        let prev = spec_assemble(t, items.drop_last());
        let it = items.last();
        let rs = spec_assemble(t, items);
        if spec_locatable(t, it.span) {
            let ext = spec_extended(t, it.span);
            lemma_extended_bounds(t, it.span);
            if ext.start >= ext.end {
            } else if prev.len() > 0 && ext.start <= prev.last().end {
                assert forall|a: int, b: int| 0 <= a < b < rs.len() implies (
                #[trigger] rs[a]).end <= (#[trigger] rs[b]).start by {
                    if b < rs.len() - 1 {
                        assert(rs[a] == prev[a] && rs[b] == prev[b]);
                    } else {
                        assert(rs[b].start == prev[b].start);
                    }
                }
            } else {
                assert forall|a: int, b: int| 0 <= a < b < rs.len() implies (
                #[trigger] rs[a]).end <= (#[trigger] rs[b]).start by {
                    if b < rs.len() - 1 {
                    } else if a < rs.len() - 1 {
                        if a < prev.len() - 1 {
                            assert(prev[a].end <= prev[prev.len() - 1].start);
                        }
                    }
                }
            }
        }
    }
}

/// The text left after removing the ranges of `rs` (sorted, disjoint),
/// starting from position `from`: the kept segments, concatenated.
pub open spec fn spec_synth(t: Seq<u8>, rs: Seq<ByteRange>, from: int) -> Seq<u8>
    decreases rs.len(),
{
    if rs.len() == 0 {
        t.subrange(from, t.len() as int)
    } else {
        t.subrange(from, rs[0].start as int) + spec_synth(t, rs.drop_first(), rs[0].end as int)
    }
}

/// The bytes removed by a deletion list, in total.
pub open spec fn spec_total_deleted(rs: Seq<ByteRange>) -> int
    decreases rs.len(),
{
    if rs.len() == 0 {
        0
    } else {
        (rs[0].end - rs[0].start) + spec_total_deleted(rs.drop_first())
    }
}

/// The invariant restricted to a suffix of a deletion list.
proof fn lemma_wf_drop_first(t: Seq<u8>, rs: Seq<ByteRange>)
    requires
        spec_edits_wf(t, rs),
        rs.len() > 0,
    ensures
        spec_edits_wf(t, rs.drop_first()),
{
    let d = rs.drop_first();
    assert forall|a: int, b: int| 0 <= a < b < d.len() implies (#[trigger] d[a]).end <= (
    #[trigger] d[b]).start by {
        assert(d[a] == rs[a + 1] && d[b] == rs[b + 1]);
    }
    assert forall|a: int| 0 <= a < d.len() implies (#[trigger] d[a]).start < d[a].end
        && d[a].end <= t.len() by {
        assert(d[a] == rs[a + 1]);
    }
}

/// Synthesis removes exactly the deleted bytes: the result's length is
/// the tail's length minus the total deleted.
pub proof fn lemma_synth_len(t: Seq<u8>, rs: Seq<ByteRange>, from: int)
    requires
        spec_edits_wf(t, rs),
        0 <= from <= t.len(),
        rs.len() > 0 ==> from <= rs[0].start,
    ensures
        spec_synth(t, rs, from).len() == t.len() - from - spec_total_deleted(rs),
        spec_total_deleted(rs) >= 0,
    decreases rs.len(),
{
    if rs.len() > 0 {
        lemma_wf_drop_first(t, rs);
        let rest = rs.drop_first();
        if rest.len() > 0 {
            assert(rest[0] == rs[1]);
        }
        lemma_synth_len(t, rest, rs[0].end as int);
    }
}

/// One range deleted from the text: the bytes before it, then the bytes
/// after it.
pub open spec fn spec_delete(t: Seq<u8>, r: ByteRange) -> Seq<u8> {
    t.subrange(0, r.start as int) + t.subrange(r.end as int, t.len() as int)
}

/// The deletion list applied in descending offset order, highest range
/// first, so removing a later span never invalidates an earlier offset.
pub open spec fn spec_apply_descending(t: Seq<u8>, rs: Seq<ByteRange>) -> Seq<u8>
    decreases rs.len(),
{
    if rs.len() == 0 {
        t
    } else {
        spec_apply_descending(spec_delete(t, rs.last()), rs.drop_last())
    }
}

/// Removing the highest range first commutes with synthesis of the rest.
proof fn lemma_synth_delete_last(t: Seq<u8>, rs: Seq<ByteRange>, from: int)
    requires
        spec_edits_wf(t, rs),
        rs.len() >= 1,
        0 <= from <= rs[0].start,
    ensures
        spec_synth(spec_delete(t, rs.last()), rs.drop_last(), from) == spec_synth(t, rs, from),
    decreases rs.len(),
{
    let last = rs.last();
    let d = spec_delete(t, last);
    assert(last.start < last.end && last.end <= t.len());
    assert(d.len() == t.len() - (last.end - last.start));
    if rs.len() == 1 {
        assert(rs.drop_last() =~= Seq::<ByteRange>::empty());
        assert(rs.drop_first() =~= Seq::<ByteRange>::empty());
        let tail = t.subrange(last.end as int, t.len() as int);
        let head = t.subrange(from, last.start as int);
        assert(rs[0] == last);
        assert(spec_synth(t, Seq::<ByteRange>::empty(), last.end as int) == tail);
        assert(spec_synth(t, rs.drop_first(), last.end as int) == tail);
        assert(spec_synth(t, rs, from) == head + tail);
        assert(spec_synth(d, rs.drop_last(), from) == d.subrange(from, d.len() as int));
        assert forall|i: int| 0 <= i < d.len() - from implies d.subrange(from, d.len() as int)[i]
            == (head + tail)[i] by {
            assert(d.subrange(from, d.len() as int)[i] == d[from + i]);
            if from + i < last.start {
                assert(d[from + i] == t.subrange(0, last.start as int)[from + i]);
                assert((head + tail)[i] == head[i]);
            } else {
                assert(d[from + i] == tail[from + i - last.start]);
                assert((head + tail)[i] == tail[i - (last.start - from)]);
            }
        }
        assert(d.subrange(from, d.len() as int) =~= head + tail);
    } else {
        let rest = rs.drop_first();
        lemma_wf_drop_first(t, rs);
        assert(rest[0] == rs[1]);
        assert(rest.last() == last);
        lemma_synth_delete_last(t, rest, rs[0].end as int);
        assert(rs.drop_last()[0] == rs[0]);
        assert(rs.drop_last().drop_first() =~= rest.drop_last());
        assert(d.subrange(from, rs[0].start as int) =~= t.subrange(from, rs[0].start as int));
        assert(spec_synth(d, rs.drop_last(), from) == d.subrange(from, rs[0].start as int)
            + spec_synth(d, rest.drop_last(), rs[0].end as int));
    }
}

/// Applying the deletions in descending offset order yields exactly the
/// synthesized text: the byte-exact result does not depend on the order
/// in which the deletions are carried out.
pub proof fn lemma_apply_descending_matches_synth(t: Seq<u8>, rs: Seq<ByteRange>)
    requires
        spec_edits_wf(t, rs),
    ensures
        spec_apply_descending(t, rs) == spec_synth(t, rs, 0),
    decreases rs.len(),
{
    if rs.len() == 0 {
        assert(spec_synth(t, rs, 0) =~= t);
    } else {
        let last = rs.last();
        let d = spec_delete(t, last);
        assert(last.start < last.end && last.end <= t.len());
        assert(d.len() == t.len() - (last.end - last.start));
        assert forall|a: int, b: int| 0 <= a < b < rs.drop_last().len() implies (
        #[trigger] rs.drop_last()[a]).end <= (#[trigger] rs.drop_last()[b]).start by {
            assert(rs.drop_last()[a] == rs[a] && rs.drop_last()[b] == rs[b]);
        }
        assert forall|a: int| 0 <= a < rs.drop_last().len() implies (
        #[trigger] rs.drop_last()[a]).start < rs.drop_last()[a].end && rs.drop_last()[a].end
            <= d.len() by {
            assert(rs.drop_last()[a] == rs[a]);
            if a < rs.len() - 1 {
                assert(rs[a].end <= rs[rs.len() - 1].start);
            }
        }
        lemma_apply_descending_matches_synth(d, rs.drop_last());
        lemma_synth_delete_last(t, rs, 0);
    }
}

/// A fact reported twice collapses to one deletion: appending a repeated
/// final fact leaves the assembled deletion list unchanged.
pub proof fn lemma_duplicate_fact_collapses(t: Seq<u8>, items: Seq<UnusedItem>)
    requires
        items.len() > 0,
    ensures
        spec_assemble(t, items.push(items.last())) == spec_assemble(t, items),
{
    let s2 = items.push(items.last());
    assert(s2.drop_last() =~= items);
    let prev = spec_assemble(t, items);
    let it = items.last();
    if spec_locatable(t, it.span) {
        let ext = spec_extended(t, it.span);
        if ext.start < ext.end {
            let prev0 = spec_assemble(t, items.drop_last());
            if prev0.len() > 0 && ext.start <= prev0.last().end {
                assert(prev == prev0.update(
                    prev0.len() - 1,
                    ByteRange {
                        start: prev0.last().start,
                        end: if prev0.last().end >= ext.end {
                            prev0.last().end
                        } else {
                            ext.end
                        },
                    },
                ));
                assert(prev.last().end >= ext.end);
                assert(spec_assemble(t, s2) == prev.update(
                    prev.len() - 1,
                    ByteRange { start: prev.last().start, end: prev.last().end },
                ));
                assert(prev.update(
                    prev.len() - 1,
                    ByteRange { start: prev.last().start, end: prev.last().end },
                ) =~= prev);
            } else {
                assert(prev == prev0.push(ext));
                assert(prev.last() == ext);
                assert(spec_assemble(t, s2) == prev.update(
                    prev.len() - 1,
                    ByteRange { start: ext.start, end: ext.end },
                ));
                assert(prev.update(prev.len() - 1, ByteRange { start: ext.start, end: ext.end })
                    =~= prev);
            }
        }
    }
}


/// A single deletion: a byte range to remove from one file. The
/// replacement is always empty — this system only deletes.
#[derive(Debug)]
pub struct Edit {
    pub file: String,
    pub span: ByteRange,
}

impl Clone for Edit {
    /// A field-exact copy of the edit.
    fn clone(&self) -> (r: Self)
        ensures
            r == *self,
    {
        Edit { file: self.file.clone(), span: self.span }
    }
}

/// The full set of deletions for one file, with the original bytes and
/// the bytes left after applying every deletion.
#[derive(Debug)]
pub struct Change {
    pub file: String,
    pub original_text: Vec<u8>,
    pub new_text: Vec<u8>,
    pub edits: Vec<Edit>,
}

/// The byte ranges of a list of edits.
pub open spec fn spec_spans_of(edits: Seq<Edit>) -> Seq<ByteRange> {
    edits.map_values(|e: Edit| e.span)
}

impl Change {
    /// The invariant of every emitted change: at least one deletion, all
    /// deletions within the original text, pairwise non-overlapping and
    /// sorted by ascending start, every edit naming this change's file,
    /// and the new text exactly the synthesis of the deletions — which
    /// is therefore strictly shorter than the original.
    pub open spec fn wf(self) -> bool {
        &&& self.edits@.len() > 0
        &&& spec_edits_wf(self.original_text@, spec_spans_of(self.edits@))
        &&& forall|i: int| 0 <= i < self.edits@.len() ==> (#[trigger] self.edits@[i]).file@
            == self.file@
        &&& self.new_text@ == spec_synth(self.original_text@, spec_spans_of(self.edits@), 0)
        &&& self.new_text@.len() < self.original_text@.len()
    }
}

/// An element-wise copy of a byte vector.
fn clone_bytes(t: &Vec<u8>) -> (r: Vec<u8>)
    ensures
        r@ == t@,
{
    let mut r: Vec<u8> = Vec::new();
    let mut i: usize = 0;
    while i < t.len()
        invariant
            0 <= i <= t@.len(),
            r@ =~= t@.subrange(0, i as int),
        decreases t@.len() - i,
    {
        r.push(t[i]);
        i += 1;
    }
    assert(r@ =~= t@);
    r
}

/// Appends the bytes of `t` between `from` and `to` onto `out`.
pub(crate) fn copy_range(t: &Vec<u8>, from: usize, to: usize, out: &mut Vec<u8>)
    requires
        from <= to <= t@.len(),
    ensures
        final(out)@ == old(out)@ + t@.subrange(from as int, to as int),
{
    let mut i: usize = from;
    while i < to
        invariant
            from <= i <= to <= t@.len(),
            out@ =~= old(out)@ + t@.subrange(from as int, i as int),
        decreases to - i,
    {
        out.push(t[i]);
        proof {
            assert(t@.subrange(from as int, i + 1) =~= t@.subrange(from as int, i as int).push(
                t@[i as int],
            ));
        }
        i += 1;
    }
}

/// Applies a well-formed deletion list to the text, producing the
/// concatenation of the kept segments.
fn synth_exec(t: &Vec<u8>, rs: &Vec<ByteRange>) -> (r: Vec<u8>)
    requires
        spec_edits_wf(t@, rs@),
    ensures
        r@ == spec_synth(t@, rs@, 0),
{
    let mut out: Vec<u8> = Vec::new();
    let mut from: usize = 0;
    let mut k: usize = 0;
    proof {
        assert(rs@.skip(0) =~= rs@);
    }
    while k < rs.len()
        invariant
            spec_edits_wf(t@, rs@),
            0 <= k <= rs@.len(),
            from <= t@.len(),
            k < rs@.len() ==> from <= rs@[k as int].start,
            spec_synth(t@, rs@, 0) == out@ + spec_synth(t@, rs@.skip(k as int), from as int),
        decreases rs@.len() - k,
    {
        let span = rs[k];
        copy_range(t, from, span.start, &mut out);
        proof {
            assert(rs@.skip(k as int)[0] == rs@[k as int]);
            assert(rs@.skip(k as int).drop_first() =~= rs@.skip(k as int + 1));
            if k + 1 < rs@.len() {
                assert(rs@[k as int].end <= rs@[k as int + 1].start);
            }
        }
        from = span.end;
        k += 1;
    }
    proof {
        assert(rs@.skip(rs@.len() as int) =~= Seq::<ByteRange>::empty());
    }
    let mut out2 = out;
    copy_range(t, from, t.len(), &mut out2);
    out2
}

/// The facts whose spans can no longer be located in the text.
pub open spec fn spec_unlocatable_of(t: Seq<u8>, items: Seq<UnusedItem>) -> Seq<UnusedItem> {
    items.filter(|it: UnusedItem| !spec_locatable(t, it.span))
}

/// Turns one file's ordered facts into its change, if any deletion
/// survives. A fact whose span no longer lies within the text is skipped
/// and reported back, never guessed at; the remaining facts' extended
/// spans are merged into a non-overlapping deletion list, and the new
/// text is synthesized from it. No change is emitted when no deletion
/// survives, so an emitted change always differs from the original.
pub fn cauterize_file(file: &String, text: &Vec<u8>, items: &Vec<UnusedItem>) -> (r: (
    Option<Change>,
    Vec<UnusedItem>,
))
    requires
        spec_sorted_by_start(items@),
        forall|i: int| 0 <= i < items@.len() ==> (#[trigger] items@[i]).file@ == file@,
    ensures
        r.0 is Some <==> spec_assemble(text@, items@).len() > 0,
        r.0 matches Some(c) ==> ({
            &&& c.wf()
            &&& c.file@ == file@
            &&& c.original_text@ == text@
            &&& spec_spans_of(c.edits@) == spec_assemble(text@, items@)
            &&& c.new_text@ == spec_synth(text@, spec_assemble(text@, items@), 0)
            &&& forall|i: int|
                0 <= i < items@.len() && spec_locatable(text@, (#[trigger] items@[i]).span)
                    && items@[i].span.start < items@[i].span.end ==> spec_covered_by(
                    spec_spans_of(c.edits@),
                    items@[i].span,
                )
        }),
        r.1@ == spec_unlocatable_of(text@, items@),
{
    let mut spans: Vec<ByteRange> = Vec::new();
    let mut skipped: Vec<UnusedItem> = Vec::new();
    let mut i: usize = 0;
    proof {
        assert(items@.subrange(0, 0) =~= Seq::<UnusedItem>::empty());
        reveal(Seq::filter);
    }
    while i < items.len()
        invariant
            0 <= i <= items@.len(),
            spans@ == spec_assemble(text@, items@.subrange(0, i as int)),
            skipped@ =~= spec_unlocatable_of(text@, items@.subrange(0, i as int)),
        decreases items@.len() - i,
    {
        let it = &items[i];
        let ghost prefix = items@.subrange(0, i as int);
        let ghost prefix1 = items@.subrange(0, i as int + 1);
        proof {
            assert(prefix1.drop_last() =~= prefix);
            assert(prefix1.last() == items@[i as int]);
            reveal(Seq::filter);
        }
        if it.span.end > text.len() || it.span.start > it.span.end {
            skipped.push(it.clone());
        } else {
            let ext = extend_span(text, it.span);
            if ext.start >= ext.end {
            } else if spans.len() > 0 {
                let last = spans[spans.len() - 1];
                if ext.start <= last.end {
                    let merged = ByteRange {
                        start: last.start,
                        end: if last.end >= ext.end {
                            last.end
                        } else {
                            ext.end
                        },
                    };
                    let ghost before = spans@;
                    spans.pop();
                    spans.push(merged);
                    proof {
                        assert(spans@ =~= before.update(before.len() - 1, merged));
                    }
                } else {
                    spans.push(ext);
                }
            } else {
                spans.push(ext);
            }
        }
        i += 1;
    }
    proof {
        assert(items@.subrange(0, items@.len() as int) =~= items@);
    }
    if spans.len() == 0 {
        (None, skipped)
    } else {
        let tlen = text.len();
        proof {
            assert(text@.len() == tlen);
            lemma_assemble_wf(text@, items@);
            lemma_assemble_covers(text@, items@);
        }
        let new_text = synth_exec(text, &spans);
        proof {
            lemma_synth_len(text@, spans@, 0);
            assert(spec_total_deleted(spans@) >= spans@[0].end - spans@[0].start) by {
                lemma_wf_drop_first(text@, spans@);
                lemma_synth_len(text@, spans@.drop_first(), spans@[0].end as int);
            }
        }
        let mut edits: Vec<Edit> = Vec::new();
        let mut k: usize = 0;
        while k < spans.len()
            invariant
                0 <= k <= spans@.len(),
                edits@.len() == k,
                forall|j: int| 0 <= j < k ==> (#[trigger] edits@[j]).span == spans@[j]
                    && edits@[j].file@ == file@,
            decreases spans@.len() - k,
        {
            edits.push(Edit { file: file.clone(), span: spans[k] });
            k += 1;
        }
        proof {
            assert forall|j: int| 0 <= j < edits@.len() implies spec_spans_of(edits@)[j]
                == spans@[j] by {
                assert(edits@[j].span == spans@[j]);
            }
            assert(spec_spans_of(edits@) =~= spans@);
        }
        let change = Change {
            file: file.clone(),
            original_text: clone_bytes(text),
            new_text,
            edits,
        };
        (Some(change), skipped)
    }
}


/// A run with no facts changes nothing: from an empty fact sequence no
/// deletion is assembled, so no change is emitted — applying the engine
/// to text in which nothing is reported unused leaves it untouched.
pub proof fn lemma_no_facts_no_deletions(t: Seq<u8>)
    ensures
        spec_assemble(t, Seq::<UnusedItem>::empty()) =~= Seq::<ByteRange>::empty(),
        spec_synth(t, spec_assemble(t, Seq::<UnusedItem>::empty()), 0) =~= t,
{
    assert(spec_assemble(t, Seq::<UnusedItem>::empty()) =~= Seq::<ByteRange>::empty());
}


/// Whether some assembled deletion fully contains the span.
pub open spec fn spec_covered_by(rs: Seq<ByteRange>, span: ByteRange) -> bool {
    exists|k: int|
        0 <= k < rs.len() && (#[trigger] rs[k]).start <= span.start && span.end <= rs[k].end
}

/// Every deletion fully contains the spans of the facts it was made
/// from: each locatable, non-empty fact span lies inside some assembled
/// deletion.
pub proof fn lemma_assemble_covers(t: Seq<u8>, items: Seq<UnusedItem>)
    requires
        t.len() <= usize::MAX,
        spec_sorted_by_start(items),
    ensures
        spec_assemble(t, items).len() > 0 && items.len() > 0 ==> spec_assemble(
            t,
            items,
        ).last().start <= items.last().span.start,
        forall|i: int|
            0 <= i < items.len() && spec_locatable(t, (#[trigger] items[i]).span)
                && items[i].span.start < items[i].span.end ==> spec_covered_by(
                spec_assemble(t, items),
                items[i].span,
            ),
    decreases items.len(),
{
    if items.len() == 0 {
        return ;
    }
    let sub = items.drop_last();
    assert forall|a: int, b: int| 0 <= a < b < sub.len() implies (#[trigger] sub[a]).span.start
        <= (#[trigger] sub[b]).span.start by {
        assert(sub[a] == items[a] && sub[b] == items[b]);
    }
    lemma_assemble_covers(t, sub);
    let prev = spec_assemble(t, sub);
    let rs = spec_assemble(t, items);
    let it = items.last();
    if sub.len() > 0 {
        assert(sub.last() == items[items.len() - 2]);
        assert(sub.last().span.start <= it.span.start);
    }
    if !spec_locatable(t, it.span) {
        assert(rs == prev);
        assert forall|i: int|
            0 <= i < items.len() && spec_locatable(t, (#[trigger] items[i]).span)
                && items[i].span.start < items[i].span.end implies spec_covered_by(
            rs,
            items[i].span,
        ) by {
            if i < items.len() - 1 {
                assert(sub[i] == items[i]);
            }
        }
    } else {
        let ext = spec_extended(t, it.span);
        lemma_extended_bounds(t, it.span);
        if ext.start >= ext.end {
            assert(rs == prev);
            assert(it.span.start >= it.span.end);
            assert forall|i: int|
                0 <= i < items.len() && spec_locatable(t, (#[trigger] items[i]).span)
                    && items[i].span.start < items[i].span.end implies spec_covered_by(
                rs,
                items[i].span,
            ) by {
                if i < items.len() - 1 {
                    assert(sub[i] == items[i]);
                }
            }
        } else if prev.len() > 0 && ext.start <= prev.last().end {
            assert(rs.len() == prev.len());
            assert forall|k: int| 0 <= k < prev.len() implies (#[trigger] rs[k]).start
                == prev[k].start && rs[k].end >= prev[k].end by {
                if k < prev.len() - 1 {
                    assert(rs[k] == prev[k]);
                }
            }
            assert forall|i: int|
                0 <= i < items.len() && spec_locatable(t, (#[trigger] items[i]).span)
                    && items[i].span.start < items[i].span.end implies spec_covered_by(
                rs,
                items[i].span,
            ) by {
                if i < items.len() - 1 {
                    assert(sub[i] == items[i]);
                    assert(spec_covered_by(prev, items[i].span));
                    let k = choose|k: int|
                        0 <= k < prev.len() && (#[trigger] prev[k]).start <= items[i].span.start
                            && items[i].span.end <= prev[k].end;
                    assert(rs[k].start <= items[i].span.start && items[i].span.end <= rs[k].end);
                } else {
                    assert(rs[rs.len() - 1].start == prev.last().start <= it.span.start);
                    assert(it.span.end <= ext.end <= rs[rs.len() - 1].end);
                }
            }
        } else {
            assert(rs == prev.push(ext));
            assert forall|i: int|
                0 <= i < items.len() && spec_locatable(t, (#[trigger] items[i]).span)
                    && items[i].span.start < items[i].span.end implies spec_covered_by(
                rs,
                items[i].span,
            ) by {
                if i < items.len() - 1 {
                    assert(sub[i] == items[i]);
                    assert(spec_covered_by(prev, items[i].span));
                    let k = choose|k: int|
                        0 <= k < prev.len() && (#[trigger] prev[k]).start <= items[i].span.start
                            && items[i].span.end <= prev[k].end;
                    assert(rs[k] == prev[k]);
                } else {
                    assert(rs[rs.len() - 1] == ext);
                }
            }
        }
    }
}

} // verus!

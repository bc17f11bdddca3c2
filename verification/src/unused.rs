//! The diagnostic normalizer: raw build-tool diagnostics are filtered to
//! the recognized unused-declaration kinds, restricted to the selected
//! files, and deduplicated into canonical `UnusedItem` facts.

use vstd::prelude::*;
use crate::FileResolutionOptions;
use crate::kinds::UnusedDiagnosticKind;
use crate::kinds::spec_kind_of_lint;
use crate::kinds::spec_kind_selected;
use crate::kinds::kind_selected;

verus! {

/// A contiguous byte range within one file, start inclusive, end
/// exclusive.
#[derive(Clone, Copy, Debug, PartialEq, Eq, Structural)]
pub struct ByteRange {
    pub start: usize,
    pub end: usize,
}

impl ByteRange {
    /// A range is well formed when it does not end before it starts.
    pub open spec fn wf(self) -> bool {
        self.start <= self.end
    }

    /// Whether two ranges share at least one byte.
    pub open spec fn spec_overlaps(self, other: ByteRange) -> bool {
        self.start < other.end && other.start < self.end
    }

    /// Decides whether two ranges share at least one byte.
    pub fn overlaps(&self, other: &ByteRange) -> (r: bool)
        ensures
            r == self.spec_overlaps(*other),
    {
        self.start < other.end && other.start < self.end
    }
}

/// One diagnostic as the build tool emitted it: the lint identifier, the
/// name of the declaration it reports, the file it points into, and its
/// primary span. Consumed immediately by the normalizer.
#[derive(Debug)]
pub struct RawDiagnostic {
    pub lint: String,
    pub name: String,
    pub file: String,
    pub span: ByteRange,
}

/// A canonical unused-declaration fact. The span is the minimal
/// declaration token range, not yet extended over attributes or comments.
#[derive(Debug)]
pub struct UnusedItem {
    pub kind: UnusedDiagnosticKind,
    pub file: String,
    pub name: String,
    pub span: ByteRange,
}

impl Clone for UnusedItem {
    /// A field-exact copy of the fact.
    fn clone(&self) -> (r: Self)
        ensures
            r == *self,
    {
        UnusedItem {
            kind: self.kind,
            file: self.file.clone(),
            name: self.name.clone(),
            span: self.span,
        }
    }
}

/// Whether a diagnostic survives filtering: its lint identifier maps to a
/// recognized kind, that kind passes the user's kind filter, and its file
/// passes the file filter.
pub open spec fn spec_passes(
    d: RawDiagnostic,
    kinds: Seq<UnusedDiagnosticKind>,
    files: FileResolutionOptions,
) -> bool {
    &&& spec_kind_of_lint(d.lint@) is Some
    &&& spec_kind_selected(kinds, spec_kind_of_lint(d.lint@)->0)
    &&& files.spec_is_included(d.file@)
}

/// Whether `it` is the fact stated by the diagnostic `d`.
pub open spec fn spec_represents(it: UnusedItem, d: RawDiagnostic) -> bool {
    &&& Some(it.kind) == spec_kind_of_lint(d.lint@)
    &&& it.file@ == d.file@
    &&& it.name@ == d.name@
    &&& it.span == d.span
}

/// Two facts denote the same declaration when they agree on file and
/// name and their spans overlap or coincide.
pub open spec fn spec_same_fact(a: UnusedItem, b: UnusedItem) -> bool {
    a.file@ == b.file@ && a.name@ == b.name@ && (a.span == b.span || a.span.spec_overlaps(b.span))
}

/// Whether the fact `it` and the diagnostic `d` denote the same
/// declaration.
pub open spec fn spec_same_fact_diag(it: UnusedItem, d: RawDiagnostic) -> bool {
    it.file@ == d.file@ && it.name@ == d.name@ && (it.span == d.span || it.span.spec_overlaps(
        d.span,
    ))
}

/// Decides whether some already-collected fact denotes the same
/// declaration as `it`.
fn contains_same_fact(items: &Vec<UnusedItem>, it: &UnusedItem) -> (r: bool)
    ensures
        r == exists|i: int| 0 <= i < items@.len() && spec_same_fact(items@[i], *it),
{
    let mut i: usize = 0;
    while i < items.len()
        invariant
            0 <= i <= items@.len(),
            forall|j: int| 0 <= j < i ==> !spec_same_fact(items@[j], *it),
        decreases items@.len() - i,
    {
        if items[i].file == it.file && items[i].name == it.name && (items[i].span == it.span
            || items[i].span.overlaps(&it.span)) {
            assert(spec_same_fact(items@[i as int], *it));
            return true;
        }
        i += 1;
    }
    false
}

/// Whether some diagnostic of `diags` passes the filters and states the
/// fact `it`.
pub open spec fn spec_arises_from(
    it: UnusedItem,
    diags: Seq<RawDiagnostic>,
    kinds: Seq<UnusedDiagnosticKind>,
    files: FileResolutionOptions,
) -> bool {
    exists|j: int|
        0 <= j < diags.len() && spec_passes(#[trigger] diags[j], kinds, files) && spec_represents(
            it,
            diags[j],
        )
}

/// Whether some collected fact denotes the same declaration as the
/// diagnostic `d`.
pub open spec fn spec_fact_covered(out: Seq<UnusedItem>, d: RawDiagnostic) -> bool {
    exists|i: int| 0 <= i < out.len() && spec_same_fact_diag(#[trigger] out[i], d)
}

/// Normalizes a diagnostic stream: diagnostics whose lint identifier maps
/// to no recognized kind, whose kind is excluded by the user's filter, or
/// whose file fails the file filter are discarded; of diagnostics that
/// denote the same declaration, the first kept occurrence stands for all
/// of them. Every surviving fact arises from a passing diagnostic, every
/// passing diagnostic is covered by some surviving fact, and no two
/// surviving facts denote the same declaration. Facts keep their arrival
/// order; `files_of` and `items_for_file` then group them by file and
/// order each file's facts by ascending span start.
pub fn normalize(
    diags: &Vec<RawDiagnostic>,
    kinds: &Vec<UnusedDiagnosticKind>,
    files: &FileResolutionOptions,
) -> (out: Vec<UnusedItem>)
    ensures
        forall|i: int| 0 <= i < out@.len() ==> spec_arises_from(
            #[trigger] out@[i],
            diags@,
            kinds@,
            *files,
        ),
        forall|j: int|
            0 <= j < diags@.len() && spec_passes(#[trigger] diags@[j], kinds@, *files)
                ==> spec_fact_covered(out@, diags@[j]),
        forall|i: int, k: int| 0 <= i < k < out@.len() ==> !spec_same_fact(
            #[trigger] out@[i],
            #[trigger] out@[k],
        ),
{
    let mut out: Vec<UnusedItem> = Vec::new();
    let mut j: usize = 0;
    while j < diags.len()
        invariant
            0 <= j <= diags@.len(),
            forall|i: int| 0 <= i < out@.len() ==> spec_arises_from(
                #[trigger] out@[i],
                diags@,
                kinds@,
                *files,
            ),
            forall|j0: int|
                0 <= j0 < j && spec_passes(#[trigger] diags@[j0], kinds@, *files)
                    ==> spec_fact_covered(out@, diags@[j0]),
            forall|i: int, k: int| 0 <= i < k < out@.len() ==> !spec_same_fact(
                #[trigger] out@[i],
                #[trigger] out@[k],
            ),
        decreases diags@.len() - j,
    {
        let d = &diags[j];
        let ghost out_before = out@;
        match UnusedDiagnosticKind::from_lint(&d.lint) {
            None => {},
            Some(kind) => {
                if kind_selected(kinds, kind) && files.is_included(d.file.as_str()) {
                    let it = UnusedItem {
                        kind,
                        file: d.file.clone(),
                        name: d.name.clone(),
                        span: d.span,
                    };
                    assert(spec_represents(it, diags@[j as int]));
                    if contains_same_fact(&out, &it) {
                        proof {
                            let i0 = choose|i: int|
                                0 <= i < out@.len() && spec_same_fact(out@[i], it);
                            assert(spec_same_fact_diag(out@[i0], diags@[j as int]));
                        }
                    } else {
                        out.push(it);
                        proof {
                            assert(out@[out@.len() - 1] == it);
                            assert(spec_arises_from(it, diags@, kinds@, *files));
                            assert(spec_same_fact_diag(
                                out@[out@.len() - 1],
                                diags@[j as int],
                            ));
                            assert(forall|i: int| 0 <= i < out_before.len() ==> out@[i]
                                == out_before[i]);
                            assert(forall|j0: int|
                                0 <= j0 < j && spec_passes(#[trigger] diags@[j0], kinds@, *files)
                                    && spec_fact_covered(out_before, diags@[j0])
                                    ==> spec_fact_covered(out@, diags@[j0]));
                        }
                    }
                }
            },
        }
        j += 1;
    }
    out
}

/// Decides whether `s` occurs in `v`.
fn contains_string(v: &Vec<String>, s: &String) -> (r: bool)
    ensures
        r == exists|i: int| 0 <= i < v@.len() && v@[i]@ == s@,
{
    let mut i: usize = 0;
    while i < v.len()
        invariant
            0 <= i <= v@.len(),
            forall|j: int| 0 <= j < i ==> v@[j]@ != s@,
        decreases v@.len() - i,
    {
        if v[i] == *s {
            assert(v@[i as int]@ == s@);
            return true;
        }
        i += 1;
    }
    false
}

/// Whether `f` occurs among the file names `r`.
pub open spec fn spec_has_file(r: Seq<String>, f: Seq<char>) -> bool {
    exists|k: int| 0 <= k < r.len() && (#[trigger] r[k])@ == f
}

/// Whether some fact of `items` points into the file `f`.
pub open spec fn spec_some_item_in(items: Seq<UnusedItem>, f: Seq<char>) -> bool {
    exists|i: int| 0 <= i < items.len() && (#[trigger] items[i]).file@ == f
}

/// The distinct files that the facts point into, each exactly once, in
/// order of first appearance.
pub fn files_of(items: &Vec<UnusedItem>) -> (r: Vec<String>)
    ensures
        forall|k: int| 0 <= k < r@.len() ==> spec_some_item_in(items@, (#[trigger] r@[k])@),
        forall|i: int| 0 <= i < items@.len() ==> spec_has_file(
            r@,
            (#[trigger] items@[i]).file@,
        ),
        forall|k1: int, k2: int| 0 <= k1 < k2 < r@.len() ==> (#[trigger] r@[k1])@ != (
        #[trigger] r@[k2])@,
{
    let mut r: Vec<String> = Vec::new();
    let mut i: usize = 0;
    while i < items.len()
        invariant
            0 <= i <= items@.len(),
            forall|k: int| 0 <= k < r@.len() ==> spec_some_item_in(items@, (#[trigger] r@[k])@),
            forall|i0: int| 0 <= i0 < i ==> spec_has_file(r@, (#[trigger] items@[i0]).file@),
            forall|k1: int, k2: int| 0 <= k1 < k2 < r@.len() ==> (#[trigger] r@[k1])@ != (
            #[trigger] r@[k2])@,
        decreases items@.len() - i,
    {
        let ghost r_before = r@;
        if !contains_string(&r, &items[i].file) {
            r.push(items[i].file.clone());
            proof {
                assert(r@[r@.len() - 1]@ == items@[i as int].file@);
                assert(spec_some_item_in(items@, r@[r@.len() - 1]@));
                assert(forall|k: int| 0 <= k < r_before.len() ==> r@[k] == r_before[k]);
                assert(forall|i0: int|
                    0 <= i0 < i && spec_has_file(r_before, (#[trigger] items@[i0]).file@)
                        ==> spec_has_file(r@, items@[i0].file@));
                assert(spec_has_file(r@, items@[i as int].file@));
            }
        } else {
            assert(spec_has_file(r@, items@[i as int].file@));
        }
        i += 1;
    }
    r
}

/// The facts of `items` that point into `file`.
pub open spec fn spec_for_file(items: Seq<UnusedItem>, file: Seq<char>) -> Seq<UnusedItem> {
    items.filter(|it: UnusedItem| it.file@ == file)
}

/// Whether the facts are ordered by ascending span start.
pub open spec fn spec_sorted_by_start(items: Seq<UnusedItem>) -> bool {
    forall|a: int, b: int| 0 <= a < b < items.len() ==> (#[trigger] items[a]).span.start <= (
    #[trigger] items[b]).span.start
}

/// Selects the facts of one file and orders them by ascending span
/// start: exactly the facts of that file survive, as a multiset, and the
/// result is sorted — the ordering the cauterizer depends on.
pub fn items_for_file(items: &Vec<UnusedItem>, file: &String) -> (r: Vec<UnusedItem>)
    ensures
        spec_sorted_by_start(r@),
        r@.to_multiset() == spec_for_file(items@, file@).to_multiset(),
        forall|i: int| 0 <= i < r@.len() ==> (#[trigger] r@[i]).file@ == file@,
{
    broadcast use vstd::seq_lib::to_multiset_build;
    broadcast use vstd::seq_lib::to_multiset_insert;

    let mut sel: Vec<UnusedItem> = Vec::new();
    let mut i: usize = 0;
    while i < items.len()
        invariant
            0 <= i <= items@.len(),
            sel@ =~= spec_for_file(items@.subrange(0, i as int), file@),
        decreases items@.len() - i,
    {
        let ghost prefix = items@.subrange(0, i as int);
        let ghost prefix1 = items@.subrange(0, i as int + 1);
        proof {
            assert(prefix1.drop_last() =~= prefix);
            assert(prefix1.last() == items@[i as int]);
            reveal(Seq::filter);
        }
        if items[i].file == *file {
            sel.push(items[i].clone());
        }
        i += 1;
    }
    proof {
        assert(items@.subrange(0, items@.len() as int) =~= items@);
    }
    let mut r: Vec<UnusedItem> = Vec::new();
    proof {
        assert(sel@.subrange(0, 0) =~= Seq::<UnusedItem>::empty());
        assert(r@ =~= Seq::<UnusedItem>::empty());
    }
    let mut k: usize = 0;
    while k < sel.len()
        invariant
            0 <= k <= sel@.len(),
            spec_sorted_by_start(r@),
            r@.to_multiset() == sel@.subrange(0, k as int).to_multiset(),
            forall|i0: int| 0 <= i0 < r@.len() ==> (#[trigger] r@[i0]).file@ == file@,
            forall|i0: int| 0 <= i0 < sel@.len() ==> (#[trigger] sel@[i0]).file@ == file@,
        decreases sel@.len() - k,
    {
        let e = sel[k].clone();
        let mut pos: usize = 0;
        while pos < r.len() && r[pos].span.start <= e.span.start
            invariant
                0 <= pos <= r@.len(),
                forall|a: int| 0 <= a < pos ==> (#[trigger] r@[a]).span.start <= e.span.start,
            decreases r@.len() - pos,
        {
            pos += 1;
        }
        let ghost r_before = r@;
        r.insert(pos, e);
        proof {
            r_before.insert_ensures(pos as int, e);
            vstd::seq_lib::to_multiset_insert(r_before, pos as int, e);
            assert(sel@.subrange(0, k as int + 1) =~= sel@.subrange(0, k as int).push(
                sel@[k as int],
            ));
            vstd::seq_lib::to_multiset_build(sel@.subrange(0, k as int), sel@[k as int]);
            assert(r@.to_multiset() =~= sel@.subrange(0, k as int + 1).to_multiset());
            assert forall|a: int, b: int| 0 <= a < b < r@.len() implies (
            #[trigger] r@[a]).span.start <= (#[trigger] r@[b]).span.start by {
                if b < pos {
                } else if a < pos && b == pos {
                } else if a == pos {
                    assert(r@[b] == r_before[b - 1]);
                    assert(r_before[b - 1].span.start > e.span.start);
                } else {
                }
            }
        }
        k += 1;
    }
    proof {
        assert(sel@.subrange(0, sel@.len() as int) =~= sel@);
    }
    r
}


/// Whether two raw diagnostics report the same declaration: same file,
/// same name, overlapping or coinciding primary spans.
pub open spec fn spec_same_report(d1: RawDiagnostic, d2: RawDiagnostic) -> bool {
    d1.file@ == d2.file@ && d1.name@ == d2.name@ && (d1.span == d2.span
        || d1.span.spec_overlaps(d2.span))
}

/// Any number of diagnostics reporting the same declaration collapse to
/// exactly one fact: if every diagnostic of a non-empty stream passes
/// the filters and any two of them report the same declaration, then a
/// normalized output of that stream holds exactly one fact.
pub proof fn lemma_dedup_single_fact(
    diags: Seq<RawDiagnostic>,
    kinds: Seq<UnusedDiagnosticKind>,
    files: FileResolutionOptions,
    out: Seq<UnusedItem>,
)
    requires
        forall|i: int| 0 <= i < out.len() ==> spec_arises_from(
            #[trigger] out[i],
            diags,
            kinds,
            files,
        ),
        forall|j: int|
            0 <= j < diags.len() && spec_passes(#[trigger] diags[j], kinds, files)
                ==> spec_fact_covered(out, diags[j]),
        forall|i: int, k: int| 0 <= i < k < out.len() ==> !spec_same_fact(
            #[trigger] out[i],
            #[trigger] out[k],
        ),
        diags.len() > 0,
        forall|j: int| 0 <= j < diags.len() ==> spec_passes(#[trigger] diags[j], kinds, files),
        forall|a: int, b: int| 0 <= a < diags.len() && 0 <= b < diags.len()
            ==> spec_same_report(#[trigger] diags[a], #[trigger] diags[b]),
    ensures
        out.len() == 1,
{
    assert(spec_passes(diags[0], kinds, files));
    assert(spec_fact_covered(out, diags[0]));
    assert(out.len() >= 1);
    if out.len() > 1 {
        let j0 = choose|j: int|
            0 <= j < diags.len() && spec_passes(#[trigger] diags[j], kinds, files)
                && spec_represents(out[0], diags[j]);
        let j1 = choose|j: int|
            0 <= j < diags.len() && spec_passes(#[trigger] diags[j], kinds, files)
                && spec_represents(out[1], diags[j]);
        assert(spec_arises_from(out[0], diags, kinds, files));
        assert(spec_arises_from(out[1], diags, kinds, files));
        assert(spec_same_report(diags[j0], diags[j1]));
        assert(spec_same_fact(out[0], out[1]));
        assert(false);
    }
}

} // verus!

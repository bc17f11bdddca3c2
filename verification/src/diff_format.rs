//! Rendering of a `Change` as a unified-diff-style view of deletions,
//! with optional ANSI coloring.

use vstd::prelude::*;
use vstd::utf8::encode_utf8;
use crate::cauterize::Change;
use crate::cauterize::line_end_at;
use crate::cauterize::lemma_line_end_at;
use crate::cauterize::spec_spans_of;
use crate::cauterize::find_line_end;
use crate::cauterize::copy_range;
use crate::unused::ByteRange;

verus! {

/// When diff output is colored: always, never, or only when the output
/// stream is an interactive terminal.
#[derive(Clone, Copy, Debug, PartialEq, Eq, Structural)]
pub enum ColorMode {
    Auto,
    Always,
    Never,
}

impl Default for ColorMode {
    /// Color is decided by the output stream unless the user says otherwise.
    fn default() -> (r: Self)
        ensures
            r == ColorMode::Auto,
    {
        ColorMode::Auto
    }
}

/// Whether output under `mode` is colored, given whether the output
/// stream is an interactive terminal.
pub open spec fn spec_should_color(mode: ColorMode, is_terminal: bool) -> bool {
    match mode {
        ColorMode::Always => true,
        ColorMode::Never => false,
        ColorMode::Auto => is_terminal,
    }
}

/// Resolves a color mode against the output stream: `Always` and `Never`
/// are unconditional, `Auto` colors exactly when the stream is a terminal.
pub fn should_color(mode: ColorMode, is_terminal: bool) -> (r: bool)
    ensures
        r == spec_should_color(mode, is_terminal),
{
    match mode {
        ColorMode::Always => true,
        ColorMode::Never => false,
        ColorMode::Auto => is_terminal,
    }
}

/// The decimal digits of `n`, most significant first.
pub open spec fn spec_decimal(n: nat) -> Seq<u8>
    decreases n,
{
    if n < 10 {
        seq![(48 + n) as u8]
    } else {
        spec_decimal(n / 10).push((48 + n % 10) as u8)
    }
}

/// Renders a number in decimal.
fn format_number(n: usize) -> (r: Vec<u8>)
    ensures
        r@ == spec_decimal(n as nat),
    decreases n,
{
    if n < 10 {
        let mut r: Vec<u8> = Vec::new();
        r.push(48 + (n as u8));
        assert(r@ =~= spec_decimal(n as nat));
        r
    } else {
        let mut r = format_number(n / 10);
        r.push(48 + ((n % 10) as u8));
        r
    }
}

/// The number of line breaks in the first `upto` bytes.
pub open spec fn spec_breaks_before(t: Seq<u8>, upto: int) -> int
    decreases upto,
{
    if upto <= 0 {
        0
    } else {
        spec_breaks_before(t, upto - 1) + if t[upto - 1] == 10 {
            1int
        } else {
            0int
        }
    }
}

/// Counts the line breaks in the first `upto` bytes.
fn count_breaks_before(t: &Vec<u8>, upto: usize) -> (r: usize)
    requires
        upto <= t@.len(),
    ensures
        r == spec_breaks_before(t@, upto as int),
        r <= upto,
{
    let mut n: usize = 0;
    let mut i: usize = 0;
    while i < upto
        invariant
            0 <= i <= upto <= t@.len(),
            n == spec_breaks_before(t@, i as int),
            n <= i,
        decreases upto - i,
    {
        if t[i] == 10 {
            n += 1;
        }
        i += 1;
    }
    n
}

/// Later prefixes never hold fewer line breaks.
pub proof fn lemma_breaks_monotone(t: Seq<u8>, a: int, b: int)
    requires
        a <= b,
    ensures
        spec_breaks_before(t, a) <= spec_breaks_before(t, b),
    decreases b - a,
{
    if a < b {
        lemma_breaks_monotone(t, a, b - 1);
    }
}

/// The deleted lines of `t` between `s` and `e`, each prefixed with `-`.
pub open spec fn spec_dashed(t: Seq<u8>, s: int, e: int) -> Seq<u8>
    decreases e - s,
{
    if s >= e {
        Seq::empty()
    } else {
        let le = line_end_at(t, s);
        let stop = if le <= s {
            s + 1
        } else if le > e {
            e
        } else {
            le
        };
        seq![45u8] + t.subrange(s, stop) + spec_dashed(t, stop, e)
    }
}

/// Writes the lines of `t` between `s` and `e` onto `out`, each
/// prefixed with `-`.
fn push_dashed(t: &Vec<u8>, s: usize, e: usize, out: &mut Vec<u8>)
    requires
        s <= e <= t@.len(),
    ensures
        final(out)@ == old(out)@ + spec_dashed(t@, s as int, e as int),
    decreases e - s,
{
    if s >= e {
        proof {
            assert(out@ =~= out@ + spec_dashed(t@, s as int, e as int));
        }
        return ;
    }
    let le = find_line_end(t, s);
    proof {
        lemma_line_end_at(t@, s as int);
        if t@[s as int] != 10 {
            lemma_line_end_at(t@, s as int + 1);
        }
        assert(le > s);
    }
    let stop: usize = if le > e {
        e
    } else {
        le
    };
    let ghost before = out@;
    out.push(45);
    copy_range(t, s, stop, out);
    proof {
        assert(out@ =~= before + seq![45u8] + t@.subrange(s as int, stop as int));
    }
    push_dashed(t, stop, e, out);
    proof {
        assert(out@ =~= before + spec_dashed(t@, s as int, e as int));
    }
}

/// One rendered hunk: `@@ -<line>,<count> @@`, then the deleted lines,
/// wrapped in red when `colored` holds.
pub open spec fn spec_render_hunk(t: Seq<u8>, span: ByteRange, colored: bool) -> Seq<u8> {
    let header = seq![64u8, 64, 32, 45] + spec_decimal(
        (spec_breaks_before(t, span.start as int) + 1) as nat,
    ) + seq![44u8] + spec_decimal(
        (spec_breaks_before(t, span.end as int) - spec_breaks_before(t, span.start as int)) as nat,
    ) + seq![32u8, 64, 64, 10];
    let body = spec_dashed(t, span.start as int, span.end as int);
    if colored {
        header + seq![27u8, 91, 51, 49, 109] + body + seq![27u8, 91, 48, 109]
    } else {
        header + body
    }
}

/// The rendered change: a two-line header naming the file, then one
/// hunk per deletion.
pub open spec fn spec_render_hunks(t: Seq<u8>, rs: Seq<ByteRange>, colored: bool) -> Seq<u8>
    decreases rs.len(),
{
    if rs.len() == 0 {
        Seq::empty()
    } else {
        spec_render_hunk(t, rs[0], colored) + spec_render_hunks(t, rs.drop_first(), colored)
    }
}

/// The unified-diff-style view of a change: `--- <file>` and
/// `+++ <file>` header lines, then each deletion as a hunk whose lines
/// carry a `-` prefix.
pub open spec fn spec_render(c: Change, colored: bool) -> Seq<u8> {
    let name = encode_utf8(c.file@);
    seq![45u8, 45, 45, 32] + name + seq![10u8] + seq![43u8, 43, 43, 32] + name + seq![10u8]
        + spec_render_hunks(c.original_text@, spec_spans_of(c.edits@), colored)
}

/// Appends every byte of `src` onto `out`.
fn push_all(src: &Vec<u8>, out: &mut Vec<u8>)
    ensures
        final(out)@ == old(out)@ + src@,
{
    let mut i: usize = 0;
    while i < src.len()
        invariant
            0 <= i <= src@.len(),
            out@ =~= old(out)@ + src@.subrange(0, i as int),
        decreases src@.len() - i,
    {
        out.push(src[i]);
        proof {
            assert(src@.subrange(0, i + 1) =~= src@.subrange(0, i as int).push(src@[i as int]));
        }
        i += 1;
    }
    proof {
        assert(src@.subrange(0, src@.len() as int) =~= src@);
    }
}

/// Renders a well-formed change as diff text, colored or plain.
#[verifier::rlimit(80)]
pub fn render(c: &Change, colored: bool) -> (r: Vec<u8>)
    requires
        c.wf(),
    ensures
        r@ == spec_render(*c, colored),
{
    let mut out: Vec<u8> = Vec::new();
    out.push(45);
    out.push(45);
    out.push(45);
    out.push(32);
    let name = c.file.as_str().as_bytes_vec();
    push_all(&name, &mut out);
    out.push(10);
    out.push(43);
    out.push(43);
    out.push(43);
    out.push(32);
    push_all(&name, &mut out);
    out.push(10);
    let ghost header_done = out@;
    proof {
        assert(header_done =~= seq![45u8, 45, 45, 32] + encode_utf8(c.file@) + seq![10u8] + seq![
            43u8,
            43,
            43,
            32,
        ] + encode_utf8(c.file@) + seq![10u8]);
    }
    let mut k: usize = 0;
    while k < c.edits.len()
        invariant
            c.wf(),
            0 <= k <= c.edits@.len(),
            out@ =~= header_done + spec_prefix_hunks(*c, k as int, colored),
        decreases c.edits@.len() - k,
    {
        let ghost hunk_start = out@;
        let span = c.edits[k].span;
        let ghost spans = spec_spans_of(c.edits@);
        proof {
            assert(spans[k as int] == span);
            assert(span.start < span.end && span.end <= c.original_text@.len());
            lemma_breaks_monotone(c.original_text@, span.start as int, span.end as int);
        }
        let start_line = count_breaks_before(&c.original_text, span.start);
        let end_line = count_breaks_before(&c.original_text, span.end);
        out.push(64);
        out.push(64);
        out.push(32);
        out.push(45);
        let n1 = format_number(start_line + 1);
        push_all(&n1, &mut out);
        out.push(44);
        let n2 = format_number(end_line - start_line);
        push_all(&n2, &mut out);
        out.push(32);
        out.push(64);
        out.push(64);
        out.push(10);
        let ghost after_header = out@;
        proof {
            assert(after_header =~= hunk_start + (seq![64u8, 64, 32, 45] + spec_decimal(
                (spec_breaks_before(c.original_text@, span.start as int) + 1) as nat,
            ) + seq![44u8] + spec_decimal(
                (spec_breaks_before(c.original_text@, span.end as int) - spec_breaks_before(
                    c.original_text@,
                    span.start as int,
                )) as nat,
            ) + seq![32u8, 64, 64, 10]));
        }
        if colored {
            out.push(27);
            out.push(91);
            out.push(51);
            out.push(49);
            out.push(109);
        }
        let ghost after_open = out@;
        push_dashed(&c.original_text, span.start, span.end, &mut out);
        if colored {
            out.push(27);
            out.push(91);
            out.push(48);
            out.push(109);
        }
        proof {
            let body = spec_dashed(c.original_text@, span.start as int, span.end as int);
            if colored {
                assert(after_open =~= after_header + seq![27u8, 91, 51, 49, 109]);
                assert(out@ =~= after_open + body + seq![27u8, 91, 48, 109]);
            } else {
                assert(out@ =~= after_header + body);
            }
            assert(out@ =~= hunk_start + spec_render_hunk(c.original_text@, span, colored));
            assert(out@ =~= header_done + spec_prefix_hunks(*c, k as int + 1, colored));
        }
        k += 1;
    }
    proof {
        lemma_prefix_hunks_all(*c, colored);
        assert(out@ =~= spec_render(*c, colored));
    }
    out
}

/// Rendering hunk by hunk from the front agrees with the recursive
/// rendering of the whole deletion list.
proof fn lemma_prefix_hunks_suffix(c: Change, k: int, colored: bool)
    requires
        0 <= k <= c.edits@.len(),
    ensures
        spec_prefix_hunks(c, k, colored) + spec_render_hunks(
            c.original_text@,
            spec_spans_of(c.edits@).skip(k),
            colored,
        ) =~= spec_render_hunks(c.original_text@, spec_spans_of(c.edits@), colored),
    decreases k,
{
    let spans = spec_spans_of(c.edits@);
    if k == 0 {
        assert(spans.skip(0) =~= spans);
    } else {
        lemma_prefix_hunks_suffix(c, k - 1, colored);
        assert(spans.skip(k - 1)[0] == spans[k - 1]);
        assert(spans.skip(k - 1).drop_first() =~= spans.skip(k));
        assert(spec_render_hunks(c.original_text@, spans.skip(k - 1), colored)
            == spec_render_hunk(c.original_text@, spans[k - 1], colored) + spec_render_hunks(
            c.original_text@,
            spans.skip(k),
            colored,
        ));
        assert(spec_prefix_hunks(c, k, colored) + spec_render_hunks(
            c.original_text@,
            spans.skip(k),
            colored,
        ) =~= (spec_prefix_hunks(c, k - 1, colored) + spec_render_hunk(
            c.original_text@,
            spans[k - 1],
            colored,
        )) + spec_render_hunks(c.original_text@, spans.skip(k), colored));
    }
}

/// The full prefix renders the whole change body.
proof fn lemma_prefix_hunks_all(c: Change, colored: bool)
    ensures
        spec_prefix_hunks(c, c.edits@.len() as int, colored) =~= spec_render_hunks(
            c.original_text@,
            spec_spans_of(c.edits@),
            colored,
        ),
{
    let spans = spec_spans_of(c.edits@);
    lemma_prefix_hunks_suffix(c, c.edits@.len() as int, colored);
    assert(spans.skip(spans.len() as int) =~= Seq::<ByteRange>::empty());
}

/// The first `k` hunks of a change, rendered.
pub open spec fn spec_prefix_hunks(c: Change, k: int, colored: bool) -> Seq<u8>
    decreases k,
{
    if k <= 0 {
        Seq::empty()
    } else {
        spec_prefix_hunks(c, k - 1, colored) + spec_render_hunk(
            c.original_text@,
            spec_spans_of(c.edits@)[k - 1],
            colored,
        )
    }
}

} // verus!

//! What the screen shows, computed from the viewer's state: which rows of
//! the document images cover, the line-number gutter, where an image lands
//! on screen, the highlighted link, the rows of the file tree, and the
//! status bar.
use vstd::prelude::*;
use vstd::string::StrSliceExecFns;
use crate::app::{App, AppState, SearchDirection, Rect, min_int, sub0, opt_string};
use crate::fs::{FileNode, node_name, is_markdown_spec, is_markdown_path};
use crate::markdown::{
    ImageRef, ImageRefV, Line, LinkRef, LinkRefV, Span, SpanV, Style, REVERSED, sv, span_view, spans_view,
    line_view, image_view, link_view, with_mod,
};
use crate::text::{chars_of, string_of, push_all, slice_vec, decimal, decimal_vec, repeat_char};

verus! {

/// The first row an image covers and the row after its last, both kept
/// within the `total` rows.
pub open spec fn image_span(img: ImageRefV, total: int) -> (int, int) {
    let start = min_int(img.line_offset, total);
    (start, min_int(start + img.height, total))
}

/// Whether one of `images` covers row `k`.
pub open spec fn covered(images: Seq<ImageRefV>, total: int, k: int) -> bool
    decreases images.len(),
{
    if images.len() == 0 {
        false
    } else {
        covered(images.drop_last(), total, k) || {
            let (start, end) = image_span(images.last(), total);
            start <= k < end
        }
    }
}

pub open spec fn images_view(images: Seq<ImageRef>) -> Seq<ImageRefV> {
    images.map_values(|i: ImageRef| image_view(i))
}

/// For each of the `total_lines` rows, whether an image covers it.
pub fn compute_image_rows(total_lines: usize, images: &[ImageRef]) -> (r: Vec<bool>)
    ensures
        r@.len() == total_lines,
        forall|k: int| 0 <= k < total_lines ==> r@[k] == covered(images_view(images@), total_lines as int, k),
{
    let mut v: Vec<bool> = Vec::new();
    let mut k: usize = 0;
    while k < total_lines
        invariant
            k <= total_lines,
            v@.len() == k,
            forall|j: int| 0 <= j < k ==> !v@[j],
        decreases total_lines - k,
    {
        v.push(false);
        k += 1;
    }
    let ghost iv = images_view(images@);
    let mut i: usize = 0;
    while i < images.len()
        invariant
            i <= images@.len(),
            iv == images_view(images@),
            v@.len() == total_lines,
            forall|j: int| 0 <= j < total_lines ==> v@[j] == covered(iv.take(i as int), total_lines as int, j),
        decreases images@.len() - i,
    {
        let img = &images[i];
        let start = if img.line_offset < total_lines {
            img.line_offset
        } else {
            total_lines
        };
        let reach = start.saturating_add(img.height as usize);
        let end = if reach < total_lines {
            reach
        } else {
            total_lines
        };
        assert(iv.take(i + 1).drop_last() =~= iv.take(i as int));
        assert(iv.take(i + 1).last() == image_view(*img));
        let ghost before = v@;
        let mut s = start;
        while s < end
            invariant
                start <= s <= end <= total_lines,
                v@.len() == total_lines,
                forall|j: int| 0 <= j < total_lines ==> v@[j] == (before[j] || (start <= j < s)),
                before.len() == total_lines,
                forall|j: int| 0 <= j < total_lines ==> before[j] == covered(iv.take(i as int), total_lines as int, j),
            decreases end - s,
        {
            v.set(s, true);
            s += 1;
        }
        proof {
            let (sp, ep) = image_span(image_view(*img), total_lines as int);
            assert(sp == start && ep == end);
            assert forall|j: int| 0 <= j < total_lines implies v@[j] == covered(
                iv.take(i + 1),
                total_lines as int,
                j,
            ) by {
                assert(v@[j] == (before[j] || (start <= j < end)));
                assert(before[j] == covered(iv.take(i as int), total_lines as int, j));
                assert(covered(iv.take(i + 1), total_lines as int, j) == (covered(iv.take(i as int), total_lines as int, j)
                    || (start <= j < end)));
            }
        }
        i += 1;
    }
    assert(iv.take(images@.len() as int) =~= iv);
    v
}

/// The digits of the line-number gutter for `total` rows: enough for the
/// largest number, at least two.
pub open spec fn gutter_digits(total: nat) -> int {
    let n = decimal(total).len() as int;
    if n >= 2 {
        n
    } else {
        2
    }
}

/// The number of digits of the gutter for `total` rows.
pub fn gutter_digits_of(total: usize) -> (r: usize)
    ensures
        r == gutter_digits(total as nat),
{
    let n = decimal_vec(total as u64).len();
    if n >= 2 {
        n
    } else {
        2
    }
}

/// The title row and the body of a preview drawn in `area`: the title takes
/// the first row, the body the rows below it; with no rows, both are empty.
pub open spec fn preview_areas_of(area: Rect) -> (Rect, Rect) {
    if area.height >= 1 {
        (
            Rect { height: 1, ..area },
            Rect {
                y: (if area.y < u16::MAX {
                    area.y + 1
                } else {
                    area.y as int
                }) as u16,
                height: (area.height - 1) as u16,
                ..area
            },
        )
    } else {
        (area, area)
    }
}

/// Splits the area of a preview into its title row and its body.
pub fn preview_areas(area: Rect) -> (r: (Rect, Rect))
    ensures
        r == preview_areas_of(area),
{
    if area.height >= 1 {
        (
            Rect { x: area.x, y: area.y, width: area.width, height: 1 },
            Rect { x: area.x, y: area.y.saturating_add(1), width: area.width, height: area.height - 1 },
        )
    } else {
        (area, area)
    }
}

/// Ten to the power `p`.
spec fn pow10(p: nat) -> nat
    decreases p,
{
    if p == 0 {
        1
    } else {
        10 * pow10((p - 1) as nat)
    }
}

/// A number below `10^p` has at most `p` decimal digits.
proof fn lemma_decimal_len(n: nat, p: nat)
    requires
        p >= 1,
        n < pow10(p),
    ensures
        decimal(n).len() <= p,
    decreases n,
{
    if n >= 10 {
        if p == 1 {
            assert(pow10(1) == 10 * pow10(0));
        } else {
            assert(pow10(p) == 10 * pow10((p - 1) as nat));
            lemma_decimal_len(n / 10, (p - 1) as nat);
        }
    }
}

/// The width in columns of the line-number gutter for `total` rows: its
/// digits and one space when line numbers are shown, else none.
pub open spec fn gutter_width_of(total: nat, show: bool) -> int {
    if show {
        gutter_digits(total) + 1
    } else {
        0
    }
}

/// The width of the line-number gutter for `total` rows.
pub fn gutter_width(total: usize, show: bool) -> (r: u16)
    ensures
        r == gutter_width_of(total as nat, show),
{
    if !show {
        return 0;
    }
    let digits = gutter_digits_of(total);
    proof {
        reveal_with_fuel(pow10, 21);
        assert(pow10(20) == 100000000000000000000nat);
        lemma_decimal_len(total as nat, 20);
    }
    (digits + 1) as u16
}

/// The gutter text of row `i` (counted from 0): its number counted from 1,
/// right-aligned in `digits` columns, then a space; rows that an image
/// covers show only spaces.
pub open spec fn line_prefix(i: nat, digits: int, image_row: bool) -> Seq<char> {
    if image_row {
        Seq::new((digits + 1) as nat, |k: int| ' ')
    } else {
        let num = decimal(i + 1);
        Seq::new(sub0(digits, num.len() as int) as nat, |k: int| ' ') + num + seq![' ']
    }
}

/// The gutter text of row `i`.
pub fn line_number_prefix(i: usize, digits: usize, image_row: bool) -> (r: String)
    requires
        i < usize::MAX,
        digits < usize::MAX,
    ensures
        r@ == line_prefix(i as nat, digits as int, image_row),
{
    if image_row {
        let s = repeat_char(' ', digits + 1);
        return string_of(&s);
    }
    let num = decimal_vec((i + 1) as u64);
    let pad = if digits > num.len() {
        digits - num.len()
    } else {
        0
    };
    let mut s = repeat_char(' ', pad);
    push_all(&mut s, &num);
    s.push(' ');
    assert(s@ =~= line_prefix(i as nat, digits as int, image_row));
    string_of(&s)
}

/// Where an image starting at document row `line_offset` and `height` rows
/// high shows inside `body` scrolled by `scroll`: the part of it that falls
/// inside the body, if any.
pub open spec fn image_area_of(body: Rect, scroll: u16, line_offset: int, height: u16) -> Option<Rect> {
    let top = body.y + line_offset - scroll;
    let bottom = top + height;
    let body_top = body.y as int;
    let body_bottom = body.y + body.height;
    if bottom <= body_top || top >= body_bottom {
        None
    } else {
        let vis_top = if top >= body_top {
            top
        } else {
            body_top
        };
        let vis_bottom = if bottom <= body_bottom {
            bottom
        } else {
            body_bottom
        };
        if vis_top >= vis_bottom || body.width == 0 {
            None
        } else {
            Some(
                Rect {
                    x: body.x,
                    y: vis_top as u16,
                    width: body.width,
                    height: (vis_bottom - vis_top) as u16,
                },
            )
        }
    }
}

/// Where an image shows on screen, if at all.
pub fn image_area(body: Rect, scroll: u16, line_offset: usize, height: u16) -> (r: Option<Rect>)
    ensures
        r == image_area_of(body, scroll, line_offset as int, height),
{
    let top: i128 = body.y as i128 + line_offset as i128 - scroll as i128;
    let bottom: i128 = top + height as i128;
    let body_top: i128 = body.y as i128;
    let body_bottom: i128 = body.y as i128 + body.height as i128;
    if bottom <= body_top || top >= body_bottom {
        return None;
    }
    let vis_top = if top >= body_top {
        top
    } else {
        body_top
    };
    let vis_bottom = if bottom <= body_bottom {
        bottom
    } else {
        body_bottom
    };
    if vis_top >= vis_bottom || body.width == 0 {
        return None;
    }
    Some(Rect { x: body.x, y: vis_top as u16, width: body.width, height: (vis_bottom - vis_top) as u16 })
}

/// The selected link, if there is one and its row is among the `n_lines`
/// rows.
pub fn selected_link_ref(links: &[LinkRef], selected: Option<usize>, n_lines: usize) -> (r: Option<&LinkRef>)
    ensures
        match selected {
            Some(i) => if i < links@.len() && links@[i as int].line < n_lines {
                r == Some(&links@[i as int])
            } else {
                r is None
            },
            None => r is None,
        },
{
    match selected {
        Some(i) => {
            if i < links.len() && links[i].line < n_lines {
                Some(&links[i])
            } else {
                None
            }
        },
        None => None,
    }
}

/// `n`, or the largest `usize` where `n` is larger.
pub open spec fn sat(n: int) -> int {
    if n <= usize::MAX {
        n
    } else {
        usize::MAX as int
    }
}

/// The column where the span after `spans` starts (saturating).
pub open spec fn run_col(spans: Seq<SpanV>) -> int
    decreases spans.len(),
{
    if spans.len() == 0 {
        0
    } else {
        sat(run_col(spans.drop_last()) + spans.last().text.len())
    }
}

/// Span `s`, which starts at column `start`, with the columns from `cs` up
/// to `ce` reversed: split into the part before, the reversed part and the
/// part after; a span outside the range (or empty) stays as it is.
pub open spec fn highlight_one(s: SpanV, start: int, cs: int, ce: int) -> Seq<SpanV> {
    let n = s.text.len() as int;
    let end = sat(start + n);
    if n == 0 || end <= cs || start >= ce {
        seq![s]
    } else {
        let pre = sub0(cs, start);
        let mid_end = min_int(ce - start, n);
        (if pre > 0 {
            seq![sv(s.text.take(pre), s.style)]
        } else {
            seq![]
        }) + seq![sv(s.text.subrange(pre, mid_end), with_mod(s.style, REVERSED))] + (if mid_end < n {
            seq![sv(s.text.skip(mid_end), s.style)]
        } else {
            seq![]
        })
    }
}

/// The spans of a row with columns `cs` up to `ce` reversed.
pub open spec fn highlight_spans(spans: Seq<SpanV>, cs: int, ce: int) -> Seq<SpanV>
    decreases spans.len(),
{
    if spans.len() == 0 {
        seq![]
    } else {
        highlight_spans(spans.drop_last(), cs, ce) + highlight_one(spans.last(), run_col(spans.drop_last()), cs, ce)
    }
}

/// A row with columns `cs` up to `ce` shown reversed (the row as it is when
/// the range is empty).
pub open spec fn highlighted(line: Seq<SpanV>, cs: int, ce: int) -> Seq<SpanV> {
    if cs >= ce {
        line
    } else {
        highlight_spans(line, cs, ce)
    }
}

fn span_of(text: &[char], style: Style) -> (r: Span)
    ensures
        span_view(r) == sv(text@, style),
{
    Span { content: string_of(text), style }
}

fn push_view(out: &mut Vec<Span>, s: Span)
    ensures
        spans_view(final(out)@) == spans_view(old(out)@).push(span_view(s)),
{
    out.push(s);
    assert(spans_view(out@) =~= spans_view(old(out)@).push(span_view(s)));
}

fn highlight_span_into(out: &mut Vec<Span>, s: &Span, start: usize, cs: usize, ce: usize)
    requires
        cs < ce,
    ensures
        spans_view(final(out)@) == spans_view(old(out)@) + highlight_one(span_view(*s), start as int, cs as int, ce as int),
{
    let chars = chars_of(s.content.as_str());
    let n = chars.len();
    let end = start.saturating_add(n);
    if n == 0 || end <= cs || start >= ce {
        push_view(out, span_of(&chars, s.style));
        assert(spans_view(out@) =~= spans_view(old(out)@) + highlight_one(span_view(*s), start as int, cs as int, ce as int));
        return;
    }
    let pre = cs.saturating_sub(start);
    let mid_end = if ce - start < n {
        ce - start
    } else {
        n
    };
    let ghost o0 = spans_view(out@);
    if pre > 0 {
        let a = slice_vec(&chars, 0, pre);
        assert(a@ =~= chars@.take(pre as int));
        push_view(out, span_of(&a, s.style));
    }
    let ghost o1 = spans_view(out@);
    let m = slice_vec(&chars, pre, mid_end);
    push_view(out, span_of(&m, s.style.add(REVERSED)));
    let ghost o2 = spans_view(out@);
    if mid_end < n {
        let b = slice_vec(&chars, mid_end, n);
        assert(b@ =~= chars@.skip(mid_end as int));
        push_view(out, span_of(&b, s.style));
    }
    assert(spans_view(out@) =~= spans_view(old(out)@) + highlight_one(span_view(*s), start as int, cs as int, ce as int));
}

/// A row with the columns from `col_start` up to `col_end` shown reversed,
/// spans split where the range starts and ends.
pub fn highlight_range(line: &Line, col_start: usize, col_end: usize) -> (r: Line)
    ensures
        line_view(r) == highlighted(line_view(*line), col_start as int, col_end as int),
{
    let ghost lv = line_view(*line);
    let mut out: Vec<Span> = Vec::new();
    if col_start >= col_end {
        let mut i: usize = 0;
        while i < line.spans.len()
            invariant
                i <= line.spans@.len(),
                lv == line_view(*line),
                spans_view(out@) == lv.take(i as int),
            decreases line.spans@.len() - i,
        {
            let s = &line.spans[i];
            let c = chars_of(s.content.as_str());
            push_view(&mut out, span_of(&c, s.style));
            assert(lv.take(i + 1) =~= lv.take(i as int).push(lv[i as int]));
            i += 1;
        }
        assert(lv.take(line.spans@.len() as int) =~= lv);
        return Line { spans: out };
    }
    let mut col: usize = 0;
    let mut i: usize = 0;
    while i < line.spans.len()
        invariant
            i <= line.spans@.len(),
            col_start < col_end,
            lv == line_view(*line),
            col == run_col(lv.take(i as int)),
            spans_view(out@) == highlight_spans(lv.take(i as int), col_start as int, col_end as int),
        decreases line.spans@.len() - i,
    {
        let s = &line.spans[i];
        assert(lv.take(i + 1).drop_last() =~= lv.take(i as int));
        assert(lv.take(i + 1).last() == span_view(*s));
        highlight_span_into(&mut out, s, col, col_start, col_end);
        let n = s.content.as_str().unicode_len();
        col = col.saturating_add(n);
        i += 1;
    }
    assert(lv.take(line.spans@.len() as int) =~= lv);
    Line { spans: out }
}

/// Row `i` as shown: with the selected link reversed when it is on that row.
pub fn display_line(i: usize, line: &Line, selected: Option<&LinkRef>) -> (r: Line)
    ensures
        line_view(r) == match selected {
            Some(l) => if l.line == i {
                highlighted(line_view(*line), l.col_start as int, l.col_end as int)
            } else {
                highlighted(line_view(*line), 0, 0)
            },
            None => highlighted(line_view(*line), 0, 0),
        },
{
    match selected {
        Some(l) => {
            if l.line == i {
                highlight_range(line, l.col_start, l.col_end)
            } else {
                highlight_range(line, 0, 0)
            }
        },
        None => highlight_range(line, 0, 0),
    }
}

/// How a row of the file tree is colored.
#[derive(Clone, Copy, PartialEq, Eq, Structural, Debug)]
pub enum RowKind {
    Markdown,
    Dir,
    Other,
}

/// The text of a tree row: two spaces per level, a marker (`▼ ` for an open
/// directory, `▶ ` for a closed one, two spaces for a file), and the name.
pub open spec fn tree_row(depth: int, node: FileNode) -> Seq<char> {
    Seq::new(sat(2 * depth) as nat, |k: int| ' ') + match node {
        FileNode::Dir { expanded, .. } => if expanded {
            "▼ "@
        } else {
            "▶ "@
        },
        FileNode::File(_) => "  "@,
    } + node_name(node)
}

/// The text of the tree row of `node` at `depth`.
pub fn tree_row_text(depth: usize, node: &FileNode) -> (r: String)
    ensures
        r@ == tree_row(depth as int, *node),
{
    let mut s = repeat_char(' ', depth.saturating_add(depth));
    let marker = match node {
        FileNode::Dir { expanded, .. } => if *expanded {
            chars_of("▼ ")
        } else {
            chars_of("▶ ")
        },
        FileNode::File(_) => chars_of("  "),
    };
    push_all(&mut s, &marker);
    let name = node.name();
    let nc = chars_of(name.as_str());
    push_all(&mut s, &nc);
    string_of(&s)
}

/// How the tree row of `node` is colored: markdown files, directories, or
/// other files.
pub fn tree_row_kind(node: &FileNode) -> (r: RowKind)
    ensures
        r == (match *node {
            FileNode::File(p) => if is_markdown_spec(p@) {
                RowKind::Markdown
            } else {
                RowKind::Other
            },
            FileNode::Dir { .. } => RowKind::Dir,
        }),
{
    match node {
        FileNode::File(p) => if is_markdown_path(p.as_str()) {
            RowKind::Markdown
        } else {
            RowKind::Other
        },
        FileNode::Dir { .. } => RowKind::Dir,
    }
}

/// What the status bar shows.
#[derive(Clone, Copy, PartialEq, Eq, Structural, Debug)]
pub enum StatusKind {
    /// The search being typed.
    Search,
    /// A message.
    Message,
    /// The count being typed (right-aligned).
    Count,
}

/// The status bar: the search being typed (after `/` or `?`), else the
/// status message, else the count being typed; nothing when there is none.
pub open spec fn status_of(a: App) -> Option<(Seq<char>, StatusKind)> {
    match a.search_input {
        Some(i) => Some(
            (
                seq![
                    match i.direction {
                        SearchDirection::Forward => '/',
                        SearchDirection::Backward => '?',
                    },
                ] + i.buffer@,
                StatusKind::Search,
            ),
        ),
        None => match a.status_message {
            Some(m) => Some((m@, StatusKind::Message)),
            None => if a.count_buffer@.len() > 0 {
                Some((a.count_buffer@, StatusKind::Count))
            } else {
                None
            },
        },
    }
}

/// The status bar's text and kind.
pub fn status_line(app: &App) -> (r: Option<(String, StatusKind)>)
    ensures
        match r {
            Some((t, k)) => status_of(*app) == Some((t@, k)),
            None => status_of(*app) is None,
        },
{
    match &app.search_input {
        Some(i) => {
            let mut t: Vec<char> = Vec::new();
            t.push(
                match i.direction {
                    SearchDirection::Forward => '/',
                    SearchDirection::Backward => '?',
                },
            );
            let b = chars_of(i.buffer.as_str());
            push_all(&mut t, &b);
            Some((string_of(&t), StatusKind::Search))
        },
        None => match &app.status_message {
            Some(m) => Some((m.clone(), StatusKind::Message)),
            None => {
                if app.count_buffer.as_str().unicode_len() > 0 {
                    Some((app.count_buffer.clone(), StatusKind::Count))
                } else {
                    None
                }
            },
        },
    }
}

/// Whether the screen has a status bar row.
pub fn wants_status_bar(app: &App) -> (r: bool)
    ensures
        r == (app.search_input is Some || app.status_message is Some || app.count_buffer@.len() > 0),
{
    app.search_input.is_some() || app.status_message.is_some() || app.count_buffer.as_str().unicode_len() > 0
}

} // verus!

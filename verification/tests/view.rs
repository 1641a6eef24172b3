use mdr::app::{App, Rect, SearchDirection};
use mdr::config::Config;
use mdr::fs::FileNode;
use mdr::markdown::{ImageRef, Line, LinkRef, LinkTarget, Span, Style, REVERSED};
use mdr::view::{
    gutter_width, preview_areas,
    compute_image_rows, display_line, gutter_digits_of, highlight_range, image_area, line_number_prefix,
    selected_link_ref, status_line, tree_row_kind, tree_row_text, wants_status_bar, RowKind, StatusKind,
};

fn img(off: usize, h: u16) -> ImageRef {
    ImageRef { path: "/p.png".to_string(), line_offset: off, height: h }
}

fn line(parts: &[&str]) -> Line {
    Line { spans: parts.iter().map(|p| Span { content: p.to_string(), style: Style::new() }).collect() }
}

#[test]
fn image_rows_cover_each_image_within_bounds() {
    let rows = compute_image_rows(6, &[img(1, 2), img(4, 10)]);
    assert_eq!(rows, vec![false, true, true, false, true, true]);
    assert_eq!(compute_image_rows(3, &[img(9, 2)]), vec![false, false, false]);
}

#[test]
fn gutter_numbers_right_aligned() {
    assert_eq!(gutter_digits_of(5), 2);
    assert_eq!(gutter_digits_of(120), 3);
    assert_eq!(line_number_prefix(0, 3, false), "  1 ");
    assert_eq!(line_number_prefix(119, 3, false), "120 ");
    assert_eq!(line_number_prefix(4, 2, true), "   ");
}

#[test]
fn image_area_clips_to_body() {
    let body = Rect { x: 2, y: 1, width: 30, height: 10 };
    assert_eq!(image_area(body, 0, 3, 4), Some(Rect { x: 2, y: 4, width: 30, height: 4 }));
    assert_eq!(image_area(body, 5, 3, 4), Some(Rect { x: 2, y: 1, width: 30, height: 2 }));
    assert_eq!(image_area(body, 0, 8, 6), Some(Rect { x: 2, y: 9, width: 30, height: 2 }));
    assert_eq!(image_area(body, 9, 3, 4), None);
    assert_eq!(image_area(body, 0, 20, 4), None);
}

#[test]
fn highlight_splits_spans() {
    let l = line(&["see ", "docs", " here"]);
    let h = highlight_range(&l, 2, 6);
    let parts: Vec<(&str, bool)> =
        h.spans.iter().map(|s| (s.content.as_str(), s.style.add_modifier & REVERSED != 0)).collect();
    assert_eq!(parts, vec![("se", false), ("e ", true), ("do", true), ("cs", false), (" here", false)]);
    let same = highlight_range(&l, 3, 3);
    assert_eq!(same.spans.len(), 3);
    let link = LinkRef { line: 0, col_start: 4, col_end: 8, target: LinkTarget::Url("u".to_string()) };
    let shown = display_line(0, &l, Some(&link));
    assert_eq!(shown.spans[1].style.add_modifier & REVERSED, REVERSED);
    let other = display_line(1, &l, Some(&link));
    assert_eq!(other.spans[1].style.add_modifier & REVERSED, 0);
    assert!(selected_link_ref(&[link], Some(0), 0).is_none());
}

#[test]
fn tree_rows_have_indent_marker_and_kind() {
    let dir = FileNode::Dir { path: "/t/s".to_string(), name: "s".to_string(), children: Vec::new(), expanded: false };
    assert_eq!(tree_row_text(1, &dir), "  ▶ s");
    assert_eq!(tree_row_kind(&dir), RowKind::Dir);
    let f = FileNode::File("/t/a.md".to_string());
    assert_eq!(tree_row_text(0, &f), "  a.md");
    assert_eq!(tree_row_kind(&f), RowKind::Markdown);
    assert_eq!(tree_row_kind(&FileNode::File("/t/a.txt".to_string())), RowKind::Other);
}

#[test]
fn status_bar_shows_search_then_message_then_count() {
    let mut app = App::new(Config::default());
    assert!(status_line(&app).is_none());
    assert!(!wants_status_bar(&app));
    app.count_buffer = "12".to_string();
    assert_eq!(status_line(&app), Some(("12".to_string(), StatusKind::Count)));
    app.status_message = Some("hi".to_string());
    assert_eq!(status_line(&app), Some(("hi".to_string(), StatusKind::Message)));
    app.start_search(SearchDirection::Backward);
    app.search_input_push('x');
    assert_eq!(status_line(&app), Some(("?x".to_string(), StatusKind::Search)));
    assert!(wants_status_bar(&app));
}

#[test]
fn gutter_width_counts_digits_and_a_space() {
    assert_eq!(gutter_width(5, true), 3);
    assert_eq!(gutter_width(123, true), 4);
    assert_eq!(gutter_width(usize::MAX, true), 21);
    assert_eq!(gutter_width(123, false), 0);
}

#[test]
fn preview_title_takes_first_row_and_body_the_rest() {
    let area = Rect { x: 3, y: 2, width: 40, height: 10 };
    let (title, body) = preview_areas(area);
    assert_eq!(title, Rect { x: 3, y: 2, width: 40, height: 1 });
    assert_eq!(body, Rect { x: 3, y: 3, width: 40, height: 9 });
    let empty = Rect { x: 0, y: 5, width: 8, height: 0 };
    assert_eq!(preview_areas(empty), (empty, empty));
}

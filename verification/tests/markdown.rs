use mdr::markdown::{
    color_from_str, parse, parse_full, parse_full_with, parse_with_config, render_events, resolve_image_path,
    resolve_link_target, Color, Line, LinkTarget, MdEvent, RenderConfig, BOLD, ITALIC, UNDERLINED,
};

fn flatten_text(lines: &[Line]) -> String {
    lines
        .iter()
        .map(|l| l.spans.iter().map(|s| s.content.as_str()).collect::<String>())
        .collect::<Vec<_>>()
        .join("\n")
}

fn row_texts(lines: &[Line]) -> Vec<String> {
    lines.iter().map(|l| l.spans.iter().map(|s| s.content.as_str()).collect::<String>()).collect()
}

#[test]
fn test_heading_is_bold_cyan() {
    let lines = parse("# Hello");
    let text = flatten_text(&lines);
    assert!(text.contains("Hello"), "got: {:?}", text);
}

#[test]
fn test_bold_text_has_bold_modifier() {
    let lines = parse("**bold**");
    let has_bold = lines.iter().flat_map(|l| l.spans.iter()).any(|s| s.style.add_modifier & BOLD != 0);
    assert!(has_bold, "Expected at least one BOLD span");
}

#[test]
fn test_inline_code_is_yellow() {
    let lines = parse("a `snippet` here");
    let yellow_code = lines.iter().flat_map(|l| l.spans.iter()).find(|s| s.content.as_str() == "snippet");
    let span = yellow_code.expect("expected a span containing 'snippet'");
    assert_eq!(span.style.fg, Some(Color::Yellow));
}

#[test]
fn test_plain_text_renders() {
    let lines = parse("just some text");
    let text = flatten_text(&lines);
    assert!(text.contains("just some text"));
}

#[test]
fn test_heading_color_overridable() {
    let cfg = RenderConfig {
        h1_color: Color::Magenta,
        heading_color: Color::Red,
        code_color: Color::Green,
        image_height: 12,
    };
    let lines = parse_with_config("# H", &cfg);
    let span = lines
        .iter()
        .flat_map(|l| l.spans.iter())
        .find(|s| s.content.as_str() == "H")
        .expect("expected h1 heading text");
    assert_eq!(span.style.fg, Some(Color::Magenta));
    let lines2 = parse_with_config("## H2", &cfg);
    let span2 = lines2
        .iter()
        .flat_map(|l| l.spans.iter())
        .find(|s| s.content.as_str() == "H2")
        .expect("expected h2 heading text");
    assert_eq!(span2.style.fg, Some(Color::Red));
}

#[test]
fn test_color_from_str_known_and_unknown() {
    assert_eq!(color_from_str("red"), Color::Red);
    assert_eq!(color_from_str("CYAN"), Color::Cyan);
    assert_eq!(color_from_str("not_a_color"), Color::White);
}

#[test]
fn test_h1_emits_double_underline_row() {
    let lines = parse("# Hello");
    let underline = lines
        .iter()
        .find(|l| l.spans.iter().any(|s| s.content.contains('═')))
        .expect("expected h1 ═ underline row");
    let len: usize = underline.spans.iter().map(|s| s.content.chars().count()).sum();
    assert_eq!(len, "Hello".chars().count());
}

#[test]
fn test_h2_emits_single_underline_row() {
    let lines = parse("## Sub");
    let has_dash_row = lines
        .iter()
        .any(|l| l.spans.iter().any(|s| s.content.chars().all(|c| c == '─') && !s.content.is_empty()));
    assert!(has_dash_row, "expected h2 ─ underline row");
}

#[test]
fn test_h3_no_underline_row() {
    let lines = parse("### Smaller");
    let has_underline =
        lines.iter().any(|l| l.spans.iter().any(|s| s.content.contains('═') || s.content.contains('─')));
    assert!(!has_underline, "h3 should not have underline row");
}

#[test]
fn test_h5_is_italic() {
    let lines = parse("##### tiny");
    let span = lines
        .iter()
        .flat_map(|l| l.spans.iter())
        .find(|s| s.content.as_str() == "tiny")
        .expect("expected heading text");
    assert!(span.style.add_modifier & ITALIC != 0);
}

#[test]
fn test_paragraphs_separated_by_blank_line() {
    let lines = parse("first para\n\nsecond para");
    let text = flatten_text(&lines);
    // Expect at least one empty line between the two paragraphs.
    assert!(text.contains("first para\n\nsecond para") || text.contains("first para\n"));
    let blanks = lines.iter().filter(|l| l.spans.iter().all(|s| s.content.is_empty())).count();
    assert!(blanks >= 1, "expected at least one blank line, got {:?}", text);
}

#[test]
fn test_fenced_code_block_preserves_line_breaks() {
    let md = "before\n\n```sh\nline one\nline two\n```\n\n## Heading\n";
    let lines = parse(md);
    let text = flatten_text(&lines);
    // Each code line should be on its own line, not concatenated.
    let line_one_idx = lines
        .iter()
        .position(|l| l.spans.iter().any(|s| s.content.as_str() == "line one"))
        .expect("expected 'line one' as its own line");
    let line_two_idx = lines
        .iter()
        .position(|l| l.spans.iter().any(|s| s.content.as_str() == "line two"))
        .expect("expected 'line two' as its own line");
    assert!(line_two_idx > line_one_idx);
    // Heading text must NOT be glued to a code-block line.
    let heading_idx = lines
        .iter()
        .position(|l| l.spans.iter().any(|s| s.content.as_str() == "Heading"))
        .expect("expected 'Heading' line");
    assert!(heading_idx > line_two_idx, "heading must come after code block, got: {:?}", text);
    let heading_line = &lines[heading_idx];
    let heading_text: String = heading_line.spans.iter().map(|s| s.content.as_str()).collect();
    assert_eq!(heading_text.trim(), "Heading");
}

#[test]
fn test_code_block_lines_use_code_color() {
    let cfg = RenderConfig {
        h1_color: Color::White,
        heading_color: Color::Cyan,
        code_color: Color::Magenta,
        image_height: 12,
    };
    let lines = parse_with_config("```\nhello\n```\n", &cfg);
    let span = lines
        .iter()
        .flat_map(|l| l.spans.iter())
        .find(|s| s.content.as_str() == "hello")
        .expect("expected 'hello' span");
    assert_eq!(span.style.fg, Some(Color::Magenta));
}

#[test]
fn test_table_renders_header_and_rows() {
    let md = "| Name | Value |\n|------|-------|\n| foo  | 1     |\n| bar  | 22    |\n";
    let lines = parse(md);
    let text = flatten_text(&lines);
    assert!(text.contains("Name"), "got {:?}", text);
    assert!(text.contains("Value"), "got {:?}", text);
    assert!(text.contains("foo"), "got {:?}", text);
    assert!(text.contains("bar"), "got {:?}", text);
    // separator with ┼
    let has_sep = lines.iter().any(|l| l.spans.iter().any(|s| s.content.contains('┼')));
    assert!(has_sep, "expected ┼ in separator row, got {:?}", text);
}

#[test]
fn test_table_columns_padded_to_max_width() {
    let md = "| a | bb |\n|---|----|\n| ccc | d |\n";
    let lines = parse(md);
    // The "a" cell should be padded to width 3 (matching "ccc").
    let header = lines
        .iter()
        .find(|l| {
            let text: String = l.spans.iter().map(|s| s.content.as_str()).collect();
            text.contains('a') && text.contains("bb") && !text.contains("ccc")
        })
        .expect("expected header row");
    let header_text: String = header.spans.iter().map(|s| s.content.as_str()).collect();
    assert!(header_text.contains("a  "), "expected 'a' padded with spaces, got {:?}", header_text);
}

#[test]
fn test_table_has_top_and_bottom_borders() {
    let md = "| a | b |\n|---|---|\n| 1 | 2 |\n";
    let lines = parse(md);
    let has_top = lines.iter().any(|l| l.spans.iter().any(|s| s.content.contains('┌') && s.content.contains('┐')));
    let has_bottom =
        lines.iter().any(|l| l.spans.iter().any(|s| s.content.contains('└') && s.content.contains('┘')));
    assert!(has_top, "expected top border with ┌ and ┐");
    assert!(has_bottom, "expected bottom border with └ and ┘");
}

#[test]
fn test_image_local_path_resolves_relative_to_base_dir() {
    let cfg = RenderConfig {
        h1_color: Color::White,
        heading_color: Color::Cyan,
        code_color: Color::Yellow,
        image_height: 5,
    };
    let result = parse_full_with("![alt](pic.png)", &cfg, Some("/some/dir"));
    assert_eq!(result.images.len(), 1);
    assert_eq!(result.images[0].path, "/some/dir/pic.png");
    assert_eq!(result.images[0].height, 5);
}

#[test]
fn test_image_url_is_dropped_but_alt_still_rendered() {
    let result = parse_full("![remote](https://example.com/x.png)");
    assert!(result.images.is_empty());
    let placeholder = result
        .lines
        .iter()
        .flat_map(|l| l.spans.iter())
        .find(|s| s.content.contains("[image:") && s.content.contains("remote"));
    assert!(placeholder.is_some(), "expected alt-text placeholder for url");
}

#[test]
fn test_image_reserves_height_rows_in_lines() {
    let cfg = RenderConfig {
        h1_color: Color::White,
        heading_color: Color::Cyan,
        code_color: Color::Yellow,
        image_height: 8,
    };
    let result = parse_full_with("![alt](pic.png)", &cfg, Some("/a"));
    let img = &result.images[0];
    assert_eq!(img.line_offset, 0);
    // First row has placeholder, next height-1 rows are blank.
    let total_rows_after_image = result.lines.len();
    assert!(total_rows_after_image >= 8, "expected >=8 lines for image");
}

#[test]
fn test_tight_list_items_each_on_their_own_line() {
    let md = "- alpha\n- beta\n- gamma\n";
    let lines = parse(md);
    let texts = row_texts(&lines);
    // Each item should appear as its own rendered line, in order.
    let pos_alpha = texts.iter().position(|t| t.contains("alpha")).unwrap();
    let pos_beta = texts.iter().position(|t| t.contains("beta")).unwrap();
    let pos_gamma = texts.iter().position(|t| t.contains("gamma")).unwrap();
    assert!(pos_alpha < pos_beta && pos_beta < pos_gamma);
    // They must NOT be glued on the same line.
    assert!(!texts.iter().any(|t| t.contains("alpha") && t.contains("beta")));
}

#[test]
fn test_ordered_list_uses_number_prefix() {
    let md = "1. one\n2. two\n";
    let lines = parse(md);
    let texts = row_texts(&lines);
    assert!(texts.iter().any(|t| t.starts_with("1. ") && t.contains("one")), "got: {:?}", texts);
    assert!(texts.iter().any(|t| t.starts_with("2. ") && t.contains("two")), "got: {:?}", texts);
}

#[test]
fn test_link_local_path_recorded_with_correct_offsets() {
    let result = parse_full_with("see [docs](readme.md) here", &RenderConfig::default(), Some("/some/dir"));
    assert_eq!(result.links.len(), 1, "expected one link");
    let link = &result.links[0];
    assert_eq!(link.line, 0);
    assert_eq!(link.col_start, "see ".chars().count());
    assert_eq!(link.col_end, "see docs".chars().count());
    match &link.target {
        LinkTarget::Local(p) => assert_eq!(p, "/some/dir/readme.md"),
        _ => panic!("expected local target"),
    }
}

#[test]
fn test_link_url_target() {
    let result = parse_full("click [here](https://example.com/x)");
    assert_eq!(result.links.len(), 1);
    match &result.links[0].target {
        LinkTarget::Url(u) => assert_eq!(u, "https://example.com/x"),
        _ => panic!("expected url target"),
    }
}

#[test]
fn test_link_with_anchor_strips_fragment() {
    let result = parse_full_with("[s](file.md#section)", &RenderConfig::default(), Some("/d"));
    match &result.links[0].target {
        LinkTarget::Local(p) => assert_eq!(p, "/d/file.md"),
        _ => panic!("expected local target"),
    }
}

#[test]
fn test_link_text_is_cyan_and_underlined() {
    let result = parse_full("[styled](x.md)");
    let span = result
        .lines
        .iter()
        .flat_map(|l| l.spans.iter())
        .find(|s| s.content.as_str() == "styled")
        .expect("expected styled link span");
    assert_eq!(span.style.fg, Some(Color::Cyan));
    assert!(span.style.add_modifier & UNDERLINED != 0);
}

#[test]
fn test_link_inside_table_not_recorded_but_styled() {
    let md = "| a | b |\n|---|---|\n| [x](y.md) | z |\n";
    let result = parse_full(md);
    assert!(result.links.is_empty(), "links inside tables shouldn't be tracked");
    let span = result
        .lines
        .iter()
        .flat_map(|l| l.spans.iter())
        .find(|s| s.content.as_str() == "x")
        .expect("expected link text in table");
    assert_eq!(span.style.fg, Some(Color::Cyan));
}

#[test]
fn test_table_cell_with_inline_code_keeps_yellow_style() {
    let md = "| n | v |\n|---|---|\n| `code` | x |\n";
    let lines = parse(md);
    let yellow = lines.iter().flat_map(|l| l.spans.iter()).find(|s| s.content.as_str() == "code");
    let span = yellow.expect("expected a 'code' span inside table cell");
    assert_eq!(span.style.fg, Some(Color::Yellow));
}

// --- exact renderings of event streams ---

#[test]
fn heading_events_render_exact_rows() {
    let events = vec![
        MdEvent::StartHeading(1),
        MdEvent::Text("Hi".to_string()),
        MdEvent::EndHeading,
        MdEvent::StartHeading(3),
        MdEvent::Text("Sub".to_string()),
        MdEvent::EndHeading,
    ];
    let r = render_events(&events, &RenderConfig::default(), None);
    assert_eq!(row_texts(&r.lines), vec!["Hi", "══", "", "Sub", ""]);
    assert_eq!(r.lines[1].spans[0].style.fg, Some(Color::LightRed));
    assert_eq!(r.lines[3].spans[0].style.fg, Some(Color::Cyan));
    assert_eq!(r.lines[3].spans[0].style.add_modifier, BOLD);
}

#[test]
fn empty_heading_gets_one_underline_char() {
    let events = vec![MdEvent::StartHeading(2), MdEvent::EndHeading];
    let r = render_events(&events, &RenderConfig::default(), None);
    assert_eq!(row_texts(&r.lines), vec!["─", ""]);
}

#[test]
fn nested_list_is_indented_and_numbered() {
    let events = vec![
        MdEvent::StartList(Some(7)),
        MdEvent::StartItem,
        MdEvent::Text("a".to_string()),
        MdEvent::StartList(None),
        MdEvent::StartItem,
        MdEvent::Text("b".to_string()),
        MdEvent::EndItem,
        MdEvent::EndList,
        MdEvent::EndItem,
        MdEvent::StartItem,
        MdEvent::Text("c".to_string()),
        MdEvent::EndItem,
        MdEvent::EndList,
    ];
    let r = render_events(&events, &RenderConfig::default(), None);
    assert_eq!(row_texts(&r.lines), vec!["7. a", "  • b", "8. c", ""]);
}

#[test]
fn code_block_rows_with_language_and_blank_line() {
    let events = vec![
        MdEvent::StartCodeBlock(Some("rs".to_string())),
        MdEvent::Text("fn x\n\ny\n".to_string()),
        MdEvent::EndCodeBlock,
    ];
    let r = render_events(&events, &RenderConfig::default(), None);
    assert_eq!(row_texts(&r.lines), vec!["┌─  rs", "│ fn x", "│", "│ y", "└─", ""]);
}

#[test]
fn table_layout_is_exact() {
    let cell = |t: &str| vec![MdEvent::Text(t.to_string()), MdEvent::EndTableCell];
    let mut events = vec![MdEvent::StartTable, MdEvent::StartTableHead];
    events.extend(cell("a"));
    events.extend(cell("bb"));
    events.push(MdEvent::EndTableHead);
    events.extend(cell("ccc"));
    events.extend(cell("d"));
    events.push(MdEvent::EndTableRow);
    events.push(MdEvent::EndTable);
    let r = render_events(&events, &RenderConfig::default(), None);
    assert_eq!(
        row_texts(&r.lines),
        vec![
            "┌─────┬────┐",
            "│ a   │ bb │",
            "├─────┼────┤",
            "│ ccc │ d  │",
            "└─────┴────┘",
            "",
        ]
    );
}

#[test]
fn image_rows_and_placeholder_label() {
    let cfg = RenderConfig { image_height: 2, ..RenderConfig::default() };
    let events = vec![MdEvent::StartImage("img/p.png".to_string()), MdEvent::EndImage];
    let r = render_events(&events, &cfg, Some("/b"));
    assert_eq!(row_texts(&r.lines), vec!["[image: p.png]", "", ""]);
    assert_eq!(r.images.len(), 1);
    assert_eq!(r.images[0].path, "/b/img/p.png");
    assert_eq!(r.images[0].line_offset, 0);
    let zero = RenderConfig { image_height: 0, ..RenderConfig::default() };
    let r0 = render_events(&events, &zero, None);
    // Without a base directory a relative image has no file: its
    // destination labels it, and it still takes one row.
    assert_eq!(row_texts(&r0.lines), vec!["[image: img/p.png]", ""]);
    assert!(r0.images.is_empty());
}

#[test]
fn link_wrapping_onto_next_row_covers_tail() {
    let events = vec![
        MdEvent::Text("ab ".to_string()),
        MdEvent::StartLink("/abs/t.md".to_string()),
        MdEvent::Text("one".to_string()),
        MdEvent::SoftBreak,
        MdEvent::Text("two".to_string()),
        MdEvent::EndLink,
    ];
    let r = render_events(&events, &RenderConfig::default(), None);
    assert_eq!(r.links.len(), 1);
    assert_eq!((r.links[0].line, r.links[0].col_start, r.links[0].col_end), (1, 0, 3));
    assert_eq!(r.links[0].target, LinkTarget::Local("/abs/t.md".to_string()));
}

#[test]
fn link_targets_resolve() {
    let d: Vec<char> = "/base".chars().collect();
    let t = |s: &str| resolve_link_target(&s.chars().collect::<Vec<_>>(), Some(d.as_slice()));
    assert_eq!(t(""), None);
    assert_eq!(t("#top"), None);
    assert_eq!(t("http://x.org"), Some(LinkTarget::Url("http://x.org".to_string())));
    assert_eq!(t("a/b.md#c"), Some(LinkTarget::Local("/base/a/b.md".to_string())));
    assert_eq!(t("/abs.md"), Some(LinkTarget::Local("/abs.md".to_string())));
    assert_eq!(resolve_link_target(&"rel.md".chars().collect::<Vec<_>>(), None), None);
    assert_eq!(resolve_image_path(&"https://i/x.png".chars().collect::<Vec<_>>(), Some(d.as_slice())), None);
    assert_eq!(
        resolve_image_path(&"x.png".chars().collect::<Vec<_>>(), Some(d.as_slice())).map(|v| v.into_iter().collect::<String>()),
        Some("/base/x.png".to_string())
    );
}

#[test]
fn color_names_with_underscores_and_grey() {
    assert_eq!(color_from_str("Dark_Grey"), Color::DarkGray);
    assert_eq!(color_from_str("grey"), Color::Gray);
    assert_eq!(color_from_str("LIGHT_MAGENTA"), Color::LightMagenta);
}

#[test]
fn links_and_images_sit_on_their_rows() {
    let md = "# T\n\nSee [one](a.md) and [two](https://x.y).\n\n![pic](p.png)\n\nAfter [three](c.md)\n";
    let cfg = RenderConfig::default();
    let r = parse_full_with(md, &cfg, Some("/b"));
    assert_eq!(r.links.len(), 3);
    for w in r.links.windows(2) {
        assert!(w[0].line <= w[1].line);
    }
    for l in &r.links {
        assert!(l.line < r.lines.len());
        assert!(l.col_start < l.col_end);
    }
    assert_eq!(r.images.len(), 1);
    let img = &r.images[0];
    assert!(img.height >= 1);
    assert!(img.line_offset + (img.height as usize) < r.lines.len());
    assert_eq!(r.lines[img.line_offset].spans.len(), 1);
    for k in 1..=(img.height as usize) {
        assert!(r.lines[img.line_offset + k].spans.is_empty());
    }
    assert!(r.links[2].line > img.line_offset + img.height as usize);
}

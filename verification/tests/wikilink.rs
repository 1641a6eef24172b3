use mdr::wikilink::{rewrite, TreeIndex};

#[test]
fn rewrites_simple_wikilink_to_markdown_link() {
    let out = rewrite("see [[Foo]] later", None, Some("/d"));
    assert_eq!(out, "see [Foo](/d/Foo.md) later");
}

#[test]
fn rewrites_alias_with_pipe() {
    let out = rewrite("read [[Foo|the doc]]!", None, Some("/d"));
    assert_eq!(out, "read [the doc](/d/Foo.md)!");
}

#[test]
fn keeps_anchor_in_display_strips_from_target() {
    let out = rewrite("see [[Notes#intro]]", None, Some("/d"));
    assert_eq!(out, "see [Notes#intro](/d/Notes.md)");
}

#[test]
fn accepts_explicit_md_extension() {
    let out = rewrite("see [[Foo.md]]", None, Some("/d"));
    assert_eq!(out, "see [Foo](/d/Foo.md)");
}

#[test]
fn skips_inside_inline_code() {
    let out = rewrite("plain [[A]] but `code [[B]] here` and [[C]]", None, Some("/d"));
    assert_eq!(out, "plain [A](/d/A.md) but `code [[B]] here` and [C](/d/C.md)");
}

#[test]
fn skips_inside_fenced_code_block() {
    let md = "before [[A]]\n```\nverbatim [[B]] kept\n```\nafter [[C]]\n";
    let out = rewrite(md, None, Some("/d"));
    assert!(out.contains("[A](/d/A.md)"));
    assert!(out.contains("verbatim [[B]] kept"));
    assert!(out.contains("[C](/d/C.md)"));
}

#[test]
fn resolves_via_tree_index_case_insensitively() {
    let mut map = TreeIndex::new();
    map.insert_if_absent("readme".to_lowercase(), "/n/sub/readme.md".to_string());
    let out = rewrite("[[ReadMe]]", Some(&map), Some("/n"));
    assert!(out.contains("/n/sub/readme.md"), "got: {out}");
}

#[test]
fn falls_back_to_base_dir_when_no_tree_match() {
    let map = TreeIndex::new();
    let out = rewrite("[[Missing]]", Some(&map), Some("/base"));
    assert_eq!(out, "[Missing](/base/Missing.md)");
}

#[test]
fn malformed_wikilinks_left_alone() {
    assert_eq!(rewrite("see [[Foo", None, None), "see [[Foo");
    assert_eq!(rewrite("see [[Fo\no]] x", None, None), "see [[Fo\no]] x");
    assert_eq!(rewrite("[[ ]]", None, None), "[[ ]]");
}

#[test]
fn target_with_space_uses_angle_brackets() {
    let out = rewrite("[[My Notes]]", None, Some("/d"));
    assert!(out.contains("</d/My Notes.md>"), "got: {out}");
}

#[test]
fn handles_multibyte_chars_around_wikilink() {
    let out = rewrite("熊 [[Foo]] 老师", None, Some("/d"));
    assert_eq!(out, "熊 [Foo](/d/Foo.md) 老师");
}

#[test]
fn wikilink_without_base_dir_targets_bare_file_name() {
    assert_eq!(rewrite("[[Foo]]", None, None), "[Foo](Foo.md)");
}

#[test]
fn wikilink_escapes_brackets_in_display_and_absolute_stem_replaces_base() {
    assert_eq!(rewrite("[[/abs/x|a]b]]", None, Some("/d")), "[a\\]b](/abs/x.md)");
}

#[test]
fn wikilink_tree_index_keeps_first_path_for_a_stem() {
    let mut map = TreeIndex::new();
    map.insert_if_absent("a".to_string(), "/one/a.md".to_string());
    map.insert_if_absent("a".to_string(), "/two/a.md".to_string());
    assert_eq!(map.len(), 1);
    assert_eq!(rewrite("[[A]]", Some(&map), None), "[A](/one/a.md)");
}

#[test]
fn text_without_wikilinks_is_unchanged() {
    let text = "# Title\n\nA [link](x.md), a [single] bracket and `code` spans.\n";
    assert_eq!(rewrite(text, None, Some("/docs")), text);
    let mut map = TreeIndex::new();
    map.insert_if_absent("link".to_string(), "/other/link.md".to_string());
    assert_eq!(rewrite(text, Some(&map), None), text);
}

#[test]
fn skips_inside_double_backtick_code_span() {
    assert_eq!(rewrite("``x [[B]]``", None, Some("/d")), "``x [[B]]``");
    assert_eq!(
        rewrite("a ``x ` [[B]]`` then [[C]]", None, Some("/d")),
        "a ``x ` [[B]]`` then [C](/d/C.md)"
    );
}

#[test]
fn backticks_without_a_closing_run_are_plain_text() {
    assert_eq!(rewrite("a ` b [[C]]", None, Some("/d")), "a ` b [C](/d/C.md)");
    assert_eq!(rewrite("``a` [[C]]", None, Some("/d")), "``a` [C](/d/C.md)");
}

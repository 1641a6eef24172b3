use mdr::fs::{build_dir_node, is_markdown_path, DirEntry, FileNode};

fn entry(dir: &str, name: &str, is_dir: bool) -> DirEntry {
    DirEntry { name: name.to_string(), path: format!("{}/{}", dir, name), is_dir }
}

#[test]
fn test_walk_dir_finds_md_files() {
    let node = build_dir_node(
        "/t",
        vec![entry("/t", "readme.md", false), entry("/t", "notes.md", false), entry("/t", "other.txt", false)],
    );
    match node {
        FileNode::Dir { children, .. } => {
            let md_count = children.iter().filter(|n| n.is_markdown()).count();
            assert_eq!(md_count, 2);
        }
        _ => panic!("Expected Dir variant"),
    }
}

#[test]
fn test_walk_dir_sorts_dirs_before_files() {
    let node = build_dir_node("/t", vec![entry("/t", "zzz.md", false), entry("/t", "aaa_subdir", true)]);
    match node {
        FileNode::Dir { children, .. } => {
            assert!(matches!(children[0], FileNode::Dir { .. }));
            assert!(matches!(children[1], FileNode::File(_)));
        }
        _ => panic!("Expected Dir variant"),
    }
}

#[test]
fn hidden_entries_are_left_out_and_names_sorted() {
    let node = build_dir_node(
        "/t/docs",
        vec![
            entry("/t/docs", "b.md", false),
            entry("/t/docs", ".git", true),
            entry("/t/docs", "a.md", false),
            entry("/t/docs", "zdir", true),
            entry("/t/docs", "adir", true),
        ],
    );
    assert_eq!(node.name(), "docs");
    let names: Vec<String> = match &node {
        FileNode::Dir { children, expanded, .. } => {
            assert!(*expanded);
            children.iter().map(|c| c.name()).collect()
        }
        _ => panic!("Expected Dir variant"),
    };
    assert_eq!(names, vec!["adir", "zdir", "a.md", "b.md"]);
    assert_eq!(node.visible_count(), 5);
}

#[test]
fn markdown_paths_by_extension() {
    assert!(is_markdown_path("/x/readme.md"));
    assert!(is_markdown_path("notes.markdown"));
    assert!(!is_markdown_path("notes.MD.txt"));
    assert!(!is_markdown_path(".md"));
    assert!(!is_markdown_path("/x/dir/"));
}

#[test]
fn visit_visible_reports_depths() {
    let mut root = build_dir_node("/r", vec![entry("/r", "sub", true), entry("/r", "a.md", false)]);
    let sub = build_dir_node("/r/sub", vec![entry("/r/sub", "x.md", false)]);
    if let FileNode::Dir { children: sub_kids, .. } = sub {
        assert!(root.apply_at(1, mdr::fs::NodeOp::Expand(sub_kids)));
    }
    let rows: Vec<(usize, String)> = root.visit_visible(0).into_iter().map(|(d, n)| (d, n.name())).collect();
    assert_eq!(
        rows,
        vec![(0, "r".to_string()), (1, "sub".to_string()), (2, "x.md".to_string()), (1, "a.md".to_string())]
    );
    assert_eq!(root.visit_all().len(), 4);
}

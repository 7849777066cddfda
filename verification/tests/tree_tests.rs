use ftdv::grouping::{group_records, PathKey};
use ftdv::parser::{DiffParser, FileDiff};
use ftdv::pathset::PathSet;
use ftdv::tree::{FileTreeBuilder, FileTreeItem, TreeNode};

fn file(path: &str, added: usize, removed: usize) -> FileDiff {
    FileDiff {
        filename: path.to_string(),
        old_path: None,
        new_path: None,
        content: format!("content of {}", path),
        added_lines: added,
        removed_lines: removed,
        diff_key: None,
    }
}

fn names(rows: &[FileTreeItem]) -> Vec<String> {
    rows.iter().map(|r| r.full_path.clone()).collect()
}

#[test]
fn two_files_in_one_directory() {
    let text = "diff --git a/src/a.rs b/src/a.rs\n--- a/src/a.rs\n+++ b/src/a.rs\n@@ -1,1 +1,1 @@\n-old\n+new\ndiff --git a/src/b.rs b/src/b.rs\n--- a/src/b.rs\n+++ b/src/b.rs\n@@ -1,1 +1,1 @@\n-x\n+y\n";
    let diffs = DiffParser::parse(text);
    assert_eq!(diffs.len(), 2);
    for d in &diffs {
        assert_eq!(d.added_lines, 1);
        assert_eq!(d.removed_lines, 1);
    }
    assert!(FileTreeBuilder::stats_fit(&diffs));
    let rows = FileTreeBuilder::build_file_tree(&diffs);
    assert_eq!(rows.len(), 3);
    assert_eq!(rows[0].name, "src");
    assert_eq!(rows[0].depth, 0);
    assert!(rows[0].is_directory);
    assert_eq!(rows[0].dir_file_count, 2);
    assert_eq!(rows[0].dir_added_lines, 2);
    assert_eq!(rows[0].dir_removed_lines, 2);
    assert_eq!(rows[1].name, "a.rs");
    assert_eq!(rows[1].depth, 1);
    assert_eq!(rows[2].name, "b.rs");
    assert_eq!(rows[2].depth, 1);

    let mut collapsed = PathSet::new();
    collapsed.insert("src".to_string());
    let rows = FileTreeBuilder::build_file_tree_with_collapsed(&diffs, &collapsed);
    assert_eq!(rows.len(), 1);
    assert_eq!(rows[0].name, "src");
    assert!(!rows[0].is_expanded);
    assert_eq!(rows[0].dir_file_count, 2);
    assert_eq!(rows[0].dir_added_lines, 2);
    assert_eq!(rows[0].dir_removed_lines, 2);
}

fn sample() -> Vec<FileDiff> {
    vec![
        file("README.md", 1, 0),
        file("src/main.rs", 10, 2),
        file("src/ui/list.rs", 3, 3),
        file("src/ui/Bar.rs", 4, 0),
        file("docs/guide.md", 0, 5),
        file("src/lib.rs", 1, 1),
        file("build.rs", 2, 2),
    ]
}

#[test]
fn directories_come_first_and_names_ignore_case() {
    let rows = FileTreeBuilder::build_file_tree(&sample());
    assert_eq!(
        names(&rows),
        vec![
            "docs",
            "docs/guide.md",
            "src",
            "src/ui",
            "src/ui/Bar.rs",
            "src/ui/list.rs",
            "src/lib.rs",
            "src/main.rs",
            "build.rs",
            "README.md",
        ]
    );
    let depths: Vec<usize> = rows.iter().map(|r| r.depth).collect();
    assert_eq!(depths, vec![0, 1, 0, 1, 2, 2, 1, 1, 0, 0]);
}

#[test]
fn order_does_not_depend_on_the_order_of_the_records() {
    let mut reversed = sample();
    reversed.reverse();
    let a = FileTreeBuilder::build_file_tree(&sample());
    let b = FileTreeBuilder::build_file_tree(&reversed);
    assert_eq!(names(&a), names(&b));
}

#[test]
fn names_that_differ_by_case_only_are_ordered_by_code_point() {
    let rows = FileTreeBuilder::build_file_tree(&[file("b.rs", 0, 0), file("a.rs", 0, 0), file("A.rs", 0, 0)]);
    assert_eq!(names(&rows), vec!["A.rs", "a.rs", "b.rs"]);
}

#[test]
fn last_child_flags_follow_the_position_among_siblings() {
    let rows = FileTreeBuilder::build_file_tree(&sample());
    let last: Vec<bool> = rows.iter().map(|r| r.is_last_child).collect();
    assert_eq!(last, vec![false, true, false, false, false, true, false, true, false, true]);
    // src/ui/Bar.rs: below `src` (not last) and `src/ui` (not last)
    assert_eq!(rows[4].parent_is_last, vec![false, false]);
    // docs/guide.md: below `docs` (not last)
    assert_eq!(rows[1].parent_is_last, vec![false]);
    assert!(rows[0].parent_is_last.is_empty());
    for row in &rows {
        assert_eq!(row.parent_is_last.len(), row.depth);
    }
}

#[test]
fn aggregation_invariant_on_a_sample() {
    let files = sample();
    let rows = FileTreeBuilder::build_file_tree(&files);
    for row in rows.iter().filter(|r| r.is_directory) {
        let prefix = format!("{}/", row.full_path);
        let below: Vec<&FileDiff> = files.iter().filter(|f| f.filename.starts_with(&prefix)).collect();
        assert_eq!(row.dir_file_count, below.len());
        assert_eq!(row.dir_added_lines, below.iter().map(|f| f.added_lines).sum::<usize>());
        assert_eq!(row.dir_removed_lines, below.iter().map(|f| f.removed_lines).sum::<usize>());
        assert!(row.file_diff.is_none());
    }
    let src = rows.iter().find(|r| r.full_path == "src").unwrap();
    assert_eq!((src.dir_file_count, src.dir_added_lines, src.dir_removed_lines), (4, 18, 6));
    let file_row = rows.iter().find(|r| r.full_path == "src/main.rs").unwrap();
    assert_eq!((file_row.dir_file_count, file_row.dir_added_lines, file_row.dir_removed_lines), (1, 10, 2));
    assert_eq!(file_row.file_diff.as_ref().unwrap().content, "content of src/main.rs");
}

#[test]
fn collapse_visibility_on_a_sample() {
    let files = sample();
    let all = FileTreeBuilder::build_file_tree(&files);
    let mut collapsed = PathSet::new();
    assert!(collapsed.insert("src".to_string()));
    let rows = FileTreeBuilder::build_file_tree_with_collapsed(&files, &collapsed);
    let expected: Vec<String> =
        names(&all).into_iter().filter(|p| !p.starts_with("src/")).collect();
    assert_eq!(names(&rows), expected);
    for row in &rows {
        let before = all.iter().find(|r| r.full_path == row.full_path).unwrap();
        assert_eq!(row.is_expanded, row.full_path != "src");
        assert_eq!(row.dir_file_count, before.dir_file_count);
        assert_eq!(row.dir_added_lines, before.dir_added_lines);
        assert_eq!(row.dir_removed_lines, before.dir_removed_lines);
        assert_eq!(row.is_last_child, before.is_last_child);
        assert_eq!(row.parent_is_last, before.parent_is_last);
        assert_eq!(row.depth, before.depth);
    }
}

#[test]
fn collapsing_an_inner_directory_keeps_its_siblings() {
    let files = sample();
    let mut collapsed = PathSet::new();
    collapsed.insert("src/ui".to_string());
    let rows = FileTreeBuilder::build_file_tree_with_collapsed(&files, &collapsed);
    assert_eq!(
        names(&rows),
        vec!["docs", "docs/guide.md", "src", "src/ui", "src/lib.rs", "src/main.rs", "build.rs", "README.md"]
    );
    let ui = &rows[3];
    assert!(!ui.is_expanded);
    assert_eq!((ui.dir_file_count, ui.dir_added_lines, ui.dir_removed_lines), (2, 7, 3));
}

#[test]
fn no_records_no_rows() {
    assert!(FileTreeBuilder::build_file_tree(&[]).is_empty());
    assert!(FileTreeBuilder::stats_fit(&[]));
}

#[test]
fn totals_that_overflow_are_refused() {
    let files = vec![file("a", usize::MAX, 0), file("b", 1, 0)];
    assert!(!FileTreeBuilder::stats_fit(&files));
    let files = vec![file("a", usize::MAX, 0), file("b", 0, usize::MAX)];
    assert!(FileTreeBuilder::stats_fit(&files));
}

#[test]
fn tree_structure_is_built_in_steps() {
    let mut root = TreeNode {
        name: String::new(),
        full_path: String::new(),
        is_directory: true,
        file_diff: None,
        children: Vec::new(),
        file_count: 0,
        added_lines: 0,
        removed_lines: 0,
    };
    FileTreeBuilder::add_file_to_tree(&mut root, "b/z.rs", Some(file("b/z.rs", 1, 2)));
    FileTreeBuilder::add_file_to_tree(&mut root, "a.rs", Some(file("a.rs", 3, 4)));
    FileTreeBuilder::add_file_to_tree(&mut root, "b/A.rs", None);
    assert_eq!(root.children.len(), 2);
    assert_eq!(root.children[0].name, "b");
    assert_eq!(root.children[0].full_path, "b");
    assert_eq!(root.children[0].children.len(), 2);
    assert_eq!(root.children[0].children[0].name, "z.rs");
    assert_eq!(root.children[1].name, "a.rs");
    assert_eq!(root.children[0].file_count, 0);

    FileTreeBuilder::sort_tree_children(&mut root);
    assert_eq!(root.children[0].children[0].name, "A.rs");
    assert_eq!(root.children[0].children[1].name, "z.rs");

    assert_eq!(FileTreeBuilder::checked_directory_stats(&root), Some((3, 4, 6)));
    let totals = FileTreeBuilder::calculate_directory_stats(&mut root);
    assert_eq!(totals, (3, 4, 6));
    assert_eq!(root.children[0].file_count, 2);
    assert_eq!(root.children[0].added_lines, 1);
    assert_eq!(root.children[0].removed_lines, 2);

    let mut rows = Vec::new();
    let mut flags = Vec::new();
    FileTreeBuilder::flatten_tree_with_collapsed(&root.children[0], false, &mut flags, &mut rows, &PathSet::new());
    assert!(flags.is_empty());
    assert_eq!(names(&rows), vec!["b", "b/A.rs", "b/z.rs"]);
    assert_eq!(rows[2].parent_is_last, vec![false]);
    assert!(rows[2].is_last_child);

    let built = FileTreeBuilder::build_tree_structure(&[file("b/z.rs", 1, 2), file("a.rs", 3, 4)]);
    assert_eq!(built.file_count, 2);
    assert_eq!(built.added_lines, 4);
    assert_eq!(built.children[0].full_path, "b");
}

#[test]
fn nested_directories_get_joined_paths() {
    let rows = FileTreeBuilder::build_file_tree(&[file("a/b/c/d.txt", 1, 1)]);
    assert_eq!(names(&rows), vec!["a", "a/b", "a/b/c", "a/b/c/d.txt"]);
    assert_eq!(rows[3].name, "d.txt");
    assert_eq!(rows[3].parent_is_last, vec![true, true, true]);
}

#[test]
fn path_set_holds_each_path_once() {
    let mut set = PathSet::new();
    assert!(set.is_empty());
    assert!(set.insert("a".to_string()));
    assert!(!set.insert("a".to_string()));
    assert!(set.insert("b".to_string()));
    assert_eq!(set.len(), 2);
    assert!(set.contains(&"a".to_string()));
    assert!(!set.contains(&"c".to_string()));
    assert!(set.remove(&"a".to_string()));
    assert!(!set.remove(&"a".to_string()));
    assert_eq!(set.to_vec(), vec!["b".to_string()]);
    assert!(!set.is_empty());
}

#[test]
fn records_are_grouped_in_the_order_of_the_tree() {
    let grouped = group_records(&sample());
    let paths: Vec<String> = grouped.iter().map(|f| f.filename.clone()).collect();
    assert_eq!(
        paths,
        vec!["docs/guide.md", "src/ui/Bar.rs", "src/ui/list.rs", "src/lib.rs", "src/main.rs", "build.rs", "README.md"]
    );
    // The rows of the files stand in the same order.
    let rows = FileTreeBuilder::build_file_tree(&sample());
    let file_rows: Vec<String> =
        rows.iter().filter(|r| !r.is_directory).map(|r| r.full_path.clone()).collect();
    assert_eq!(file_rows, paths);
    assert!(group_records(&[]).is_empty());
}

#[test]
fn grouping_puts_directories_first_and_ignores_case() {
    let order = |paths: &[&str]| -> Vec<String> {
        let files: Vec<FileDiff> = paths.iter().map(|p| file(p, 0, 0)).collect();
        group_records(&files).iter().map(|f| f.filename.clone()).collect()
    };
    // Top-level files go behind every directory.
    assert_eq!(order(&["a.rs", "z/b.rs"]), vec!["z/b.rs", "a.rs"]);
    // A nested directory goes before the files of its parent.
    assert_eq!(order(&["d/a.rs", "d/z/b.rs"]), vec!["d/z/b.rs", "d/a.rs"]);
    // Within a directory: without regard to case, then by code point.
    assert_eq!(order(&["d/b", "d/a", "d/B", "d/A"]), vec!["d/A", "d/a", "d/B", "d/b"]);
    // A file and a directory of one name: the directory first.
    assert_eq!(order(&["x", "x/y"]), vec!["x/y", "x"]);
    // Directories are ordered as files are.
    assert_eq!(order(&["b/f", "A/f", "a/f"]), vec!["A/f", "a/f", "b/f"]);
}

#[test]
fn records_with_one_path_keep_their_order() {
    let mut first = file("d/a.rs", 1, 0);
    first.content = "first".to_string();
    let mut second = file("d/a.rs", 2, 0);
    second.content = "second".to_string();
    let grouped = group_records(&[file("d/b.rs", 0, 0), first.clone(), file("c", 0, 0), second.clone()]);
    let contents: Vec<String> = grouped.iter().map(|f| f.content.clone()).collect();
    assert_eq!(contents, vec!["first", "second", "content of d/b.rs", "content of c"]);
    let grouped = group_records(&[second, first]);
    assert_eq!(grouped[0].content, "second");
    let rows = FileTreeBuilder::build_file_tree(&grouped);
    assert_eq!(rows.len(), 3);
    assert_eq!(rows[0].dir_file_count, 2);
    assert_eq!(rows[0].dir_added_lines, 3);
    assert_eq!(rows[1].file_diff.as_ref().unwrap().content, "second");
    assert_eq!(rows[2].file_diff.as_ref().unwrap().content, "first");
}

#[test]
fn rows_do_not_depend_on_the_order_of_records_with_distinct_paths() {
    let base = sample();
    let view = |files: &[FileDiff]| -> Vec<(String, usize, bool, Vec<bool>, usize, usize, usize)> {
        FileTreeBuilder::build_file_tree(files)
            .iter()
            .map(|r| {
                (
                    r.full_path.clone(),
                    r.depth,
                    r.is_last_child,
                    r.parent_is_last.clone(),
                    r.dir_file_count,
                    r.dir_added_lines,
                    r.dir_removed_lines,
                )
            })
            .collect()
    };
    let expected = view(&base);
    // Every rotation and its reverse.
    for shift in 0..base.len() {
        let mut rotated = base.clone();
        rotated.rotate_left(shift);
        assert_eq!(view(&rotated), expected);
        rotated.reverse();
        assert_eq!(view(&rotated), expected);
    }
}

#[test]
fn a_path_key_holds_components_and_their_lower_case() {
    let key = PathKey::new("Src/UI/List.rs");
    let parts: Vec<String> = key.parts.iter().map(|p| p.iter().collect()).collect();
    let keys: Vec<String> = key.keys.iter().map(|p| p.iter().collect()).collect();
    assert_eq!(parts, vec!["Src", "UI", "List.rs"]);
    assert_eq!(keys, vec!["src", "ui", "list.rs"]);
}

#[test]
fn totals_of_a_tree_that_overflow_are_found() {
    let mut root = TreeNode {
        name: String::new(),
        full_path: String::new(),
        is_directory: true,
        file_diff: None,
        children: Vec::new(),
        file_count: 0,
        added_lines: 0,
        removed_lines: 0,
    };
    FileTreeBuilder::add_file_to_tree(&mut root, "a/x", Some(file("a/x", usize::MAX, 1)));
    assert_eq!(FileTreeBuilder::checked_directory_stats(&root), Some((1, usize::MAX, 1)));
    FileTreeBuilder::add_file_to_tree(&mut root, "b/y", Some(file("b/y", 1, 1)));
    assert_eq!(FileTreeBuilder::checked_directory_stats(&root), None);
    assert_eq!(FileTreeBuilder::checked_directory_stats(&root.children[0]), Some((1, usize::MAX, 1)));
}

#[test]
fn a_directory_row_carries_no_record_and_a_file_row_its_own() {
    let files = sample();
    let mut collapsed = PathSet::new();
    collapsed.insert("src/ui".to_string());
    for rows in [
        FileTreeBuilder::build_file_tree(&files),
        FileTreeBuilder::build_file_tree_with_collapsed(&files, &collapsed),
    ] {
        for row in &rows {
            if row.is_directory {
                assert!(row.file_diff.is_none());
            } else {
                let record = row.file_diff.as_ref().unwrap();
                assert_eq!(record.filename, row.full_path);
                let given = files.iter().find(|f| f.filename == row.full_path).unwrap();
                assert_eq!(record.content, given.content);
                assert_eq!(row.dir_file_count, 1);
                assert_eq!(row.dir_added_lines, given.added_lines);
                assert_eq!(row.dir_removed_lines, given.removed_lines);
            }
        }
    }
}

#[test]
fn a_collapsed_directory_keeps_its_place() {
    let files = sample();
    let all = FileTreeBuilder::build_file_tree(&files);
    for (index, row) in all.iter().enumerate().filter(|(_, r)| r.is_directory) {
        let mut collapsed = PathSet::new();
        collapsed.insert(row.full_path.clone());
        let rows = FileTreeBuilder::build_file_tree_with_collapsed(&files, &collapsed);
        assert_eq!(names(&rows)[..index], names(&all)[..index]);
        let kept = &rows[index];
        assert_eq!(kept.full_path, row.full_path);
        assert_eq!(kept.name, row.name);
        assert_eq!(kept.depth, row.depth);
        assert!(kept.is_directory);
        assert!(row.is_expanded);
        assert!(!kept.is_expanded);
        assert_eq!(kept.dir_file_count, row.dir_file_count);
        assert_eq!(kept.dir_added_lines, row.dir_added_lines);
        assert_eq!(kept.dir_removed_lines, row.dir_removed_lines);
        assert_eq!(kept.is_last_child, row.is_last_child);
        assert_eq!(kept.parent_is_last, row.parent_is_last);
    }
}

#[test]
fn totals_count_the_records_below_whether_shown_or_not() {
    let files = vec![
        file("a/x.rs", 1, 2),
        file("a/b/y.rs", 10, 20),
        file("a/b/c/z.rs", 100, 200),
        file("ab/w.rs", 1000, 2000),
        file("a", 5, 5),
    ];
    let mut collapsed = PathSet::new();
    collapsed.insert("a/b".to_string());
    let rows = FileTreeBuilder::build_file_tree_with_collapsed(&files, &collapsed);
    assert_eq!(names(&rows), vec!["a", "a/b", "a/x.rs", "ab", "ab/w.rs", "a"]);
    for row in rows.iter().filter(|r| r.is_directory) {
        let prefix = format!("{}/", row.full_path);
        let below: Vec<&FileDiff> = files.iter().filter(|f| f.filename.starts_with(&prefix)).collect();
        assert_eq!(row.dir_file_count, below.len());
        assert_eq!(row.dir_added_lines, below.iter().map(|f| f.added_lines).sum::<usize>());
        assert_eq!(row.dir_removed_lines, below.iter().map(|f| f.removed_lines).sum::<usize>());
    }
    assert_eq!((rows[0].dir_file_count, rows[0].dir_added_lines, rows[0].dir_removed_lines), (3, 111, 222));
    assert_eq!((rows[1].dir_file_count, rows[1].dir_added_lines, rows[1].dir_removed_lines), (2, 110, 220));
}

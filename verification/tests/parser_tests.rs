use ftdv::parser::{DiffFileKey, DiffParser, FileDiff};

#[test]
fn test_parse_simple_diff() {
    let diff_content = r#"diff --git a/file1.rs b/file1.rs
index 1234567..abcdefg 100644
--- a/file1.rs
+++ b/file1.rs
@@ -1,3 +1,3 @@
 fn main() {
-    println!("Hello");
+    println!("Hello, World!");
 }
"#;

    let diffs = DiffParser::parse(diff_content);
    assert_eq!(diffs.len(), 1);
    assert_eq!(diffs[0].filename, "file1.rs");
    assert!(diffs[0].content.contains("Hello, World!"));
}

#[test]
fn test_parse_multiple_files() {
    let diff_content = r#"diff --git a/file1.rs b/file1.rs
--- a/file1.rs
+++ b/file1.rs
@@ -1,3 +1,3 @@
-old line
+new line
diff --git a/file2.rs b/file2.rs
--- a/file2.rs
+++ b/file2.rs
@@ -1,3 +1,3 @@
-another old
+another new
"#;

    let diffs = DiffParser::parse(diff_content);
    assert_eq!(diffs.len(), 2);
    assert_eq!(diffs[0].filename, "file1.rs");
    assert_eq!(diffs[1].filename, "file2.rs");
}

const SIMPLE: &str = "diff --git a/file1.rs b/file1.rs\nindex 1234567..abcdefg 100644\n--- a/file1.rs\n+++ b/file1.rs\n@@ -1,3 +1,3 @@\n fn main() {\n-    println!(\"Hello\");\n+    println!(\"Hello, World!\");\n }\n";

#[test]
fn parse_keeps_the_block_verbatim() {
    let diffs = DiffParser::parse(SIMPLE);
    assert_eq!(diffs.len(), 1);
    assert_eq!(diffs[0].content, SIMPLE);
    assert_eq!(diffs[0].added_lines, 1);
    assert_eq!(diffs[0].removed_lines, 1);
    assert_eq!(diffs[0].old_path.as_deref(), Some("a/file1.rs"));
    assert_eq!(diffs[0].new_path.as_deref(), Some("b/file1.rs"));
}

#[test]
fn parse_reads_the_identity_from_the_index_line() {
    let diffs = DiffParser::parse(SIMPLE);
    let key = diffs[0].diff_key.clone().expect("the index line gives a key");
    assert_eq!(key.from_hash, "1234567");
    assert_eq!(key.to_hash, "abcdefg");
    assert_eq!(key.file_path, "file1.rs");
    assert!(
        key == DiffFileKey {
            from_hash: "1234567".to_string(),
            to_hash: "abcdefg".to_string(),
            file_path: "file1.rs".to_string(),
        }
    );
}

#[test]
fn parse_without_index_line_leaves_identity_unset() {
    let diffs = DiffParser::parse("diff --git a/x b/x\n--- a/x\n+++ b/x\n+one\n");
    assert_eq!(diffs.len(), 1);
    assert!(diffs[0].diff_key.is_none());
}

#[test]
fn parse_of_text_without_marker_is_empty() {
    assert!(DiffParser::parse("").is_empty());
    assert!(DiffParser::parse("just some text\n+added\n-removed\n").is_empty());
}

#[test]
fn parse_drops_lines_before_the_first_marker() {
    let diffs = DiffParser::parse("noise\n+more noise\ndiff --git a/x b/x\n+one\n");
    assert_eq!(diffs.len(), 1);
    assert_eq!(diffs[0].content, "diff --git a/x b/x\n+one\n");
    assert_eq!(diffs[0].added_lines, 1);
}

#[test]
fn parse_keeps_carriage_returns_and_a_missing_final_line_feed() {
    let text = "diff --git a/x b/x\r\n--- a/x\r\n+++ b/x\r\n+one\r\n-two";
    let diffs = DiffParser::parse(text);
    assert_eq!(diffs.len(), 1);
    assert_eq!(diffs[0].content, text);
    assert_eq!(diffs[0].filename, "x");
    assert_eq!(diffs[0].old_path.as_deref(), Some("a/x"));
    assert_eq!(diffs[0].new_path.as_deref(), Some("b/x"));
    assert_eq!(diffs[0].added_lines, 1);
    assert_eq!(diffs[0].removed_lines, 1);
}

#[test]
fn parse_marker_with_too_few_words_opens_no_record() {
    let diffs = DiffParser::parse("diff --git a/x b/x\n+one\ndiff --git\n+lost\ndiff --git a/y b/y\n-two\n");
    assert_eq!(diffs.len(), 2);
    assert_eq!(diffs[0].filename, "x");
    assert_eq!(diffs[0].content, "diff --git a/x b/x\n+one\n");
    assert_eq!(diffs[1].filename, "y");
    assert_eq!(diffs[1].content, "diff --git a/y b/y\n-two\n");
}

#[test]
fn parse_takes_one_leading_a_slash_off_the_path() {
    let diffs = DiffParser::parse("diff --git a/a/a/b.rs b/a/a/b.rs\n");
    assert_eq!(diffs.len(), 1);
    assert_eq!(diffs[0].filename, "a/a/b.rs");
    assert_eq!(diffs[0].old_path.as_deref(), Some("a/a/a/b.rs"));
    assert_eq!(diffs[0].new_path.as_deref(), Some("b/a/a/b.rs"));
}

#[test]
fn a_file_in_a_directory_named_a_keeps_its_directory() {
    let text = "diff --git a/a/x.rs b/a/x.rs\nindex 1..2 100644\n--- a/a/x.rs\n+++ b/a/x.rs\n@@ -0,0 +1 @@\n+hi\n";
    let diffs = DiffParser::parse(text);
    assert_eq!(diffs.len(), 1);
    assert_eq!(diffs[0].filename, "a/x.rs");
    assert_eq!(diffs[0].old_path.as_deref(), Some("a/a/x.rs"));
    assert_eq!(diffs[0].new_path.as_deref(), Some("b/a/x.rs"));
    assert_eq!(diffs[0].diff_key.as_ref().unwrap().file_path, "a/x.rs");
    assert_eq!(diffs[0].added_lines, 1);
}

#[test]
fn a_marker_without_the_a_slash_gives_the_word_as_the_path() {
    let diffs = DiffParser::parse("diff --git x/y.rs b/x/y.rs\n");
    assert_eq!(diffs.len(), 1);
    assert_eq!(diffs[0].filename, "x/y.rs");
    assert_eq!(diffs[0].old_path.as_deref(), Some("a/x/y.rs"));
}

#[test]
fn stat_accounting_skips_the_path_labels() {
    let text = "diff --git a/x b/x\n--- a/x\n+++ b/x\n+a\n+b\n++c\n+++d\n+++\n-e\n--f\n---g\n h\n";
    let diffs = DiffParser::parse(text);
    assert_eq!(diffs[0].added_lines, 5);
    assert_eq!(diffs[0].removed_lines, 3);
    let plus = text.lines().filter(|l| l.starts_with('+') && !l.starts_with("+++ ")).count();
    let minus = text.lines().filter(|l| l.starts_with('-') && !l.starts_with("--- ")).count();
    assert_eq!(diffs[0].added_lines, plus);
    assert_eq!(diffs[0].removed_lines, minus);
}

#[test]
fn later_path_labels_replace_earlier_ones() {
    let diffs = DiffParser::parse("diff --git a/x b/x\n--- old/one\n+++ new/one\n--- old/two\n");
    assert_eq!(diffs[0].old_path.as_deref(), Some("old/two"));
    assert_eq!(diffs[0].new_path.as_deref(), Some("new/one"));
}

#[test]
fn parse_concatenation() {
    let a = "diff --git a/src/a.rs b/src/a.rs\nindex 1..2 100644\n--- a/src/a.rs\n+++ b/src/a.rs\n-old\n+new\n";
    let b = "diff --git a/b.rs b/b.rs\n--- a/b.rs\n+++ b/b.rs\n-x\n+y\n+z\n";
    let joined = format!("{}{}", a, b);
    let whole = DiffParser::parse(&joined);
    let mut parts = DiffParser::parse(a);
    parts.extend(DiffParser::parse(b));
    assert_eq!(whole.len(), parts.len());
    for (w, p) in whole.iter().zip(parts.iter()) {
        assert_eq!(w.filename, p.filename);
        assert_eq!(w.content, p.content);
        assert_eq!(w.added_lines, p.added_lines);
        assert_eq!(w.removed_lines, p.removed_lines);
        assert_eq!(w.old_path, p.old_path);
        assert_eq!(w.new_path, p.new_path);
        assert!(w.diff_key == p.diff_key);
    }
    assert_eq!(whole.len(), 2);
    assert_eq!(whole[1].added_lines, 2);
}

#[test]
fn parse_index_line_cuts_at_the_first_dots() {
    assert_eq!(
        DiffParser::parse_index_line("index abc123..def456 100644"),
        Some(("abc123".to_string(), "def456".to_string()))
    );
    assert_eq!(
        DiffParser::parse_index_line("index a..b..c"),
        Some(("a".to_string(), "b..c".to_string()))
    );
    assert_eq!(DiffParser::parse_index_line("index ..x"), Some(("".to_string(), "x".to_string())));
    assert_eq!(DiffParser::parse_index_line("index abc123 100644"), None);
    assert_eq!(DiffParser::parse_index_line("index "), None);
    assert_eq!(DiffParser::parse_index_line("indexabc..def"), None);
    assert_eq!(DiffParser::parse_index_line("  index a..b"), None);
}

#[test]
fn calculate_diff_stats_recomputes_from_the_content() {
    let mut file = FileDiff {
        filename: "x".to_string(),
        old_path: None,
        new_path: None,
        content: String::new(),
        added_lines: 7,
        removed_lines: 9,
        diff_key: None,
    };
    DiffParser::calculate_diff_stats(&mut file, "+a\n-b\n-c\n+++ label\n---\n");
    assert_eq!(file.added_lines, 1);
    assert_eq!(file.removed_lines, 3);
    assert_eq!(file.filename, "x");
}

#[test]
fn diff_stats_are_written_in_decimal() {
    let file = FileDiff {
        filename: "dir/Cargo.toml".to_string(),
        old_path: None,
        new_path: None,
        content: String::new(),
        added_lines: 120,
        removed_lines: 0,
        diff_key: None,
    };
    assert_eq!(file.diff_stats(), " +120 -0");
    assert_eq!(file.get_file_icon(), '\u{e7a8}');
    let copy = file.clone();
    assert_eq!(copy.filename, "dir/Cargo.toml");
    assert_eq!(copy.added_lines, 120);
}

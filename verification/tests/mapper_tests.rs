use aipair::diff::{parse_file_hunks, parse_hunk_header, Hunk};
use aipair::mapper::{
    map_all_threads, map_line, thread_groups, DiffOutcome, GroupDiff, LineMapping,
};
use aipair::review::{Author, Comment, Review, Thread, ThreadStatus};

fn at(line: u32) -> LineMapping {
    LineMapping { new_line: line, was_deleted: false }
}

fn deleted(line: u32) -> LineMapping {
    LineMapping { new_line: line, was_deleted: true }
}

fn hunks(diff: &str) -> Vec<Hunk> {
    parse_file_hunks(diff, "f.rs")
}

#[test]
fn test_parse_hunk_header() {
    let hunk = parse_hunk_header("@@ -10,5 +12,7 @@ some context").unwrap();
    assert_eq!(hunk.old_start, 10);
    assert_eq!(hunk.old_count, 5);
    assert_eq!(hunk.new_start, 12);
    assert_eq!(hunk.new_count, 7);
}

#[test]
fn test_parse_hunk_header_no_count() {
    let hunk = parse_hunk_header("@@ -1 +1,3 @@").unwrap();
    assert_eq!(hunk.old_start, 1);
    assert_eq!(hunk.old_count, 1);
    assert_eq!(hunk.new_start, 1);
    assert_eq!(hunk.new_count, 3);
}

#[test]
fn test_parse_file_hunks() {
    let diff = "\
diff --git a/src/main.rs b/src/main.rs
--- a/src/main.rs
+++ b/src/main.rs
@@ -5,3 +5,5 @@ fn main() {
     let x = 1;
+    let y = 2;
+    let z = 3;
     let a = 4;
     let b = 5;
";
    let hunks = parse_file_hunks(diff, "src/main.rs");
    assert_eq!(hunks.len(), 1);
    assert_eq!(hunks[0].old_start, 5);
    assert_eq!(hunks[0].old_count, 3);
    assert_eq!(hunks[0].new_start, 5);
    assert_eq!(hunks[0].new_count, 5);
}

#[test]
fn test_map_line_before_hunk() {
    // 2 lines inserted after line 10 -- line 5 is untouched
    let h = hunks(
        "\
diff --git a/f.rs b/f.rs
--- a/f.rs
+++ b/f.rs
@@ -10,3 +10,5 @@
 line 10
+new a
+new b
 line 11
 line 12
",
    );
    assert_eq!(map_line(5, &h), at(5));
}

#[test]
fn test_map_line_after_hunk() {
    // 2 lines inserted after line 10 -- line 20 shifts to 22
    let h = hunks(
        "\
diff --git a/f.rs b/f.rs
--- a/f.rs
+++ b/f.rs
@@ -10,3 +10,5 @@
 line 10
+new a
+new b
 line 11
 line 12
",
    );
    assert_eq!(map_line(20, &h), at(22));
}

#[test]
fn test_map_line_deleted_anchors_backward() {
    // Lines 11-12 deleted, line 10 survives as context
    let h = hunks(
        "\
diff --git a/f.rs b/f.rs
--- a/f.rs
+++ b/f.rs
@@ -10,3 +10,1 @@
 line 10
-line 11
-line 12
",
    );
    assert_eq!(map_line(11, &h), deleted(10));
    assert_eq!(map_line(12, &h), deleted(10));
    assert_eq!(map_line(10, &h), at(10));
}

#[test]
fn test_map_line_deleted_anchors_forward() {
    // Lines 10-11 deleted, line 12 survives as context
    let h = hunks(
        "\
diff --git a/f.rs b/f.rs
--- a/f.rs
+++ b/f.rs
@@ -10,3 +10,1 @@
-line 10
-line 11
 line 12
",
    );
    assert_eq!(map_line(10, &h), deleted(10));
    assert_eq!(map_line(11, &h), deleted(10));
}

#[test]
fn test_map_line_deleted_anchors_to_replacement() {
    // Lines 10-11 deleted, replaced by 3 new lines
    let h = hunks(
        "\
diff --git a/f.rs b/f.rs
--- a/f.rs
+++ b/f.rs
@@ -10,2 +10,3 @@
-old line 10
-old line 11
+new a
+new b
+new c
",
    );
    assert_eq!(map_line(10, &h), deleted(10));
    assert_eq!(map_line(11, &h), deleted(10));
}

#[test]
fn test_map_line_deleted_all_lines_in_hunk() {
    // All 3 lines in the hunk deleted, nothing added
    let h = hunks(
        "\
diff --git a/f.rs b/f.rs
--- a/f.rs
+++ b/f.rs
@@ -10,3 +10,0 @@
-line 10
-line 11
-line 12
",
    );
    assert_eq!(map_line(10, &h), deleted(10));
    assert_eq!(map_line(12, &h), deleted(10));
}

#[test]
fn test_map_line_context_inside_hunk() {
    // 2 lines added between context lines 10 and 11
    let h = hunks(
        "\
diff --git a/f.rs b/f.rs
--- a/f.rs
+++ b/f.rs
@@ -10,2 +10,4 @@
 line 10
+new a
+new b
 line 11
",
    );
    assert_eq!(map_line(10, &h), at(10));
    assert_eq!(map_line(11, &h), at(13));
}

#[test]
fn test_map_line_multiple_hunks() {
    // First hunk: 2 adds after line 5. Second hunk: delete lines 21-22
    let h = hunks(
        "\
diff --git a/f.rs b/f.rs
--- a/f.rs
+++ b/f.rs
@@ -5,2 +5,4 @@
 line 5
+new a
+new b
 line 6
@@ -20,3 +22,1 @@
 line 20
-line 21
-line 22
",
    );
    // Before first hunk
    assert_eq!(map_line(3, &h), at(3));
    // Between hunks: offset +2
    assert_eq!(map_line(10, &h), at(12));
    // Deleted line 21 anchors to context line 20 (new pos 22)
    assert_eq!(map_line(21, &h), deleted(22));
    // After both hunks: +2 - 2 = 0
    assert_eq!(map_line(30, &h), at(30));
}

#[test]
fn test_no_hunks() {
    assert_eq!(map_line(42, &Vec::new()), at(42));
}

#[test]
fn test_parse_file_hunks_multi_file_diff() {
    // Verify we only get hunks for the target file
    let diff = "\
diff --git a/foo.rs b/foo.rs
--- a/foo.rs
+++ b/foo.rs
@@ -1,3 +1,4 @@
 line1
+inserted
 line2
 line3
diff --git a/bar.rs b/bar.rs
--- a/bar.rs
+++ b/bar.rs
@@ -1,2 +1,3 @@
 a
+b
 c
";
    let foo_hunks = parse_file_hunks(diff, "foo.rs");
    assert_eq!(foo_hunks.len(), 1);
    assert_eq!(foo_hunks[0].old_count, 3);
    assert_eq!(foo_hunks[0].new_count, 4);

    let bar_hunks = parse_file_hunks(diff, "bar.rs");
    assert_eq!(bar_hunks.len(), 1);
    assert_eq!(bar_hunks[0].old_count, 2);
    assert_eq!(bar_hunks[0].new_count, 3);

    let missing = parse_file_hunks(diff, "nope.rs");
    assert!(missing.is_empty());
}

fn make_thread(id: &str, file: &str, start: u32, end: u32, commit: Option<&str>) -> Thread {
    Thread {
        id: id.to_string(),
        file: file.to_string(),
        line_start: start,
        line_end: end,
        status: ThreadStatus::Open,
        comments: vec![Comment {
            author: Author::User,
            text: "test".to_string(),
            timestamp: "2025-01-01T00:00:00Z".to_string(),
        }],
        created_at_commit: commit.map(|c| c.to_string()),
        created_at_revision: Some(1),
        display_line_start: None,
        display_line_end: None,
        is_displaced: false,
        is_deleted: false,
    }
}

#[test]
fn test_map_all_threads_prepended_lines() {
    // The thread sat at (5,5) under c1; three lines were prepended since.
    let diff = "\
diff --git a/test.rs b/test.rs
--- a/test.rs
+++ b/test.rs
@@ -1,3 +1,6 @@
+new line A
+new line B
+new line C
 line 1
 line 2
 line 3
";
    let threads = vec![make_thread("t1", "test.rs", 5, 5, Some("c1"))];
    let diffs = vec![GroupDiff {
        file: "test.rs".to_string(),
        from_commit: "c1".to_string(),
        outcome: DiffOutcome::Text(diff.to_string()),
    }];
    let mapped = map_all_threads(&threads, "c2", &diffs);
    assert_eq!(mapped.len(), 1);
    assert_eq!(mapped[0].thread_id, "t1");
    assert_eq!(mapped[0].position.line_start, 8);
    assert_eq!(mapped[0].position.line_end, 8);
    assert!(!mapped[0].position.is_deleted);
}

#[test]
fn test_map_all_threads_same_commit() {
    // A thread anchored at the target commit keeps its stored position.
    let threads = vec![make_thread("t1", "test.rs", 2, 3, Some("c1"))];
    let mapped = map_all_threads(&threads, "c1", &Vec::new());
    assert_eq!(mapped[0].position.line_start, 2);
    assert_eq!(mapped[0].position.line_end, 3);
    assert!(!mapped[0].position.is_deleted);
}

#[test]
fn test_map_all_threads_unanchored() {
    // A legacy thread without an anchoring commit maps verbatim.
    let threads = vec![make_thread("t1", "test.rs", 1, 1, None)];
    let mapped = map_all_threads(&threads, "c9", &Vec::new());
    assert_eq!(mapped[0].position.line_start, 1);
    assert!(!mapped[0].position.is_deleted);
}

#[test]
fn test_map_all_threads_failed_diff() {
    // A failed diff marks the group's threads deleted in place.
    let threads = vec![make_thread("t1", "gone.rs", 1, 2, Some("c1"))];
    let diffs = vec![GroupDiff {
        file: "gone.rs".to_string(),
        from_commit: "c1".to_string(),
        outcome: DiffOutcome::Failed,
    }];
    let mapped = map_all_threads(&threads, "c2", &diffs);
    assert!(mapped[0].position.is_deleted);
    assert_eq!(mapped[0].position.line_start, 1);
}

#[test]
fn test_map_all_threads_deleted_file() {
    // No hunks but a deleted-file marker: the threads are deleted.
    let diff = "\
diff --git a/test.rs b/test.rs
deleted file mode 100644
";
    let threads = vec![make_thread("t1", "test.rs", 1, 2, Some("c1"))];
    let diffs = vec![GroupDiff {
        file: "test.rs".to_string(),
        from_commit: "c1".to_string(),
        outcome: DiffOutcome::Text(diff.to_string()),
    }];
    let mapped = map_all_threads(&threads, "c2", &diffs);
    assert!(mapped[0].position.is_deleted);
}

#[test]
fn test_thread_groups_dedup() {
    let threads = vec![
        make_thread("t1", "a.rs", 1, 1, Some("c1")),
        make_thread("t2", "a.rs", 5, 5, Some("c1")),
        make_thread("t3", "b.rs", 2, 2, Some("c1")),
        make_thread("t4", "a.rs", 9, 9, Some("c2")),
    ];
    let groups = thread_groups(&threads, "c2");
    // (a.rs, c1), (b.rs, c1); the thread anchored at the target needs none.
    assert_eq!(groups.len(), 2);
    assert!(groups.iter().any(|g| g.file == "a.rs" && g.commit == "c1"));
    assert!(groups.iter().any(|g| g.file == "b.rs" && g.commit == "c1"));
}

#[test]
fn test_with_mapped_threads_displacement() {
    // A review whose one thread sat at (5,5) under c1; three lines were
    // prepended since, so the display position is 8 and the thread is
    // displaced but not deleted.
    let diff = "\
diff --git a/test.rs b/test.rs
--- a/test.rs
+++ b/test.rs
@@ -1,3 +1,6 @@
+new line A
+new line B
+new line C
 line 1
 line 2
 line 3
";
    let (review, _) = Review::get_or_create(None, "abc", "@-", "c1", "2025-01-01T00:00:00Z");
    let (review, _) = review.add_comment("test.rs", 5, 5, Author::User, "hm", "c1", "2025-01-01T00:00:00Z");
    let diffs = vec![GroupDiff {
        file: "test.rs".to_string(),
        from_commit: "c1".to_string(),
        outcome: DiffOutcome::Text(diff.to_string()),
    }];
    let enriched = review.with_mapped_threads("c2", &diffs);
    let t = &enriched.threads[0];
    assert_eq!(t.line_start, 5);
    assert_eq!(t.line_end, 5);
    assert_eq!(t.display_line_start, Some(8));
    assert_eq!(t.display_line_end, Some(8));
    assert!(t.is_displaced);
    assert!(!t.is_deleted);
}

#[test]
fn test_with_mapped_threads_deleted_line() {
    // From the shifted state, the line now at position 8 is deleted: the
    // thread is marked deleted and anchors to a surviving neighbour.
    let diff = "\
diff --git a/test.rs b/test.rs
--- a/test.rs
+++ b/test.rs
@@ -4,3 +7,2 @@
 line 4
-line 5
 line 6
";
    let (review, _) = Review::get_or_create(None, "abc", "@-", "c1", "2025-01-01T00:00:00Z");
    let (review, _) = review.add_comment("test.rs", 5, 5, Author::User, "hm", "c1", "2025-01-01T00:00:00Z");
    let diffs = vec![GroupDiff {
        file: "test.rs".to_string(),
        from_commit: "c1".to_string(),
        outcome: DiffOutcome::Text(diff.to_string()),
    }];
    let enriched = review.with_mapped_threads("c2", &diffs);
    let t = &enriched.threads[0];
    assert!(t.is_deleted);
    assert_eq!(t.display_line_start, Some(8));
}

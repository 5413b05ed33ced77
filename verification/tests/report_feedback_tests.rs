use aipair::commands::{format_review_list, format_review_show};
use aipair::dvcs::{
    interpret_bookmark_output, parse_change_line, parse_log_output, BookmarkResolution, Jj,
};
use aipair::feedback::{extract_diff_window, format_thread_feedback};
use aipair::order::{sort_reviews_desc, sort_sessions_asc, sort_timeline_asc};
use aipair::report::{compute_text_diff, list_changes_status, ChunkTag};
use aipair::review::{Author, Review, Thread};
use aipair::session::Session;
use aipair::text::{parse_u32, u64_to_string};
use aipair::timeline::{TimelineEntry, TimelineEventData};

const T0: &str = "2025-01-01T00:00:00Z";
const T1: &str = "2025-01-02T00:00:00Z";
const T2: &str = "2025-01-03T00:00:00Z";

// ---- DVCS log parsing ----

fn log_line(change_id: &str, commit_id: &str, desc: &str, empty: &str) -> String {
    format!(
        "{{\"change_id\":\"{}\",\"commit_id\":\"{}\",\"description\":\"{}\",\"author\":{{\"email\":\"a@b.c\",\"timestamp\":\"t\"}},\"committer\":{{\"email\":\"a@b.c\",\"timestamp\":\"2025-01-01T00:00:00Z\"}}}}\t{}",
        change_id, commit_id, desc, empty
    )
}

#[test]
fn test_parse_change_line_fields() {
    let line = log_line("abc", "c1", "fix things \\n", "true");
    let c = parse_change_line(&line).unwrap();
    assert_eq!(c.change_id, "abc");
    assert_eq!(c.commit_id, "c1");
    assert_eq!(c.description, "fix things");
    assert_eq!(c.author, "a@b.c");
    assert_eq!(c.timestamp, "2025-01-01T00:00:00Z");
    assert!(c.empty);
    // A line without the tab-separated suffix does not parse.
    assert!(parse_change_line("{\"change_id\":\"x\"}").is_none());
}

#[test]
fn test_parse_log_output_skips_root() {
    let text = format!(
        "{}\n{}\n\nnot json\tfalse\n",
        log_line("abc", "c1", "top", "false"),
        log_line("zzzzzzzz", "c0", "", "true"),
    );
    let changes = parse_log_output(&text);
    assert_eq!(changes.len(), 1);
    assert_eq!(changes[0].change_id, "abc");
    assert!(!changes[0].empty);
}

#[test]
fn test_interpret_bookmark_output() {
    match interpret_bookmark_output(true, " abc123 \n", "") {
        BookmarkResolution::Found(id) => assert_eq!(id, "abc123"),
        _ => panic!("expected a change id"),
    }
    assert!(matches!(
        interpret_bookmark_output(false, "", "error: revision \"main\" doesn't exist"),
        BookmarkResolution::Absent
    ));
    assert!(matches!(
        interpret_bookmark_output(false, "", "fatal: broken repo"),
        BookmarkResolution::Failed
    ));
}

#[test]
fn test_jj_diff_assembly() {
    let jj = Jj::new("/repo");
    assert_eq!(jj.repo_path(), "/repo");
    let d = jj.diff("abc", None, "raw text".to_string(), "M src/main.rs\nA new.rs\n");
    assert_eq!(d.base, "abc-");
    assert_eq!(d.raw, "raw text");
    assert_eq!(d.files.len(), 2);
    assert_eq!(d.files[0].path, "src/main.rs");
}

// ---- text diff ----

#[test]
fn test_compute_text_diff() {
    let chunks = compute_text_diff("a\nb\n", "a\nc\n");
    assert!(chunks
        .iter()
        .any(|c| c.tag == ChunkTag::Equal && c.text == "a\n"));
    assert!(chunks
        .iter()
        .any(|c| c.tag == ChunkTag::Delete && c.text == "b\n"));
    assert!(chunks
        .iter()
        .any(|c| c.tag == ChunkTag::Insert && c.text == "c\n"));
}

// ---- numbers ----

#[test]
fn test_decimal_round_trip() {
    assert_eq!(u64_to_string(0), "0");
    assert_eq!(u64_to_string(407), "407");
    assert_eq!(parse_u32("407"), Some(407));
    assert_eq!(parse_u32(""), None);
    assert_eq!(parse_u32("12a"), None);
    assert_eq!(parse_u32("99999999999"), None);
}

// ---- change list ----

fn change(id: &str, commit: &str) -> aipair::dvcs::Change {
    aipair::dvcs::Change {
        change_id: id.to_string(),
        commit_id: commit.to_string(),
        description: "d".to_string(),
        author: "a".to_string(),
        timestamp: T0.to_string(),
        empty: false,
    }
}

#[test]
fn test_list_changes_status() {
    let changes = vec![change("new1", "c9"), change("main1", "c5"), change("old1", "c2")];
    let (review, _) = Review::get_or_create(None, "new1", "@-", "c9", T0);
    let (review, _) = review.record_revision("c8", None, T0);
    let (review, _) = review.add_comment("f.rs", 1, 1, Author::User, "hm", "c8", T0);
    let reviews = vec![review];
    let main_id = "main1".to_string();
    let r = list_changes_status(changes, Some(&main_id), &reviews);
    assert_eq!(r.len(), 3);
    // Newest-first list: everything at or below the trunk bookmark is merged.
    assert!(!r[0].merged);
    assert!(r[1].merged);
    assert!(r[2].merged);
    // The reviewed change counts its open thread, its revisions, and the
    // drift between the working commit and the one the DVCS reports.
    assert_eq!(r[0].open_thread_count, 1);
    assert_eq!(r[0].revision_count, 1);
    assert!(r[0].has_pending_changes);
    assert_eq!(r[1].open_thread_count, 0);
    assert_eq!(r[1].revision_count, 0);
    assert!(!r[1].has_pending_changes);
}

// ---- sorting ----

#[test]
fn test_sort_reviews_desc() {
    let mk = |id: &str, at: &str| {
        let (r, _) = Review::get_or_create(None, id, "@-", "c", at);
        r
    };
    let sorted = sort_reviews_desc(vec![mk("a", T1), mk("b", T2), mk("c", T0)]);
    let ids: Vec<&str> = sorted.iter().map(|r| r.change_id.as_str()).collect();
    assert_eq!(ids, vec!["b", "a", "c"]);
}

#[test]
fn test_sort_sessions_asc() {
    let mk = |name: &str, at: &str| Session::new(name, "base", "main", at);
    let sorted = sort_sessions_asc(vec![mk("beta", T1), mk("alpha", T0)]);
    let names: Vec<&str> = sorted.iter().map(|s| s.name.as_str()).collect();
    assert_eq!(names, vec!["alpha", "beta"]);
}

#[test]
fn test_sort_timeline_asc() {
    let mk = |ts: &str| TimelineEntry {
        timestamp: ts.to_string(),
        data: TimelineEventData::CodeSnapshot {
            change_id: "a".to_string(),
            commit_id: "c".to_string(),
            description: "d".to_string(),
        },
    };
    let sorted = sort_timeline_asc(vec![mk(T2), mk(T0), mk(T1)]);
    let ts: Vec<&str> = sorted.iter().map(|e| e.timestamp.as_str()).collect();
    assert_eq!(ts, vec![T0, T1, T2]);
}

// ---- feedback snippets ----

fn twenty_line_diff() -> String {
    // Lines 10 and 11 modified, full context around them.
    let mut d = String::from("diff --git a/t.txt b/t.txt\n--- a/t.txt\n+++ b/t.txt\n@@ -1,20 +1,20 @@\n");
    for i in 1..=9 {
        d.push_str(&format!(" line {}\n", i));
    }
    d.push_str("-line 10\n-line 11\n+modified 10\n+modified 11\n");
    for i in 12..=20 {
        d.push_str(&format!(" line {}\n", i));
    }
    d
}

#[test]
fn test_extract_diff_window() {
    let d = twenty_line_diff();
    let window = extract_diff_window(&d, 5, 16);
    let joined = window.join("\n");
    assert!(joined.contains("+modified 10"));
    assert!(joined.contains("-line 10"));
    assert!(joined.contains("@@ -1,20 +1,20 @@"));
    assert!(!joined.contains("line 1\n"));
    assert!(!joined.contains("line 20"));
}

#[test]
fn test_feedback_snippet_window() {
    let d = twenty_line_diff();
    let thread = Thread {
        id: "t1".to_string(),
        file: "t.txt".to_string(),
        line_start: 10,
        line_end: 11,
        status: aipair::review::ThreadStatus::Open,
        comments: vec![aipair::review::Comment {
            author: Author::User,
            text: "why".to_string(),
            timestamp: T0.to_string(),
        }],
        created_at_commit: Some("c1".to_string()),
        created_at_revision: Some(1),
        display_line_start: Some(10),
        display_line_end: Some(11),
        is_displaced: false,
        is_deleted: false,
    };
    let out = format_thread_feedback(&thread, &d, "");
    // The stored range, the mapped range, and the diff lines in the window.
    assert!(out.contains("t.txt:10-11"));
    assert!(out.contains("Current position: 10-11"));
    assert!(out.contains("+modified 10"));
    assert!(out.contains("-line 10"));
    assert!(!out.contains(" line 1\n"));
    assert!(!out.contains("line 20"));
    assert!(out.contains("- **User**: why"));
}

// ---- command output ----

#[test]
fn test_format_review_list() {
    let (review, _) = Review::get_or_create(None, "abc123", "@-", "c1", T0);
    let (review, tid) = review.add_comment("f.rs", 3, 4, Author::User, "hm", "c1", T0);
    let out = format_review_list(&vec![review]);
    assert!(out.contains("abc123 - 1 open thread(s)"));
    assert!(out.contains(&format!("[{}] f.rs:3-4 (1 comment(s))", tid)));
}

#[test]
fn test_format_review_show() {
    let (review, _) = Review::get_or_create(None, "abc123", "@-", "c1", T0);
    let (review, _) = review.add_comment("f.rs", 3, 4, Author::User, "hm", "c1", T0);
    let out = format_review_show(&review, "RAW DIFF");
    assert!(out.contains("=== Diff for abc123 (base: @-) ==="));
    assert!(out.contains("RAW DIFF"));
    assert!(out.contains("=== Comments ==="));
    assert!(out.contains("(OPEN)"));
    assert!(out.contains("  user: hm"));

    let (empty_review, _) = Review::get_or_create(None, "xyz", "@-", "c1", T0);
    let out = format_review_show(&empty_review, "RAW");
    assert!(out.contains("=== No comments ==="));
}

#[test]
fn test_feedback_raw_file_fallback() {
    // The thread sits on unchanged code: the diff holds nothing near it,
    // so the raw file lines are shown with a marker on the range.
    let file: String = (1..=10).map(|i| format!("line {}\n", i)).collect();
    let thread = Thread {
        id: "t2".to_string(),
        file: "t.txt".to_string(),
        line_start: 5,
        line_end: 5,
        status: aipair::review::ThreadStatus::Open,
        comments: vec![aipair::review::Comment {
            author: Author::Agent,
            text: "done".to_string(),
            timestamp: T0.to_string(),
        }],
        created_at_commit: Some("c1".to_string()),
        created_at_revision: Some(1),
        display_line_start: Some(5),
        display_line_end: Some(5),
        is_displaced: false,
        is_deleted: false,
    };
    let out = format_thread_feedback(&thread, "", &file);
    assert!(out.contains("> 5 | line 5"));
    assert!(out.contains("  4 | line 4"));
    assert!(out.contains("  8 | line 8"));
    assert!(!out.contains("line 9"));
    assert!(out.contains("- **Agent**: done"));
}

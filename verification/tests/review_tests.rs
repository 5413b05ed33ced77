use aipair::gate::evaluate_merge;
use aipair::review::{Author, Review, StoreError, ThreadStatus};

const T0: &str = "2025-01-01T00:00:00Z";
const T1: &str = "2025-01-01T00:01:00Z";

#[test]
fn test_create_and_get_review() {
    let (review, created) = Review::get_or_create(None, "abc123", "@-", "c1", T0);
    assert!(created);
    assert_eq!(review.change_id, "abc123");
    assert_eq!(review.base, "@-");
    assert!(review.threads.is_empty());
    assert_eq!(review.working_commit_id.as_deref(), Some("c1"));
}

#[test]
fn test_get_or_create_idempotent_state() {
    let (first, _) = Review::get_or_create(None, "abc123", "@-", "c1", T0);
    let snapshot = format!("{:?}", first);
    let (second, changed) = Review::get_or_create(Some(first), "abc123", "@-", "c2", T1);
    assert!(!changed);
    assert_eq!(format!("{:?}", second), snapshot);
}

#[test]
fn test_add_comment_creates_thread() {
    let (review, _) = Review::get_or_create(None, "abc123", "@-", "c1", T0);
    let (review, thread_id) =
        review.add_comment("src/main.rs", 10, 15, Author::User, "This looks wrong", "c1", T0);

    assert_eq!(review.threads.len(), 1);
    assert_eq!(review.threads[0].id, thread_id);
    assert_eq!(review.threads[0].comments.len(), 1);
    assert_eq!(review.threads[0].comments[0].text, "This looks wrong");
    assert_eq!(review.threads[0].created_at_commit.as_deref(), Some("c1"));
}

#[test]
fn test_add_comment_same_range_appends() {
    let (review, _) = Review::get_or_create(None, "abc123", "@-", "c1", T0);
    let (review, t1) =
        review.add_comment("src/main.rs", 10, 15, Author::User, "first", "c1", T0);
    let (review, t2) =
        review.add_comment("src/main.rs", 10, 15, Author::User, "second", "c1", T1);
    assert_eq!(t1, t2);
    assert_eq!(review.threads.len(), 1);
    assert_eq!(review.threads[0].comments.len(), 2);

    // A different range opens a new thread.
    let (review, t3) = review.add_comment("src/main.rs", 20, 21, Author::User, "other", "c1", T1);
    assert_ne!(t1, t3);
    assert_eq!(review.threads.len(), 2);
}

#[test]
fn test_reply_to_thread() {
    let (review, _) = Review::get_or_create(None, "abc123", "@-", "c1", T0);
    let (review, thread_id) =
        review.add_comment("src/main.rs", 10, 15, Author::User, "This looks wrong", "c1", T0);

    let review = review
        .reply_to_thread(&thread_id, Author::Agent, "Fixed it!", T1)
        .unwrap();

    assert_eq!(review.threads[0].comments.len(), 2);
    assert_eq!(review.threads[0].comments[1].author, Author::Agent);
}

#[test]
fn test_resolve_thread() {
    let (review, _) = Review::get_or_create(None, "abc123", "@-", "c1", T0);
    let (review, thread_id) =
        review.add_comment("src/main.rs", 10, 15, Author::User, "This looks wrong", "c1", T0);

    let review = review.resolve_thread(&thread_id).unwrap();
    assert_eq!(review.threads[0].status, ThreadStatus::Resolved);
}

#[test]
fn test_resolve_twice_idempotent() {
    let (review, _) = Review::get_or_create(None, "abc123", "@-", "c1", T0);
    let (review, tid) = review.add_comment("f.rs", 1, 1, Author::User, "hm", "c1", T0);
    let once = review.resolve_thread(&tid).unwrap();
    let snapshot = format!("{:?}", once);
    let twice = once.resolve_thread(&tid).unwrap();
    assert_eq!(format!("{:?}", twice), snapshot);

    let reopened = twice.reopen_thread(&tid).unwrap();
    let snapshot = format!("{:?}", reopened);
    let again = reopened.reopen_thread(&tid).unwrap();
    assert_eq!(format!("{:?}", again), snapshot);
    assert_eq!(again.threads[0].status, ThreadStatus::Open);
}

#[test]
fn test_thread_prefix_resolution() {
    let (review, _) = Review::get_or_create(None, "abc123", "@-", "c1", T0);
    let (review, _) = review.add_comment_with_id("f.rs", 1, 1, Author::User, "a", "c1", "aaa11111", T0);
    let (review, _) = review.add_comment_with_id("f.rs", 2, 2, Author::User, "b", "c1", "aaa22222", T0);

    // Ambiguous prefix.
    let err = review.clone().reply_to_thread("aaa", Author::User, "x", T1);
    assert!(matches!(err, Err(StoreError::Ambiguous)));
    // Unknown prefix.
    let err = review.clone().reply_to_thread("zzz", Author::User, "x", T1);
    assert!(matches!(err, Err(StoreError::NotFound)));
    // Unique prefix lands on its thread.
    let ok = review.reply_to_thread("aaa1", Author::User, "x", T1).unwrap();
    assert_eq!(ok.threads[0].comments.len(), 2);
    assert_eq!(ok.threads[1].comments.len(), 1);
}

#[test]
fn test_pending_revision_read_path() {
    // A persisted document holds no pending revision.
    let (review, _) = Review::get_or_create(None, "abc123", "@-", "c1", T0);
    let (review, number) = review.record_revision("c1", Some("first".to_string()), T0);
    assert_eq!(number, 1);
    assert!(review.revisions.iter().all(|r| !r.is_pending));

    // The read path appends exactly one pending revision, last, when the
    // DVCS reports a newer commit.
    let enriched = review.clone().with_pending_revision("c2", T1);
    assert_eq!(enriched.revisions.len(), 2);
    assert!(enriched.revisions[1].is_pending);
    assert_eq!(enriched.revisions[1].number, 2);
    assert_eq!(
        enriched.revisions.iter().filter(|r| r.is_pending).count(),
        1
    );

    // No newer commit: nothing is appended.
    let same = review.with_pending_revision("c1", T1);
    assert_eq!(same.revisions.len(), 1);
    assert!(!same.revisions[0].is_pending);

    // With no revisions recorded at all, the pending revision is number 1.
    let (fresh, _) = Review::get_or_create(None, "zzz", "@-", "c5", T0);
    let enriched = fresh.with_pending_revision("c5", T1);
    assert_eq!(enriched.revisions.len(), 1);
    assert!(enriched.revisions[0].is_pending);
    assert_eq!(enriched.revisions[0].number, 1);
}

#[test]
fn test_merge_gate_open_threads() {
    let (review, _) = Review::get_or_create(None, "abcdef123456", "@-", "c1", T0);
    let (review, _) = review.record_revision("c1", None, T0);
    let (review, _) = review.add_comment("f.rs", 1, 1, Author::User, "look", "c1", T0);

    let d = evaluate_merge("abcdef123456", None, "hello", "c1", Some(&review), false);
    assert!(!d.success);
    assert!(d.message.contains("open thread"));

    let d = evaluate_merge("abcdef123456", None, "hello", "c1", Some(&review), true);
    assert!(d.success);
    assert_eq!(d.message, "Merged: main now at abcdef12");
}

#[test]
fn test_merge_gate_already_at_main() {
    let main_id = "abc".to_string();
    let d = evaluate_merge("abc", Some(&main_id), "hello", "c1", None, true);
    assert!(!d.success);
    assert_eq!(d.message, "Change is already at main");
}

#[test]
fn test_merge_gate_empty_description() {
    let d = evaluate_merge("abc", None, "   ", "c1", None, false);
    assert!(!d.success);
    assert!(d.message.contains("commit message is empty"));
}

#[test]
fn test_merge_gate_pending_changes() {
    // No recorded revision counts as pending work.
    let (review, _) = Review::get_or_create(None, "abc", "@-", "c1", T0);
    let d = evaluate_merge("abc", None, "hello", "c1", Some(&review), false);
    assert!(!d.success);
    assert!(d.message.contains("pending changes"));

    // A recorded revision for an older commit is pending too.
    let (review, _) = review.record_revision("c1", None, T0);
    let d = evaluate_merge("abc", None, "hello", "c2", Some(&review), false);
    assert!(!d.success);
    assert!(d.message.contains("pending changes"));

    // Recorded and clean: the merge may proceed.
    let d = evaluate_merge("abc", None, "hello", "c1", Some(&review), false);
    assert!(d.success);
}

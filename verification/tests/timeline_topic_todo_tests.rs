use aipair::timeline::{
    chat_log_dir, filter_entries, parse_claude_session_line, ChatAuthor, TimelineEntry,
    TimelineEventData, TimelineFilter,
};
use aipair::todo::TodoTree;
use aipair::topic::{
    find_topic_for_change, resolve_change_in_set, slugify, Topic, TopicStatus,
};

const T0: &str = "2025-01-01T00:00:00Z";

// ---- timeline ----

#[test]
fn test_parse_claude_user_message() {
    let line = r#"{"type":"user","timestamp":"2025-01-15T10:00:00Z","message":{"content":"Hello world"}}"#;
    let entry = parse_claude_session_line(line, "test-session", T0).unwrap();
    match entry.data {
        TimelineEventData::ChatMessage { author, text, .. } => {
            assert_eq!(author, ChatAuthor::User);
            assert_eq!(text, "Hello world");
        }
        _ => panic!("Expected ChatMessage"),
    }
    assert_eq!(entry.timestamp, "2025-01-15T10:00:00Z");
}

#[test]
fn test_parse_claude_assistant_message() {
    let line = r#"{"type":"assistant","timestamp":"2025-01-15T10:01:00Z","message":{"content":[{"type":"text","text":"Sure, I can help."},{"type":"tool_use","name":"Read","input":{}}]}}"#;
    let entry = parse_claude_session_line(line, "test-session", T0).unwrap();
    match entry.data {
        TimelineEventData::ChatMessage { author, text, .. } => {
            assert_eq!(author, ChatAuthor::Agent);
            assert_eq!(text, "Sure, I can help.");
        }
        _ => panic!("Expected ChatMessage"),
    }
}

#[test]
fn test_skip_sidechain() {
    let line = r#"{"type":"user","timestamp":"2025-01-15T10:00:00Z","isSidechain":true,"message":{"content":"test"}}"#;
    assert!(parse_claude_session_line(line, "s", T0).is_none());
}

#[test]
fn test_skip_system_type() {
    let line = r#"{"type":"system","timestamp":"2025-01-15T10:00:00Z","message":"init"}"#;
    assert!(parse_claude_session_line(line, "s", T0).is_none());
}

#[test]
fn test_filter_by_type() {
    let entries = vec![
        TimelineEntry {
            timestamp: "2025-01-01T00:00:00Z".to_string(),
            data: TimelineEventData::ReviewComment {
                change_id: "abc".to_string(),
                thread_id: "t1".to_string(),
                file: "f.rs".to_string(),
                line_start: 1,
                line_end: 1,
                text: "hi".to_string(),
            },
        },
        TimelineEntry {
            timestamp: "2025-01-01T00:01:00Z".to_string(),
            data: TimelineEventData::ChatMessage {
                session_id: "s1".to_string(),
                author: ChatAuthor::User,
                text: "hello".to_string(),
            },
        },
    ];
    let filter = TimelineFilter {
        since: None,
        until: None,
        change_id: None,
        event_type: Some("ChatMessage".to_string()),
    };
    let entries = filter_entries(entries, &filter);
    assert_eq!(entries.len(), 1);
}

#[test]
fn test_filter_by_window_and_change() {
    let mk = |ts: &str, id: &str| TimelineEntry {
        timestamp: ts.to_string(),
        data: TimelineEventData::CodeSnapshot {
            change_id: id.to_string(),
            commit_id: "c".to_string(),
            description: "d".to_string(),
        },
    };
    let entries = vec![
        mk("2025-01-01T00:00:00Z", "a"),
        mk("2025-01-02T00:00:00Z", "a"),
        mk("2025-01-03T00:00:00Z", "b"),
    ];
    let filter = TimelineFilter {
        since: Some("2025-01-02T00:00:00Z".to_string()),
        until: Some("2025-01-03T00:00:00Z".to_string()),
        change_id: Some("a".to_string()),
        event_type: None,
    };
    let kept = filter_entries(entries, &filter);
    assert_eq!(kept.len(), 1);
    assert_eq!(kept[0].timestamp, "2025-01-02T00:00:00Z");
}

#[test]
fn test_chat_log_dir() {
    let dir = chat_log_dir("/home/u/logs/projects", "/Users/jelle/hack/aipair");
    assert_eq!(dir, "/home/u/logs/projects/-Users-jelle-hack-aipair");
}

// ---- topics ----

#[test]
fn test_slugify() {
    assert_eq!(slugify("Fix auth flow"), "fix-auth-flow");
    assert_eq!(slugify("  Multiple   Spaces  "), "multiple-spaces");
    assert_eq!(slugify("kebab-case"), "kebab-case");
}

#[test]
fn test_create_and_get_topic() {
    let topic = Topic::new("auth-flow", "Fix auth flow", "base123", T0);
    assert_eq!(topic.id, "auth-flow");
    assert_eq!(topic.name, "Fix auth flow");
    assert_eq!(topic.base, "base123");
    assert!(topic.changes.is_empty());
    assert_eq!(topic.status, TopicStatus::Active);
}

#[test]
fn test_add_and_remove_changes() {
    let topic = Topic::new("auth-flow", "Fix auth flow", "base123", T0);
    let topic = topic.add_changes(&vec!["change1".to_string(), "change2".to_string()]);
    assert_eq!(topic.changes.len(), 2);
    assert!(topic.changes.contains(&"change1".to_string()));

    let topic = topic.remove_changes(&vec!["change1".to_string()]).unwrap();
    assert_eq!(topic.changes.len(), 1);
    assert!(!topic.changes.contains(&"change1".to_string()));
}

#[test]
fn test_single_topic_per_change_enforcement() {
    let a = Topic::new("topic-a", "Topic A", "base1", T0);
    let b = Topic::new("topic-b", "Topic B", "base2", T0);
    let a = a.add_changes(&vec!["change1".to_string()]);

    // The change already belongs to topic-a, so topic-b may not take it.
    let owner = find_topic_for_change(&vec![a, b], "change1");
    assert_eq!(owner, Some("topic-a".to_string()));
    assert_ne!(owner.as_deref(), Some("topic-b"));
}

#[test]
fn test_finish_topic() {
    let topic = Topic::new("auth-flow", "Fix auth flow", "base123", T0);
    let topic = topic.finish();
    assert_eq!(topic.status, TopicStatus::Finished);
}

#[test]
fn test_find_topic_for_change() {
    let topic = Topic::new("auth-flow", "Fix auth flow", "base123", T0);
    let topic = topic.add_changes(&vec!["abcdef123456".to_string()]);
    let topics = vec![topic];

    // Exact match
    assert_eq!(
        find_topic_for_change(&topics, "abcdef123456"),
        Some("auth-flow".to_string())
    );
    // Prefix match
    assert_eq!(
        find_topic_for_change(&topics, "abcdef"),
        Some("auth-flow".to_string())
    );
    // No match
    assert_eq!(find_topic_for_change(&topics, "unknown"), None);
}

#[test]
fn test_remove_changes_by_prefix() {
    let topic = Topic::new("auth-flow", "Fix auth flow", "base123", T0);
    let topic = topic.add_changes(&vec![
        "abcdef123456".to_string(),
        "xyz789000000".to_string(),
    ]);

    // Remove by prefix
    let topic = topic.remove_changes(&vec!["abcdef".to_string()]).unwrap();
    assert_eq!(topic.changes.len(), 1);
    assert!(!topic.changes.contains(&"abcdef123456".to_string()));
    assert!(topic.changes.contains(&"xyz789000000".to_string()));
}

#[test]
fn test_remove_nonexistent_change_fails() {
    let topic = Topic::new("auth-flow", "Fix auth flow", "base123", T0);
    let result = topic.remove_changes(&vec!["nonexistent".to_string()]);
    assert!(result.is_err());
}

#[test]
fn test_single_topic_enforcement_with_prefix() {
    let a = Topic::new("topic-a", "Topic A", "base1", T0);
    let b = Topic::new("topic-b", "Topic B", "base2", T0);
    let a = a.add_changes(&vec!["abcdef123456".to_string()]);

    let owner = find_topic_for_change(&vec![a, b], "abcdef123456");
    assert_eq!(owner, Some("topic-a".to_string()));
}

#[test]
fn test_resolve_ambiguous_prefix_in_set() {
    let changes = vec!["abc111".to_string(), "abc222".to_string()];
    assert_eq!(resolve_change_in_set(&changes, "abc"), None);
    assert_eq!(
        resolve_change_in_set(&changes, "abc1"),
        Some("abc111".to_string())
    );
    assert_eq!(
        resolve_change_in_set(&changes, "abc111"),
        Some("abc111".to_string())
    );
}

// ---- todo tree ----

fn item_text<'a>(tree: &'a TodoTree, id: &str) -> &'a str {
    tree.items
        .iter()
        .find(|i| i.id == id)
        .map(|i| i.text.as_str())
        .unwrap()
}

fn item_checked(tree: &TodoTree, id: &str) -> bool {
    tree.items.iter().find(|i| i.id == id).unwrap().checked
}

fn item_children<'a>(tree: &'a TodoTree, id: &str) -> &'a Vec<String> {
    &tree.items.iter().find(|i| i.id == id).unwrap().children
}

#[test]
fn test_add_item() {
    let tree = TodoTree::default();
    let (tree, id) = tree.add_item("First task", None, None, T0).unwrap();
    assert_eq!(tree.root_ids.len(), 1);
    assert_eq!(item_text(&tree, &id), "First task");
    assert!(!item_checked(&tree, &id));
}

#[test]
fn test_add_child_item() {
    let tree = TodoTree::default();
    let (tree, parent_id) = tree.add_item("Parent", None, None, T0).unwrap();
    let (tree, child_id) = tree.add_item("Child", Some(&parent_id), None, T0).unwrap();

    assert_eq!(tree.root_ids.len(), 1);
    assert_eq!(item_children(&tree, &parent_id), &vec![child_id.clone()]);
    assert_eq!(item_text(&tree, &child_id), "Child");
}

#[test]
fn test_add_item_after() {
    let tree = TodoTree::default();
    let (tree, id1) = tree.add_item("First", None, None, T0).unwrap();
    let (tree, id2) = tree.add_item("Third", None, Some(&id1), T0).unwrap();
    let (tree, id3) = tree.add_item("Second", None, Some(&id1), T0).unwrap();

    assert_eq!(tree.root_ids, vec![id1, id3, id2]);
}

#[test]
fn test_update_item() {
    let tree = TodoTree::default();
    let (tree, id) = tree.add_item("Original", None, None, T0).unwrap();
    let tree = tree
        .update_item(&id, Some("Updated".to_string()), None)
        .unwrap();
    assert_eq!(item_text(&tree, &id), "Updated");
}

#[test]
fn test_toggle_item() {
    let tree = TodoTree::default();
    let (tree, id) = tree.add_item("Task", None, None, T0).unwrap();
    assert!(!item_checked(&tree, &id));

    let (tree, checked) = tree.toggle_item(&id).unwrap();
    assert!(checked);
    assert!(item_checked(&tree, &id));

    let (tree, checked) = tree.toggle_item(&id).unwrap();
    assert!(!checked);
    assert!(!item_checked(&tree, &id));
}

#[test]
fn test_delete_item_with_children() {
    let tree = TodoTree::default();
    let (tree, parent_id) = tree.add_item("Parent", None, None, T0).unwrap();
    let (tree, child_id) = tree.add_item("Child", Some(&parent_id), None, T0).unwrap();

    let (tree, removed) = tree.delete_item(&parent_id);
    assert!(tree.root_ids.is_empty());
    assert!(!tree.items.iter().any(|i| i.id == parent_id));
    assert!(!tree.items.iter().any(|i| i.id == child_id));
    assert!(removed.contains(&parent_id));
}

#[test]
fn test_move_item() {
    let tree = TodoTree::default();
    let (tree, id1) = tree.add_item("Item 1", None, None, T0).unwrap();
    let (tree, id2) = tree.add_item("Item 2", None, Some(&id1), T0).unwrap();

    // Move id2 under id1 as a child
    let tree = tree.move_item(&id2, Some(&id1), None).unwrap();
    assert_eq!(tree.root_ids, vec![id1.clone()]);
    assert_eq!(item_children(&tree, &id1), &vec![id2]);
}

#[test]
fn test_sync_topics() {
    let tree = TodoTree::default();
    let topic = Topic {
        id: "auth-flow".to_string(),
        name: "Fix auth flow".to_string(),
        base: "base123".to_string(),
        changes: Vec::new(),
        status: TopicStatus::Active,
        created_at: T0.to_string(),
    };
    let (tree, changed) = tree.sync_topics(&vec![topic], T0);
    assert!(changed);
    assert_eq!(tree.root_ids.len(), 1);

    let topic_item = tree
        .items
        .iter()
        .find(|i| i.topic_id.as_deref() == Some("auth-flow"))
        .unwrap();
    assert_eq!(topic_item.text, "Fix auth flow");
    assert!(!topic_item.checked);

    // Sync again with finished topic
    let topic = Topic {
        id: "auth-flow".to_string(),
        name: "Fix auth flow".to_string(),
        base: "base123".to_string(),
        changes: Vec::new(),
        status: TopicStatus::Finished,
        created_at: T0.to_string(),
    };
    let (tree, changed) = tree.sync_topics(&vec![topic], T0);
    assert!(changed);

    let topic_item = tree
        .items
        .iter()
        .find(|i| i.topic_id.as_deref() == Some("auth-flow"))
        .unwrap();
    assert!(topic_item.checked);
}

use aipair::session::{
    default_base_bookmark, reparent_children, validate_session_name, ChangePair, Session,
    SessionStatus, SessionStore,
};

const T0: &str = "2025-01-01T00:00:00Z";

fn make_session(name: &str, base_bookmark: &str, status: SessionStatus) -> Session {
    let s = Session::new(name, "abc123", base_bookmark, T0);
    match status {
        SessionStatus::Active => s,
        SessionStatus::Merged => s.mark_merged(),
    }
}

#[test]
fn test_session_new_document() {
    let s = Session::new("feat", "main", "main", T0);
    assert_eq!(s.name, "feat");
    assert_eq!(s.clone_path, ".aipair/sessions/feat/repo");
    assert_eq!(s.bookmark, "session/feat");
    assert_eq!(s.base_bookmark, "main");
    assert_eq!(s.status, SessionStatus::Active);
    assert!(s.pushes.is_empty());
    assert!(s.changes.is_empty());
}

#[test]
fn test_reparent_children_on_merge() {
    // Set up: parent based on main, child based on parent, grandchild based on child
    let parent = make_session("parent", "main", SessionStatus::Active);
    let child = make_session("child", "session/parent", SessionStatus::Active);
    let grandchild = make_session("grandchild", "session/child", SessionStatus::Active);

    // Simulate merging parent: mark as merged and re-parent children
    let merged_bookmark = parent.bookmark.clone();
    let new_base = parent.base_bookmark.clone();
    let parent = parent.mark_merged();
    let sessions = reparent_children(
        vec![parent, child, grandchild],
        &merged_bookmark,
        &new_base,
    );

    // child should now point to main (was session/parent)
    let child = sessions.iter().find(|s| s.name == "child").unwrap();
    assert_eq!(child.base_bookmark, "main");

    // grandchild should still point to session/child (not directly affected)
    let grandchild = sessions.iter().find(|s| s.name == "grandchild").unwrap();
    assert_eq!(grandchild.base_bookmark, "session/child");

    // the merged session itself stays merged
    let parent = sessions.iter().find(|s| s.name == "parent").unwrap();
    assert_eq!(parent.status, SessionStatus::Merged);
}

#[test]
fn test_reparent_does_not_affect_merged_sessions() {
    let parent = make_session("parent", "main", SessionStatus::Active);
    // A merged session that happened to be based on parent
    let old_child = make_session("old-child", "session/parent", SessionStatus::Merged);

    let merged_bookmark = parent.bookmark.clone();
    let new_base = parent.base_bookmark.clone();
    let parent = parent.mark_merged();
    let sessions = reparent_children(vec![parent, old_child], &merged_bookmark, &new_base);

    // old-child should NOT be re-parented (it's merged, not active)
    let old_child = sessions.iter().find(|s| s.name == "old-child").unwrap();
    assert_eq!(old_child.base_bookmark, "session/parent");
}

#[test]
fn test_record_push_and_pushed_clean() {
    let s = Session::new("feat", "abc123", "main", T0);
    assert!(!s.pushed_clean(&Vec::new()));

    let stack = vec![ChangePair {
        change_id: "ch1".to_string(),
        commit_id: "co1".to_string(),
    }];
    let s = s.record_push(
        "P1",
        "ch1",
        "co1",
        stack,
        vec!["ch1".to_string()],
        T0,
    );
    assert_eq!(s.pushes.len(), 1);
    assert_eq!(s.pushes[0].summary, "P1");
    assert_eq!(s.changes, vec!["ch1".to_string()]);

    // The live stack matches the push, in any order.
    let live = vec![ChangePair {
        change_id: "ch1".to_string(),
        commit_id: "co1".to_string(),
    }];
    assert!(s.pushed_clean(&live));

    // An amended commit makes the clone dirty again.
    let live = vec![ChangePair {
        change_id: "ch1".to_string(),
        commit_id: "co2".to_string(),
    }];
    assert!(!s.pushed_clean(&live));
}

#[test]
fn test_validate_session_name() {
    assert!(validate_session_name("feat-1_x"));
    assert!(validate_session_name("Feat"));
    assert!(!validate_session_name("bad name"));
    assert!(!validate_session_name("bad/name"));
}

#[test]
fn test_session_store_paths() {
    let store = SessionStore::new("/repo");
    assert_eq!(store.sessions_dir(), "/repo/.aipair/sessions");
    assert_eq!(store.session_file("feat"), "/repo/.aipair/sessions/feat.json");
    assert_eq!(default_base_bookmark(), "main");
}

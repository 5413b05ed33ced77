//! Session documents: isolated clone workspaces with a bookmark, a push
//! history, and a base they stack on. The operations here are the pure
//! document transformations behind create, push, merge and re-parenting;
//! cloning, fetching and file I/O stay with the caller.

use vstd::prelude::*;
use vstd::string::*;

use crate::text::{alnum_of, char_is_alphanumeric, str_eq};

verus! {

#[derive(Debug, Clone, PartialEq, Eq, Structural)]
pub enum SessionStatus {
    Active,
    Merged,
}

/// One `(change_id, commit_id)` pair of a pushed stack or a live view.
#[derive(Debug, Clone)]
pub struct ChangePair {
    pub change_id: String,
    pub commit_id: String,
}

/// One publication of the session's tip under its bookmark.
#[derive(Debug, Clone)]
pub struct PushEvent {
    pub summary: String,
    pub change_id: String,
    pub commit_id: String,
    pub timestamp: String,
    /// The full stack of `(change_id, commit_id)` pairs at this push.
    pub changes: Vec<ChangePair>,
}

/// The durable session document.
#[derive(Debug, Clone)]
pub struct Session {
    pub name: String,
    pub clone_path: String,
    pub bookmark: String,
    pub base_change_id: String,
    pub base_bookmark: String,
    pub status: SessionStatus,
    pub created_at: String,
    pub pushes: Vec<PushEvent>,
    pub changes: Vec<String>,
}

/// The marker file that names a clone's parent repository and bookmark.
#[derive(Debug, Clone)]
pub struct CloneMarker {
    pub session_name: String,
    pub main_repo: String,
    pub bookmark: String,
}

/// Where an operation found itself: at the trunk repository, or inside a
/// session clone whose marker points home.
pub enum SessionContext {
    MainRepo { repo_path: String },
    SessionClone { clone_root: String, marker: CloneMarker },
}

// ---- views ----

#[verifier::ext_equal]
pub ghost struct ChangePairView {
    pub change_id: Seq<char>,
    pub commit_id: Seq<char>,
}

#[verifier::ext_equal]
pub ghost struct PushEventView {
    pub summary: Seq<char>,
    pub change_id: Seq<char>,
    pub commit_id: Seq<char>,
    pub timestamp: Seq<char>,
    pub changes: Seq<ChangePairView>,
}

#[verifier::ext_equal]
pub ghost struct SessionView {
    pub name: Seq<char>,
    pub clone_path: Seq<char>,
    pub bookmark: Seq<char>,
    pub base_change_id: Seq<char>,
    pub base_bookmark: Seq<char>,
    pub status: SessionStatus,
    pub created_at: Seq<char>,
    pub pushes: Seq<PushEventView>,
    pub changes: Seq<Seq<char>>,
}

impl View for ChangePair {
    type V = ChangePairView;

    open spec fn view(&self) -> ChangePairView {
        ChangePairView { change_id: self.change_id@, commit_id: self.commit_id@ }
    }
}

impl View for PushEvent {
    type V = PushEventView;

    open spec fn view(&self) -> PushEventView {
        PushEventView {
            summary: self.summary@,
            change_id: self.change_id@,
            commit_id: self.commit_id@,
            timestamp: self.timestamp@,
            changes: self.changes@.map_values(|c: ChangePair| c@),
        }
    }
}

impl View for Session {
    type V = SessionView;

    open spec fn view(&self) -> SessionView {
        SessionView {
            name: self.name@,
            clone_path: self.clone_path@,
            bookmark: self.bookmark@,
            base_change_id: self.base_change_id@,
            base_bookmark: self.base_bookmark@,
            status: self.status,
            created_at: self.created_at@,
            pushes: self.pushes@.map_values(|p: PushEvent| p@),
            changes: self.changes@.map_values(|c: String| c@),
        }
    }
}

// ---- names and paths ----

/// The trunk bookmark sessions default to.
pub fn default_base_bookmark() -> (r: String)
    ensures
        r@ == "main"@,
{
    String::from_str("main")
}

/// A session name holds only alphanumerics, hyphens and underscores.
pub open spec fn spec_valid_session_name(name: Seq<char>) -> bool {
    forall|i: int|
        0 <= i < name.len() ==> alnum_of(#[trigger] name[i]) || name[i] == '-' || name[i] == '_'
}

/// Check a session name.
pub fn validate_session_name(name: &str) -> (r: bool)
    ensures
        r == spec_valid_session_name(name@),
{
    let n = name.unicode_len();
    let mut i: usize = 0;
    while i < n
        invariant
            0 <= i <= n,
            n == name@.len(),
            forall|j: int|
                0 <= j < i ==> alnum_of(#[trigger] name@[j]) || name@[j] == '-' || name@[j] == '_',
        decreases n - i,
    {
        let c = name.get_char(i);
        if !(char_is_alphanumeric(c) || c == '-' || c == '_') {
            return false;
        }
        i += 1;
    }
    true
}

/// The store of session documents under one trunk repository.
pub struct SessionStore {
    pub base_path: String,
}

impl SessionStore {
    pub fn new(repo_path: &str) -> (r: SessionStore)
        ensures
            r.base_path@ == repo_path@,
    {
        SessionStore { base_path: repo_path.to_owned() }
    }

    /// `<trunk>/.aipair/sessions`
    pub fn sessions_dir(&self) -> (r: String)
        ensures
            r@ == self.base_path@ + "/.aipair/sessions"@,
    {
        let mut s = self.base_path.clone();
        s.append("/.aipair/sessions");
        s
    }

    /// `<trunk>/.aipair/sessions/<name>.json`
    pub fn session_file(&self, name: &str) -> (r: String)
        ensures
            r@ == self.base_path@ + "/.aipair/sessions/"@ + name@ + ".json"@,
    {
        let mut s = self.base_path.clone();
        s.append("/.aipair/sessions/");
        s.append(name);
        s.append(".json");
        proof {
            assert(s@ =~= self.base_path@ + "/.aipair/sessions/"@ + name@ + ".json"@);
        }
        s
    }
}

/// The relative clone path of a session: `.aipair/sessions/<name>/repo`.
pub fn session_clone_path(name: &str) -> (r: String)
    ensures
        r@ == ".aipair/sessions/"@ + name@ + "/repo"@,
{
    let mut s = String::from_str(".aipair/sessions/");
    s.append(name);
    s.append("/repo");
    proof {
        assert(s@ =~= ".aipair/sessions/"@ + name@ + "/repo"@);
    }
    s
}

/// The bookmark a session publishes under: `session/<name>`.
pub fn session_bookmark(name: &str) -> (r: String)
    ensures
        r@ == "session/"@ + name@,
{
    let mut s = String::from_str("session/");
    s.append(name);
    s
}

// ---- creation ----

pub open spec fn spec_new_session(
    name: Seq<char>,
    base_change_id: Seq<char>,
    base_bookmark: Seq<char>,
    now: Seq<char>,
) -> SessionView {
    SessionView {
        name,
        clone_path: ".aipair/sessions/"@ + name + "/repo"@,
        bookmark: "session/"@ + name,
        base_change_id,
        base_bookmark,
        status: SessionStatus::Active,
        created_at: now,
        pushes: Seq::empty(),
        changes: Seq::empty(),
    }
}

impl Session {
    /// A fresh session document: active, no pushes, clone path and bookmark
    /// derived from the name.
    pub fn new(name: &str, base_change_id: &str, base_bookmark: &str, now: &str) -> (r: Session)
        ensures
            r@ == spec_new_session(name@, base_change_id@, base_bookmark@, now@),
    {
        let s = Session {
            name: name.to_owned(),
            clone_path: session_clone_path(name),
            bookmark: session_bookmark(name),
            base_change_id: base_change_id.to_owned(),
            base_bookmark: base_bookmark.to_owned(),
            status: SessionStatus::Active,
            created_at: now.to_owned(),
            pushes: Vec::new(),
            changes: Vec::new(),
        };
        proof {
            assert(s@ =~= spec_new_session(name@, base_change_id@, base_bookmark@, now@));
        }
        s
    }

    /// The clone marker the session's clone carries.
    pub fn clone_marker(&self, main_repo: &str) -> (r: CloneMarker)
        ensures
            r.session_name@ == self.name@,
            r.main_repo@ == main_repo@,
            r.bookmark@ == self.bookmark@,
    {
        CloneMarker {
            session_name: self.name.clone(),
            main_repo: main_repo.to_owned(),
            bookmark: self.bookmark.clone(),
        }
    }

    /// Record one push: append the event and replace the cached list of
    /// tracked changes.
    pub fn record_push(
        self,
        summary: &str,
        change_id: &str,
        commit_id: &str,
        stack: Vec<ChangePair>,
        change_list: Vec<String>,
        now: &str,
    ) -> (r: Session)
        ensures
            r@ =~= (SessionView {
                pushes: self@.pushes.push(
                    PushEventView {
                        summary: summary@,
                        change_id: change_id@,
                        commit_id: commit_id@,
                        timestamp: now@,
                        changes: stack@.map_values(|c: ChangePair| c@),
                    },
                ),
                changes: change_list@.map_values(|c: String| c@),
                ..self@
            }),
    {
        let mut me = self;
        let ghost s0 = me@;
        let ev = PushEvent {
            summary: summary.to_owned(),
            change_id: change_id.to_owned(),
            commit_id: commit_id.to_owned(),
            timestamp: now.to_owned(),
            changes: stack,
        };
        me.pushes.push(ev);
        me.changes = change_list;
        proof {
            assert(me@.pushes =~= s0.pushes.push(ev@));
        }
        me
    }

    /// Mark the session merged; everything else stands.
    pub fn mark_merged(self) -> (r: Session)
        ensures
            r@ =~= (SessionView { status: SessionStatus::Merged, ..self@ }),
    {
        let mut me = self;
        me.status = SessionStatus::Merged;
        me
    }
}

// ---- pushed-clean ----

pub open spec fn spec_has_pair(v: Seq<ChangePairView>, p: ChangePairView) -> bool {
    exists|i: int|
        0 <= i < v.len() && (#[trigger] v[i]).change_id == p.change_id && v[i].commit_id
            == p.commit_id
}

/// Two stacks hold the same `(change_id, commit_id)` pairs, in any order.
pub open spec fn spec_same_pairs(a: Seq<ChangePairView>, b: Seq<ChangePairView>) -> bool {
    (forall|i: int| 0 <= i < a.len() ==> spec_has_pair(b, #[trigger] a[i])) && (forall|i: int|
        0 <= i < b.len() ==> spec_has_pair(a, #[trigger] b[i]))
}

fn has_pair(v: &Vec<ChangePair>, p: &ChangePair) -> (r: bool)
    ensures
        r == spec_has_pair(v@.map_values(|c: ChangePair| c@), p@),
{
    let ghost vv = v@.map_values(|c: ChangePair| c@);
    let mut i: usize = 0;
    while i < v.len()
        invariant
            0 <= i <= v@.len(),
            vv == v@.map_values(|c: ChangePair| c@),
            forall|j: int|
                0 <= j < i ==> !((#[trigger] vv[j]).change_id == p@.change_id && vv[j].commit_id
                    == p@.commit_id),
        decreases v@.len() - i,
    {
        proof {
            assert(vv[i as int] == v@[i as int]@);
        }
        if str_eq(v[i].change_id.as_str(), p.change_id.as_str()) && str_eq(
            v[i].commit_id.as_str(),
            p.commit_id.as_str(),
        ) {
            return true;
        }
        i += 1;
    }
    false
}

fn same_pairs(a: &Vec<ChangePair>, b: &Vec<ChangePair>) -> (r: bool)
    ensures
        r == spec_same_pairs(
            a@.map_values(|c: ChangePair| c@),
            b@.map_values(|c: ChangePair| c@),
        ),
{
    let ghost av = a@.map_values(|c: ChangePair| c@);
    let ghost bv = b@.map_values(|c: ChangePair| c@);
    let mut i: usize = 0;
    while i < a.len()
        invariant
            0 <= i <= a@.len(),
            av == a@.map_values(|c: ChangePair| c@),
            bv == b@.map_values(|c: ChangePair| c@),
            forall|j: int| 0 <= j < i ==> spec_has_pair(bv, #[trigger] av[j]),
        decreases a@.len() - i,
    {
        proof {
            assert(av[i as int] == a@[i as int]@);
        }
        if !has_pair(b, &a[i]) {
            return false;
        }
        i += 1;
    }
    let mut i: usize = 0;
    while i < b.len()
        invariant
            0 <= i <= b@.len(),
            av == a@.map_values(|c: ChangePair| c@),
            bv == b@.map_values(|c: ChangePair| c@),
            forall|j: int| 0 <= j < a@.len() ==> spec_has_pair(bv, #[trigger] av[j]),
            forall|j: int| 0 <= j < i ==> spec_has_pair(av, #[trigger] bv[j]),
        decreases b@.len() - i,
    {
        proof {
            assert(bv[i as int] == b@[i as int]@);
        }
        if !has_pair(a, &b[i]) {
            return false;
        }
        i += 1;
    }
    true
}

/// Whether the clone's live stack equals the most recent push's captured
/// stack; a session that never pushed is not clean.
pub open spec fn spec_pushed_clean(s: SessionView, live: Seq<ChangePairView>) -> bool {
    s.pushes.len() > 0 && spec_same_pairs(s.pushes.last().changes, live)
}

impl Session {
    /// Does the live stack of the clone match the last push, pair for pair?
    pub fn pushed_clean(&self, live: &Vec<ChangePair>) -> (r: bool)
        ensures
            r == spec_pushed_clean(self@, live@.map_values(|c: ChangePair| c@)),
    {
        let n = self.pushes.len();
        if n == 0 {
            return false;
        }
        proof {
            assert(self@.pushes.last() == self.pushes@[n - 1]@);
        }
        same_pairs(&self.pushes[n - 1].changes, live)
    }
}

// ---- merge and re-parenting ----

/// What merging does to a child: an active session stacked on the merged
/// session's bookmark moves onto the merged session's own base.
pub open spec fn spec_reparent_one(
    s: SessionView,
    merged_bookmark: Seq<char>,
    new_base: Seq<char>,
) -> SessionView {
    if s.status == SessionStatus::Active && s.base_bookmark == merged_bookmark {
        SessionView { base_bookmark: new_base, ..s }
    } else {
        s
    }
}

/// Re-parent every active child of a merged session.
pub fn reparent_children(sessions: Vec<Session>, merged_bookmark: &str, new_base: &str) -> (r: Vec<
    Session,
>)
    ensures
        r@.len() == sessions@.len(),
        forall|i: int|
            0 <= i < r@.len() ==> (#[trigger] r@[i]@) == spec_reparent_one(
                sessions@[i]@,
                merged_bookmark@,
                new_base@,
            ),
{
    let mut v = sessions;
    let ghost s0 = v@;
    let n = v.len();
    let mut i: usize = 0;
    while i < n
        invariant
            0 <= i <= n,
            n == v@.len(),
            v@.len() == s0.len(),
            forall|j: int| i <= j < n ==> (#[trigger] v@[j]) == s0[j],
            forall|j: int|
                0 <= j < i ==> (#[trigger] v@[j]@) == spec_reparent_one(
                    s0[j]@,
                    merged_bookmark@,
                    new_base@,
                ),
        decreases n - i,
    {
        let is_active = matches!(v[i].status, SessionStatus::Active);
        let is_child = str_eq(v[i].base_bookmark.as_str(), merged_bookmark);
        if is_active && is_child {
            let ghost pre = v@;
            let s = &mut v[i];
            s.base_bookmark = new_base.to_owned();
            proof {
                assert(v@ == pre.update(i as int, v@[i as int]));
                assert(v@[i as int]@ =~= SessionView { base_bookmark: new_base@, ..s0[i as int]@ });
                assert(forall|j: int| 0 <= j < n && j != i ==> (#[trigger] v@[j]) == pre[j]);
            }
        }
        i += 1;
    }
    v
}

/// After a merge, the merged session reads `merged`, and no active session
/// keeps the merged session's bookmark as its base: every such child now
/// stacks on the merged session's own base. (A session's base never names
/// its own bookmark.)
pub proof fn lemma_merge_reparents_children(
    sessions: Seq<SessionView>,
    merged: SessionView,
    new_base: Seq<char>,
)
    requires
        new_base != merged.bookmark,
    ensures
        ({
            let after = sessions.map_values(
                |s: SessionView| spec_reparent_one(s, merged.bookmark, new_base),
            );
            forall|i: int|
                0 <= i < after.len() && (#[trigger] after[i]).status == SessionStatus::Active
                    ==> after[i].base_bookmark != merged.bookmark
        }),
        ({
            let m = SessionView { status: SessionStatus::Merged, ..merged };
            m.status == SessionStatus::Merged && spec_reparent_one(
                m,
                merged.bookmark,
                new_base,
            ) == m
        }),
{
    let after = sessions.map_values(
        |s: SessionView| spec_reparent_one(s, merged.bookmark, new_base),
    );
    assert forall|i: int|
        0 <= i < after.len() && (#[trigger] after[i]).status
            == SessionStatus::Active implies after[i].base_bookmark != merged.bookmark by {
        assert(after[i] == spec_reparent_one(sessions[i], merged.bookmark, new_base));
    };
}

} // verus!

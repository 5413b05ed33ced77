//! Review documents: one durable record per change, holding its recorded
//! revisions and its positioned comment threads. All operations here are
//! pure document transformations; reading and writing the JSON files is the
//! caller's business.

use vstd::prelude::*;
use vstd::string::*;

use crate::ids::fresh_id;
use crate::text::str_eq;

verus! {

/// Who wrote a comment: the user, or the agent the review addresses.
#[derive(Debug, Clone, PartialEq, Eq, Structural)]
pub enum Author {
    User,
    Agent,
}

#[derive(Debug, Clone, PartialEq, Eq, Structural)]
pub enum ThreadStatus {
    Open,
    Resolved,
}

/// Errors of the document stores.
#[derive(Debug, Clone, PartialEq, Eq, Structural)]
pub enum StoreError {
    NotFound,
    Ambiguous,
}

#[derive(Debug, Clone)]
pub struct Comment {
    pub author: Author,
    pub text: String,
    /// RFC3339 timestamp.
    pub timestamp: String,
}

/// A snapshot of the change recorded by the review system, numbered from 1.
#[derive(Debug, Clone)]
pub struct Revision {
    pub number: u32,
    pub commit_id: String,
    pub created_at: String,
    pub description: Option<String>,
    /// Never true in a persisted document; set only on the synthetic
    /// revision appended at read time.
    pub is_pending: bool,
}

/// A positioned comment chain. The `display_*` and `is_*` fields are derived
/// at read time by the line mapper and are never persisted.
#[derive(Debug, Clone)]
pub struct Thread {
    pub id: String,
    pub file: String,
    pub line_start: u32,
    pub line_end: u32,
    pub status: ThreadStatus,
    pub comments: Vec<Comment>,
    pub created_at_commit: Option<String>,
    pub created_at_revision: Option<u32>,
    pub display_line_start: Option<u32>,
    pub display_line_end: Option<u32>,
    pub is_displaced: bool,
    pub is_deleted: bool,
}

/// The durable review document of one change.
#[derive(Debug, Clone)]
pub struct Review {
    pub change_id: String,
    pub base: String,
    pub created_at: String,
    pub working_commit_id: Option<String>,
    pub revisions: Vec<Revision>,
    pub threads: Vec<Thread>,
}

/// The store of review documents under one repository: one JSON file per
/// change. The paths are built here; reading and writing them is the
/// caller's business.
pub struct ReviewStore {
    pub base_path: String,
}

impl ReviewStore {
    pub fn new(repo_path: &str) -> (r: ReviewStore)
        ensures
            r.base_path@ == repo_path@ + "/.aipair/reviews"@,
    {
        let mut s = repo_path.to_owned();
        s.append("/.aipair/reviews");
        ReviewStore { base_path: s }
    }

    /// `<reviews>/<change_id>.json`
    pub fn review_path(&self, change_id: &str) -> (r: String)
        ensures
            r@ == self.base_path@ + "/"@ + change_id@ + ".json"@,
    {
        let mut s = self.base_path.clone();
        s.append("/");
        s.append(change_id);
        s.append(".json");
        proof {
            assert(s@ =~= self.base_path@ + "/"@ + change_id@ + ".json"@);
        }
        s
    }
}

// ---- mathematical views ----

#[verifier::ext_equal]
pub ghost struct CommentView {
    pub author: Author,
    pub text: Seq<char>,
    pub timestamp: Seq<char>,
}

#[verifier::ext_equal]
pub ghost struct RevisionView {
    pub number: int,
    pub commit_id: Seq<char>,
    pub created_at: Seq<char>,
    pub description: Option<Seq<char>>,
    pub is_pending: bool,
}

#[verifier::ext_equal]
pub ghost struct ThreadView {
    pub id: Seq<char>,
    pub file: Seq<char>,
    pub line_start: int,
    pub line_end: int,
    pub status: ThreadStatus,
    pub comments: Seq<CommentView>,
    pub created_at_commit: Option<Seq<char>>,
    pub created_at_revision: Option<int>,
    pub display_line_start: Option<int>,
    pub display_line_end: Option<int>,
    pub is_displaced: bool,
    pub is_deleted: bool,
}

#[verifier::ext_equal]
pub ghost struct ReviewView {
    pub change_id: Seq<char>,
    pub base: Seq<char>,
    pub created_at: Seq<char>,
    pub working_commit_id: Option<Seq<char>>,
    pub revisions: Seq<RevisionView>,
    pub threads: Seq<ThreadView>,
}

pub open spec fn view_opt_string(o: Option<String>) -> Option<Seq<char>> {
    match o {
        Some(s) => Some(s@),
        None => None,
    }
}

pub open spec fn view_opt_u32(o: Option<u32>) -> Option<int> {
    match o {
        Some(n) => Some(n as int),
        None => None,
    }
}

impl View for Comment {
    type V = CommentView;

    open spec fn view(&self) -> CommentView {
        CommentView { author: self.author, text: self.text@, timestamp: self.timestamp@ }
    }
}

impl View for Revision {
    type V = RevisionView;

    open spec fn view(&self) -> RevisionView {
        RevisionView {
            number: self.number as int,
            commit_id: self.commit_id@,
            created_at: self.created_at@,
            description: view_opt_string(self.description),
            is_pending: self.is_pending,
        }
    }
}

impl View for Thread {
    type V = ThreadView;

    open spec fn view(&self) -> ThreadView {
        ThreadView {
            id: self.id@,
            file: self.file@,
            line_start: self.line_start as int,
            line_end: self.line_end as int,
            status: self.status,
            comments: self.comments@.map_values(|c: Comment| c@),
            created_at_commit: view_opt_string(self.created_at_commit),
            created_at_revision: view_opt_u32(self.created_at_revision),
            display_line_start: view_opt_u32(self.display_line_start),
            display_line_end: view_opt_u32(self.display_line_end),
            is_displaced: self.is_displaced,
            is_deleted: self.is_deleted,
        }
    }
}

impl View for Review {
    type V = ReviewView;

    open spec fn view(&self) -> ReviewView {
        ReviewView {
            change_id: self.change_id@,
            base: self.base@,
            created_at: self.created_at@,
            working_commit_id: view_opt_string(self.working_commit_id),
            revisions: self.revisions@.map_values(|r: Revision| r@),
            threads: self.threads@.map_values(|t: Thread| t@),
        }
    }
}

// ---- document invariants ----

/// A persisted document never holds a pending revision.
pub open spec fn no_pending(revs: Seq<RevisionView>) -> bool {
    forall|i: int| 0 <= i < revs.len() ==> !(#[trigger] revs[i]).is_pending
}

/// Revision numbers are dense, starting at 1.
pub open spec fn dense_numbers(revs: Seq<RevisionView>) -> bool {
    forall|i: int| 0 <= i < revs.len() ==> (#[trigger] revs[i]).number == i + 1
}

pub open spec fn wf_review(r: ReviewView) -> bool {
    no_pending(r.revisions) && dense_numbers(r.revisions)
}

// ---- creation ----

pub open spec fn spec_new_review(
    change_id: Seq<char>,
    base: Seq<char>,
    commit_id: Seq<char>,
    now: Seq<char>,
) -> ReviewView {
    ReviewView {
        change_id,
        base,
        created_at: now,
        working_commit_id: Some(commit_id),
        revisions: Seq::empty(),
        threads: Seq::empty(),
    }
}

/// What get-or-create leaves on disk: an absent document is created empty;
/// a present one is returned as it stands, except that a legacy document
/// without a working commit gets it filled in.
pub open spec fn spec_get_or_create(
    existing: Option<ReviewView>,
    change_id: Seq<char>,
    base: Seq<char>,
    commit_id: Seq<char>,
    now: Seq<char>,
) -> ReviewView {
    match existing {
        Some(r) => if r.working_commit_id is None {
            ReviewView { working_commit_id: Some(commit_id), ..r }
        } else {
            r
        },
        None => spec_new_review(change_id, base, commit_id, now),
    }
}

impl Review {
    /// A fresh, empty review document.
    pub fn new(change_id: &str, base: &str, commit_id: &str, now: &str) -> (r: Review)
        ensures
            r@ == spec_new_review(change_id@, base@, commit_id@, now@),
    {
        let r = Review {
            change_id: change_id.to_owned(),
            base: base.to_owned(),
            created_at: now.to_owned(),
            working_commit_id: Some(commit_id.to_owned()),
            revisions: Vec::new(),
            threads: Vec::new(),
        };
        proof {
            assert(r@ =~= spec_new_review(change_id@, base@, commit_id@, now@));
        }
        r
    }

    /// Create the document if absent, else return it unchanged apart from
    /// filling a missing working commit. The second component says whether
    /// the document changed and must be persisted.
    pub fn get_or_create(
        existing: Option<Review>,
        change_id: &str,
        base: &str,
        commit_id: &str,
        now: &str,
    ) -> (r: (Review, bool))
        ensures
            r.0@ == spec_get_or_create(
                match existing {
                    Some(e) => Some(e@),
                    None => None,
                },
                change_id@,
                base@,
                commit_id@,
                now@,
            ),
            r.1 == match existing {
                Some(e) => e.working_commit_id is None,
                None => true,
            },
    {
        match existing {
            Some(mut e) => {
                let ghost e0 = e@;
                if e.working_commit_id.is_none() {
                    e.working_commit_id = Some(commit_id.to_owned());
                    proof {
                        assert(e@ =~= ReviewView { working_commit_id: Some(commit_id@), ..e0 });
                    }
                    (e, true)
                } else {
                    (e, false)
                }
            },
            None => (Review::new(change_id, base, commit_id, now), true),
        }
    }
}

// ---- revisions ----

/// Does the last recorded revision carry this commit?
pub open spec fn spec_last_commit_matches(revs: Seq<RevisionView>, commit: Seq<char>) -> bool {
    revs.len() > 0 && revs.last().commit_id == commit
}

/// Append a revision numbered `len + 1` and move the working commit.
pub open spec fn spec_record_revision(
    r: ReviewView,
    commit: Seq<char>,
    desc: Option<Seq<char>>,
    now: Seq<char>,
) -> ReviewView {
    ReviewView {
        revisions: r.revisions.push(
            RevisionView {
                number: r.revisions.len() as int + 1,
                commit_id: commit,
                created_at: now,
                description: desc,
                is_pending: false,
            },
        ),
        working_commit_id: Some(commit),
        ..r
    }
}

/// Record a revision only when the last one does not already carry the
/// commit, as the comment path does.
pub open spec fn spec_ensure_revision(r: ReviewView, commit: Seq<char>, now: Seq<char>) -> ReviewView {
    if spec_last_commit_matches(r.revisions, commit) {
        r
    } else {
        spec_record_revision(r, commit, None, now)
    }
}

/// Recording keeps the persisted-document invariants: no pending entry and
/// dense numbering.
pub proof fn lemma_record_revision_wf(
    r: ReviewView,
    commit: Seq<char>,
    desc: Option<Seq<char>>,
    now: Seq<char>,
)
    requires
        wf_review(r),
    ensures
        wf_review(spec_record_revision(r, commit, desc, now)),
        wf_review(spec_ensure_revision(r, commit, now)),
{
    let r2 = spec_record_revision(r, commit, desc, now);
    assert(forall|i: int| 0 <= i < r2.revisions.len() ==> !(#[trigger] r2.revisions[i]).is_pending
        && r2.revisions[i].number == i + 1) by {
        assert(forall|i: int| 0 <= i < r.revisions.len() ==> r2.revisions[i] == r.revisions[i]);
    };
    let r3 = spec_record_revision(r, commit, None, now);
    assert(forall|i: int| 0 <= i < r3.revisions.len() ==> !(#[trigger] r3.revisions[i]).is_pending
        && r3.revisions[i].number == i + 1) by {
        assert(forall|i: int| 0 <= i < r.revisions.len() ==> r3.revisions[i] == r.revisions[i]);
    };
}

// ---- threads and comments ----

pub open spec fn spec_new_comment(author: Author, text: Seq<char>, now: Seq<char>) -> CommentView {
    CommentView { author, text, timestamp: now }
}

pub open spec fn thread_matches(t: ThreadView, file: Seq<char>, ls: int, le: int) -> bool {
    t.file == file && t.line_start == ls && t.line_end == le
}

/// Index of the first thread keyed by `(file, line_start, line_end)`, or -1.
pub open spec fn spec_find_thread(threads: Seq<ThreadView>, file: Seq<char>, ls: int, le: int) -> int
    decreases threads.len(),
{
    if threads.len() == 0 {
        -1
    } else if thread_matches(threads[0], file, ls, le) {
        0
    } else {
        let r = spec_find_thread(threads.skip(1), file, ls, le);
        if r < 0 {
            -1
        } else {
            r + 1
        }
    }
}

pub proof fn lemma_find_thread_properties(
    threads: Seq<ThreadView>,
    file: Seq<char>,
    ls: int,
    le: int,
)
    ensures
        -1 <= spec_find_thread(threads, file, ls, le) < threads.len(),
        spec_find_thread(threads, file, ls, le) >= 0 ==> thread_matches(
            threads[spec_find_thread(threads, file, ls, le)],
            file,
            ls,
            le,
        ),
        spec_find_thread(threads, file, ls, le) == -1 ==> forall|j: int|
            0 <= j < threads.len() ==> !thread_matches(#[trigger] threads[j], file, ls, le),
        forall|j: int|
            0 <= j < spec_find_thread(threads, file, ls, le) ==> !thread_matches(
                #[trigger] threads[j],
                file,
                ls,
                le,
            ),
    decreases threads.len(),
{
    let f = spec_find_thread(threads, file, ls, le);
    if threads.len() > 0 && !thread_matches(threads[0], file, ls, le) {
        lemma_find_thread_properties(threads.skip(1), file, ls, le);
        assert(forall|j: int| 0 <= j < threads.skip(1).len() ==> threads.skip(1)[j] == threads[j
            + 1]);
        if f == -1 {
            assert forall|j: int| 0 <= j < threads.len() implies !thread_matches(
                #[trigger] threads[j],
                file,
                ls,
                le,
            ) by {
                if j > 0 {
                    assert(threads[j] == threads.skip(1)[j - 1]);
                }
            };
        }
        assert forall|j: int| 0 <= j < f implies !thread_matches(
            #[trigger] threads[j],
            file,
            ls,
            le,
        ) by {
            if j > 0 {
                assert(threads[j] == threads.skip(1)[j - 1]);
            }
        };
    }
}

/// The whole effect of adding one comment: ensure a revision for the
/// current commit, move the working commit, then either append the comment
/// to the thread keyed by `(file, line_start, line_end)` or open a new
/// thread under the fresh id `tid`. The second component is the id of the
/// thread that received the comment.
pub open spec fn spec_add_comment(
    r: ReviewView,
    file: Seq<char>,
    ls: int,
    le: int,
    author: Author,
    text: Seq<char>,
    commit: Seq<char>,
    tid: Seq<char>,
    now: Seq<char>,
) -> (ReviewView, Seq<char>) {
    let r1 = ReviewView {
        working_commit_id: Some(commit),
        ..spec_ensure_revision(r, commit, now)
    };
    let i = spec_find_thread(r1.threads, file, ls, le);
    if 0 <= i < r1.threads.len() {
        let t = r1.threads[i];
        let t2 = ThreadView {
            comments: t.comments.push(spec_new_comment(author, text, now)),
            ..t
        };
        (ReviewView { threads: r1.threads.update(i, t2), ..r1 }, t.id)
    } else {
        let t = ThreadView {
            id: tid,
            file,
            line_start: ls,
            line_end: le,
            status: ThreadStatus::Open,
            comments: seq![spec_new_comment(author, text, now)],
            created_at_commit: Some(commit),
            created_at_revision: Some(r1.revisions.last().number),
            display_line_start: None,
            display_line_end: None,
            is_displaced: false,
            is_deleted: false,
        };
        (ReviewView { threads: r1.threads.push(t), ..r1 }, tid)
    }
}

/// Thread keying: a comment whose `(file, line_start, line_end)` is already
/// present lands on that thread and changes no other; otherwise exactly one
/// new thread appears, carrying the caller's commit as its anchor.
pub proof fn lemma_add_comment_thread_keying(
    r: ReviewView,
    file: Seq<char>,
    ls: int,
    le: int,
    author: Author,
    text: Seq<char>,
    commit: Seq<char>,
    tid: Seq<char>,
    now: Seq<char>,
)
    ensures
        ({
            let m = spec_add_comment(r, file, ls, le, author, text, commit, tid, now).0;
            let i = spec_find_thread(r.threads, file, ls, le);
            if i >= 0 {
                &&& m.threads.len() == r.threads.len()
                &&& thread_matches(r.threads[i], file, ls, le)
                &&& m.threads[i].id == r.threads[i].id
                &&& m.threads[i].comments == r.threads[i].comments.push(
                    spec_new_comment(author, text, now),
                )
                &&& forall|j: int|
                    0 <= j < m.threads.len() && j != i ==> m.threads[j] == r.threads[j]
            } else {
                &&& (forall|j: int|
                    0 <= j < r.threads.len() ==> !thread_matches(
                        #[trigger] r.threads[j],
                        file,
                        ls,
                        le,
                    ))
                &&& m.threads.len() == r.threads.len() + 1
                &&& m.threads.last().id == tid
                &&& m.threads.last().file == file
                &&& m.threads.last().line_start == ls
                &&& m.threads.last().line_end == le
                &&& m.threads.last().status == ThreadStatus::Open
                &&& m.threads.last().created_at_commit == Some(commit)
                &&& m.threads.last().comments == seq![spec_new_comment(author, text, now)]
                &&& forall|j: int| 0 <= j < r.threads.len() ==> m.threads[j] == r.threads[j]
            }
        }),
{
    lemma_find_thread_properties(r.threads, file, ls, le);
    let r1 = ReviewView { working_commit_id: Some(commit), ..spec_ensure_revision(r, commit, now) };
    assert(r1.threads == r.threads);
}

impl Review {
    /// Append a revision with `number = len + 1`; the working commit moves
    /// with it. The returned number is the new revision's.
    pub fn record_revision(self, commit_id: &str, description: Option<String>, now: &str) -> (r: (
        Review,
        u32,
    ))
        requires
            self.revisions@.len() < u32::MAX,
        ensures
            r.0@ == spec_record_revision(self@, commit_id@, view_opt_string(description), now@),
            r.1 as int == self@.revisions.len() + 1,
    {
        let mut me = self;
        let ghost r0 = me@;
        let number = (me.revisions.len() as u32) + 1;
        let rev = Revision {
            number,
            commit_id: commit_id.to_owned(),
            created_at: now.to_owned(),
            description,
            is_pending: false,
        };
        me.revisions.push(rev);
        me.working_commit_id = Some(commit_id.to_owned());
        proof {
            assert(me@.revisions =~= r0.revisions.push(rev@));
            assert(me@ =~= spec_record_revision(r0, commit_id@, view_opt_string(description), now@));
        }
        (me, number)
    }

    /// Add a comment under a caller-supplied fresh thread id: append to the
    /// thread keyed by `(file, line_start, line_end)` when one exists, else
    /// open a new thread with that id, anchored at `commit_id`. Returns the
    /// id of the thread that received the comment.
    pub fn add_comment_with_id(
        self,
        file: &str,
        line_start: u32,
        line_end: u32,
        author: Author,
        text: &str,
        commit_id: &str,
        new_thread_id: &str,
        now: &str,
    ) -> (r: (Review, String))
        requires
            self.revisions@.len() < u32::MAX,
        ensures
            ({
                let m = spec_add_comment(
                    self@,
                    file@,
                    line_start as int,
                    line_end as int,
                    author,
                    text@,
                    commit_id@,
                    new_thread_id@,
                    now@,
                );
                r.0@ == m.0 && r.1@ == m.1
            }),
    {
        let mut me = self;
        let ghost r0 = me@;

        // Make sure a revision records the commit the comment is made under.
        let needs_revision = if me.revisions.len() == 0 {
            true
        } else {
            !str_eq(me.revisions[me.revisions.len() - 1].commit_id.as_str(), commit_id)
        };
        proof {
            assert(me@.revisions.len() > 0 ==> me@.revisions.last() == me.revisions@[me.revisions@.len()
                - 1]@);
            assert(needs_revision == !spec_last_commit_matches(r0.revisions, commit_id@));
        }
        if needs_revision {
            let number = (me.revisions.len() as u32) + 1;
            let rev = Revision {
                number,
                commit_id: commit_id.to_owned(),
                created_at: now.to_owned(),
                description: None,
                is_pending: false,
            };
            me.revisions.push(rev);
            proof {
                assert(me@.revisions =~= spec_ensure_revision(r0, commit_id@, now@).revisions);
            }
        }
        me.working_commit_id = Some(commit_id.to_owned());
        let ghost r1 = ReviewView {
            working_commit_id: Some(commit_id@),
            ..spec_ensure_revision(r0, commit_id@, now@)
        };
        proof {
            assert(me@ =~= r1);
            lemma_find_thread_properties(r1.threads, file@, line_start as int, line_end as int);
        }

        // Find the thread keyed by (file, line_start, line_end).
        let mut found: bool = false;
        let mut idx: usize = 0;
        let n = me.threads.len();
        while idx < n && !found
            invariant
                0 <= idx <= n,
                n == me.threads@.len(),
                forall|j: int|
                    0 <= j < idx ==> !thread_matches(
                        (#[trigger] me.threads@[j])@,
                        file@,
                        line_start as int,
                        line_end as int,
                    ),
                found ==> idx < n && thread_matches(
                    me.threads@[idx as int]@,
                    file@,
                    line_start as int,
                    line_end as int,
                ),
            decreases n - idx, if found { 0int } else { 1int },
        {
            let t = &me.threads[idx];
            if str_eq(t.file.as_str(), file) && t.line_start == line_start && t.line_end
                == line_end {
                found = true;
            } else {
                idx += 1;
            }
        }
        proof {
            assert(me@.threads == me.threads@.map_values(|t: Thread| t@));
            assert(forall|j: int| 0 <= j < me.threads@.len() ==> me@.threads[j] == (#[trigger] me.threads@[j])@);
        }
        let comment = Comment { author, text: text.to_owned(), timestamp: now.to_owned() };
        if found {
            proof {
                assert(thread_matches(me@.threads[idx as int], file@, line_start as int, line_end as int));
                assert(spec_find_thread(me@.threads, file@, line_start as int, line_end as int)
                    == idx as int) by {
                    lemma_find_thread_at(me@.threads, file@, line_start as int, line_end as int, idx as int);
                };
            }
            let ghost pre_threads = me@.threads;
            let ghost pre_exec = me.threads@;
            let existing_id = me.threads[idx].id.clone();
            let ghost cv = spec_new_comment(author, text@, now@);
            let t = &mut me.threads[idx];
            t.comments.push(comment);
            proof {
                assert(pre_threads[idx as int] == pre_exec[idx as int]@);
                assert(me.threads@ == pre_exec.update(idx as int, me.threads@[idx as int]));
                assert(me.threads@[idx as int]@.comments =~= pre_threads[idx as int].comments.push(cv));
                assert(me.threads@[idx as int]@ =~= ThreadView {
                    comments: pre_threads[idx as int].comments.push(cv),
                    ..pre_threads[idx as int]
                });
                assert(me@.threads =~= pre_threads.update(
                    idx as int,
                    ThreadView {
                        comments: pre_threads[idx as int].comments.push(
                            spec_new_comment(author, text@, now@),
                        ),
                        ..pre_threads[idx as int]
                    },
                ));
                assert(me@ =~= spec_add_comment(
                    r0,
                    file@,
                    line_start as int,
                    line_end as int,
                    author,
                    text@,
                    commit_id@,
                    new_thread_id@,
                    now@,
                ).0);
            }
            (me, existing_id)
        } else {
            proof {
                assert(forall|j: int|
                    0 <= j < me@.threads.len() ==> !thread_matches(
                        #[trigger] me@.threads[j],
                        file@,
                        line_start as int,
                        line_end as int,
                    ));
                lemma_find_thread_properties(me@.threads, file@, line_start as int, line_end as int);
                assert(spec_find_thread(me@.threads, file@, line_start as int, line_end as int) == -1);
            }
            let last_number = me.revisions[me.revisions.len() - 1].number;
            proof {
                assert(me@.revisions[me.revisions@.len() - 1] == me.revisions@[me.revisions@.len()
                    - 1]@);
                assert(last_number as int == r1.revisions.last().number);
            }
            let ghost pre_threads = me@.threads;
            let ghost tv = ThreadView {
                id: new_thread_id@,
                file: file@,
                line_start: line_start as int,
                line_end: line_end as int,
                status: ThreadStatus::Open,
                comments: seq![spec_new_comment(author, text@, now@)],
                created_at_commit: Some(commit_id@),
                created_at_revision: Some(r1.revisions.last().number),
                display_line_start: None,
                display_line_end: None,
                is_displaced: false,
                is_deleted: false,
            };
            let t = Thread {
                id: new_thread_id.to_owned(),
                file: file.to_owned(),
                line_start,
                line_end,
                status: ThreadStatus::Open,
                comments: vec![comment],
                created_at_commit: Some(commit_id.to_owned()),
                created_at_revision: Some(last_number),
                display_line_start: None,
                display_line_end: None,
                is_displaced: false,
                is_deleted: false,
            };
            proof {
                assert(t@.comments =~= seq![spec_new_comment(author, text@, now@)]);
                assert(t@ =~= tv);
            }
            me.threads.push(t);
            proof {
                assert(me@.threads =~= pre_threads.push(tv));
                assert(me@ =~= spec_add_comment(
                    r0,
                    file@,
                    line_start as int,
                    line_end as int,
                    author,
                    text@,
                    commit_id@,
                    new_thread_id@,
                    now@,
                ).0);
            }
            (me, new_thread_id.to_owned())
        }
    }

    /// Add a comment, drawing a fresh 8-character id for the thread in case
    /// a new one must be opened.
    pub fn add_comment(
        self,
        file: &str,
        line_start: u32,
        line_end: u32,
        author: Author,
        text: &str,
        commit_id: &str,
        now: &str,
    ) -> (r: (Review, String))
        requires
            self.revisions@.len() < u32::MAX,
        ensures
            ({
                let m = spec_add_comment(
                    self@,
                    file@,
                    line_start as int,
                    line_end as int,
                    author,
                    text@,
                    commit_id@,
                    r.1@,
                    now@,
                );
                r.0@ == m.0 && r.1@ == m.1
            }),
    {
        let tid = fresh_id();
        self.add_comment_with_id(file, line_start, line_end, author, text, commit_id, tid.as_str(), now)
    }
}

proof fn lemma_find_thread_at(threads: Seq<ThreadView>, file: Seq<char>, ls: int, le: int, k: int)
    requires
        0 <= k < threads.len(),
        thread_matches(threads[k], file, ls, le),
        forall|j: int| 0 <= j < k ==> !thread_matches(#[trigger] threads[j], file, ls, le),
    ensures
        spec_find_thread(threads, file, ls, le) == k,
    decreases k,
{
    if k > 0 {
        lemma_find_thread_at(threads.skip(1), file, ls, le, k - 1);
    }
}

// ---- thread status and replies ----

/// Index of the thread carrying exactly this id, or -1.
pub open spec fn spec_find_thread_by_id(threads: Seq<ThreadView>, tid: Seq<char>) -> int
    decreases threads.len(),
{
    if threads.len() == 0 {
        -1
    } else if threads[0].id == tid {
        0
    } else {
        let r = spec_find_thread_by_id(threads.skip(1), tid);
        if r < 0 {
            -1
        } else {
            r + 1
        }
    }
}

pub proof fn lemma_find_thread_by_id_properties(threads: Seq<ThreadView>, tid: Seq<char>)
    ensures
        -1 <= spec_find_thread_by_id(threads, tid) < threads.len(),
        spec_find_thread_by_id(threads, tid) >= 0 ==> threads[spec_find_thread_by_id(
            threads,
            tid,
        )].id == tid,
        spec_find_thread_by_id(threads, tid) == -1 ==> forall|j: int|
            0 <= j < threads.len() ==> (#[trigger] threads[j]).id != tid,
        forall|j: int|
            0 <= j < spec_find_thread_by_id(threads, tid) ==> (#[trigger] threads[j]).id != tid,
    decreases threads.len(),
{
    let f = spec_find_thread_by_id(threads, tid);
    if threads.len() > 0 && threads[0].id != tid {
        lemma_find_thread_by_id_properties(threads.skip(1), tid);
        assert(forall|j: int| 0 <= j < threads.skip(1).len() ==> threads.skip(1)[j] == threads[j
            + 1]);
        if f == -1 {
            assert forall|j: int| 0 <= j < threads.len() implies (#[trigger] threads[j]).id
                != tid by {
                if j > 0 {
                    assert(threads[j] == threads.skip(1)[j - 1]);
                }
            };
        }
        assert forall|j: int| 0 <= j < f implies (#[trigger] threads[j]).id != tid by {
            if j > 0 {
                assert(threads[j] == threads.skip(1)[j - 1]);
            }
        };
    }
}

proof fn lemma_find_thread_by_id_at(threads: Seq<ThreadView>, tid: Seq<char>, k: int)
    requires
        0 <= k < threads.len(),
        threads[k].id == tid,
        forall|j: int| 0 <= j < k ==> (#[trigger] threads[j]).id != tid,
    ensures
        spec_find_thread_by_id(threads, tid) == k,
    decreases k,
{
    if k > 0 {
        lemma_find_thread_by_id_at(threads.skip(1), tid, k - 1);
    }
}

pub open spec fn spec_set_thread_status(r: ReviewView, i: int, st: ThreadStatus) -> ReviewView {
    ReviewView {
        threads: r.threads.update(i, ThreadView { status: st, ..r.threads[i] }),
        ..r
    }
}

/// Flip the status of the thread with exactly this id; `None` when the id
/// is unknown.
pub open spec fn spec_set_status_by_id(r: ReviewView, tid: Seq<char>, st: ThreadStatus) -> Option<
    ReviewView,
> {
    let i = spec_find_thread_by_id(r.threads, tid);
    if 0 <= i < r.threads.len() {
        Some(spec_set_thread_status(r, i, st))
    } else {
        None
    }
}

/// Resolving a thread twice is resolving it once, and the same holds for
/// reopening: flipping a status is idempotent.
pub proof fn lemma_set_status_idempotent(r: ReviewView, tid: Seq<char>, st: ThreadStatus)
    ensures
        match spec_set_status_by_id(r, tid, st) {
            Some(r1) => spec_set_status_by_id(r1, tid, st) == Some(r1),
            None => true,
        },
{
    lemma_find_thread_by_id_properties(r.threads, tid);
    let i = spec_find_thread_by_id(r.threads, tid);
    if 0 <= i < r.threads.len() {
        let r1 = spec_set_thread_status(r, i, st);
        assert(forall|j: int| 0 <= j < i ==> r1.threads[j] == r.threads[j]);
        assert(r1.threads[i].id == tid);
        lemma_find_thread_by_id_at(r1.threads, tid, i);
        let r2 = spec_set_thread_status(r1, i, st);
        assert(r2.threads[i] =~= r1.threads[i]);
        assert(r2.threads =~= r1.threads);
        assert(r2 =~= r1);
    }
}

// ---- prefix resolution ----

pub open spec fn id_starts_with(id: Seq<char>, p: Seq<char>) -> bool {
    crate::text::spec_starts_with(id, p)
}

/// How many ids start with the prefix.
pub open spec fn spec_count_prefix(ids: Seq<Seq<char>>, p: Seq<char>) -> int
    decreases ids.len(),
{
    if ids.len() == 0 {
        0
    } else {
        (if id_starts_with(ids[0], p) {
            1int
        } else {
            0int
        }) + spec_count_prefix(ids.skip(1), p)
    }
}

/// Index of the first id that starts with the prefix, or -1.
pub open spec fn spec_find_prefix(ids: Seq<Seq<char>>, p: Seq<char>) -> int
    decreases ids.len(),
{
    if ids.len() == 0 {
        -1
    } else if id_starts_with(ids[0], p) {
        0
    } else {
        let r = spec_find_prefix(ids.skip(1), p);
        if r < 0 {
            -1
        } else {
            r + 1
        }
    }
}

proof fn lemma_count_prefix_push(ids: Seq<Seq<char>>, p: Seq<char>, x: Seq<char>)
    ensures
        spec_count_prefix(ids.push(x), p) == spec_count_prefix(ids, p) + (if id_starts_with(x, p) {
            1int
        } else {
            0int
        }),
    decreases ids.len(),
{
    if ids.len() == 0 {
        assert(ids.push(x)[0] == x);
        assert(ids.push(x).skip(1) =~= Seq::<Seq<char>>::empty());
        assert(spec_count_prefix(ids.push(x).skip(1), p) == 0);
        assert(spec_count_prefix(ids, p) == 0);
        assert(spec_count_prefix(ids.push(x), p) == (if id_starts_with(x, p) { 1int } else { 0int }));
    } else {
        assert(ids.push(x).skip(1) =~= ids.skip(1).push(x));
        assert(ids.push(x)[0] == ids[0]);
        lemma_count_prefix_push(ids.skip(1), p, x);
        assert(spec_count_prefix(ids.push(x), p) == (if id_starts_with(ids[0], p) { 1int } else { 0int })
            + spec_count_prefix(ids.skip(1).push(x), p));
        assert(spec_count_prefix(ids, p) == (if id_starts_with(ids[0], p) { 1int } else { 0int })
            + spec_count_prefix(ids.skip(1), p));
    }
}

pub proof fn lemma_find_prefix_at(ids: Seq<Seq<char>>, p: Seq<char>, k: int)
    requires
        0 <= k < ids.len(),
        id_starts_with(ids[k], p),
        forall|j: int| 0 <= j < k ==> !id_starts_with(#[trigger] ids[j], p),
    ensures
        spec_find_prefix(ids, p) == k,
    decreases k,
{
    if k > 0 {
        lemma_find_prefix_at(ids.skip(1), p, k - 1);
    }
}

pub proof fn lemma_find_prefix_none(ids: Seq<Seq<char>>, p: Seq<char>)
    requires
        forall|j: int| 0 <= j < ids.len() ==> !id_starts_with(#[trigger] ids[j], p),
    ensures
        spec_find_prefix(ids, p) == -1,
    decreases ids.len(),
{
    if ids.len() > 0 {
        lemma_find_prefix_none(ids.skip(1), p);
    }
}

pub proof fn lemma_count_prefix_nonneg(ids: Seq<Seq<char>>, p: Seq<char>)
    ensures
        spec_count_prefix(ids, p) >= 0,
    decreases ids.len(),
{
    if ids.len() > 0 {
        lemma_count_prefix_nonneg(ids.skip(1), p);
    }
}

/// Resolve a possibly-short id against a list: exactly one id starting with
/// the prefix names its index; none is `NotFound`; several are `Ambiguous`.
pub fn resolve_prefix(ids: &Vec<String>, prefix: &str) -> (r: Result<usize, StoreError>)
    ensures
        ({
            let idv = ids@.map_values(|s: String| s@);
            let c = spec_count_prefix(idv, prefix@);
            match r {
                Ok(i) => c == 1 && i < ids@.len() && i as int == spec_find_prefix(idv, prefix@),
                Err(StoreError::NotFound) => c == 0,
                Err(StoreError::Ambiguous) => c >= 2,
            }
        }),
{
    let ghost idv = ids@.map_values(|s: String| s@);
    let mut cnt: usize = 0;
    let mut first: usize = 0;
    let mut i: usize = 0;
    proof {
        assert(idv.take(0) =~= Seq::<Seq<char>>::empty());
    }
    while i < ids.len()
        invariant
            0 <= i <= ids@.len(),
            idv == ids@.map_values(|s: String| s@),
            cnt <= i,
            cnt as int == spec_count_prefix(idv.take(i as int), prefix@),
            cnt > 0 ==> first < i && id_starts_with(idv[first as int], prefix@) && (forall|j: int|
                0 <= j < first ==> !id_starts_with(#[trigger] idv[j], prefix@)),
            cnt == 0 ==> forall|j: int| 0 <= j < i ==> !id_starts_with(#[trigger] idv[j], prefix@),
        decreases ids@.len() - i,
    {
        proof {
            assert(idv.take(i as int + 1) =~= idv.take(i as int).push(idv[i as int]));
            lemma_count_prefix_push(idv.take(i as int), prefix@, idv[i as int]);
            assert(idv[i as int] == ids@[i as int]@);
        }
        if crate::text::starts_with(ids[i].as_str(), prefix) {
            if cnt == 0 {
                first = i;
            }
            cnt += 1;
        }
        i += 1;
    }
    proof {
        assert(idv.take(i as int) =~= idv);
        lemma_count_prefix_nonneg(idv, prefix@);
    }
    if cnt == 0 {
        Err(StoreError::NotFound)
    } else if cnt >= 2 {
        Err(StoreError::Ambiguous)
    } else {
        proof {
            lemma_find_prefix_at(idv, prefix@, first as int);
        }
        Ok(first)
    }
}

// ---- pending revision enrichment ----

/// The read-path enrichment: when the DVCS reports a commit newer than the
/// last recorded revision, a synthetic pending revision is appended for the
/// consumer; it is never persisted.
pub open spec fn spec_with_pending(r: ReviewView, commit: Seq<char>, now: Seq<char>) -> ReviewView {
    if r.revisions.len() == 0 {
        ReviewView {
            revisions: r.revisions.push(
                RevisionView {
                    number: 1,
                    commit_id: commit,
                    created_at: now,
                    description: None,
                    is_pending: true,
                },
            ),
            ..r
        }
    } else if r.revisions.last().commit_id != commit {
        ReviewView {
            revisions: r.revisions.push(
                RevisionView {
                    number: r.revisions.last().number + 1,
                    commit_id: commit,
                    created_at: now,
                    description: None,
                    is_pending: true,
                },
            ),
            ..r
        }
    } else {
        r
    }
}

/// At most one revision of an enriched document is pending, and it is the
/// last one; a persisted document has none at all.
pub proof fn lemma_pending_revision_shape(r: ReviewView, commit: Seq<char>, now: Seq<char>)
    requires
        no_pending(r.revisions),
    ensures
        ({
            let e = spec_with_pending(r, commit, now);
            forall|i: int|
                0 <= i < e.revisions.len() && (#[trigger] e.revisions[i]).is_pending ==> i
                    == e.revisions.len() - 1
        }),
{
    let e = spec_with_pending(r, commit, now);
    assert forall|i: int|
        0 <= i < e.revisions.len() && (#[trigger] e.revisions[i]).is_pending implies i
        == e.revisions.len() - 1 by {
        if i < r.revisions.len() {
            assert(e.revisions[i] == r.revisions[i]);
        }
    };
}

impl Review {
    /// Set the status of the thread with this exact id.
    fn set_thread_status(self, thread_id: &str, st: ThreadStatus) -> (r: Result<Review, StoreError>)
        ensures
            ({
                match spec_set_status_by_id(self@, thread_id@, st) {
                    Some(v) => r matches Ok(rr) && rr@ == v,
                    None => r == Err::<Review, StoreError>(StoreError::NotFound),
                }
            }),
    {
        let mut me = self;
        let ghost r0 = me@;
        proof {
            lemma_find_thread_by_id_properties(r0.threads, thread_id@);
        }
        let mut found: bool = false;
        let mut idx: usize = 0;
        let n = me.threads.len();
        while idx < n && !found
            invariant
                0 <= idx <= n,
                n == me.threads@.len(),
                r0 == me@,
                forall|j: int| 0 <= j < idx ==> (#[trigger] me@.threads[j]).id != thread_id@,
                found ==> idx < n && me@.threads[idx as int].id == thread_id@,
            decreases n - idx, if found { 0int } else { 1int },
        {
            proof {
                assert(me@.threads[idx as int] == me.threads@[idx as int]@);
            }
            if str_eq(me.threads[idx].id.as_str(), thread_id) {
                found = true;
            } else {
                idx += 1;
            }
        }
        if !found {
            proof {
                assert(forall|j: int| 0 <= j < me@.threads.len() ==> (#[trigger] me@.threads[j]).id
                    != thread_id@);
            }
            return Err(StoreError::NotFound);
        }
        proof {
            lemma_find_thread_by_id_at(r0.threads, thread_id@, idx as int);
        }
        let ghost pre_exec = me.threads@;
        let t = &mut me.threads[idx];
        t.status = st;
        proof {
            assert(pre_exec[idx as int]@ == r0.threads[idx as int]);
            assert(me.threads@ == pre_exec.update(idx as int, me.threads@[idx as int]));
            assert(me.threads@[idx as int]@ =~= ThreadView {
                status: st,
                ..r0.threads[idx as int]
            });
            assert(me@.threads =~= r0.threads.update(
                idx as int,
                ThreadView { status: st, ..r0.threads[idx as int] },
            ));
            assert(me@ =~= spec_set_thread_status(r0, idx as int, st));
        }
        Ok(me)
    }

    /// Mark a thread resolved; a second resolve changes nothing.
    pub fn resolve_thread(self, thread_id: &str) -> (r: Result<Review, StoreError>)
        ensures
            ({
                match spec_set_status_by_id(self@, thread_id@, ThreadStatus::Resolved) {
                    Some(v) => r matches Ok(rr) && rr@ == v,
                    None => r == Err::<Review, StoreError>(StoreError::NotFound),
                }
            }),
    {
        self.set_thread_status(thread_id, ThreadStatus::Resolved)
    }

    /// Reopen a resolved thread; a second reopen changes nothing.
    pub fn reopen_thread(self, thread_id: &str) -> (r: Result<Review, StoreError>)
        ensures
            ({
                match spec_set_status_by_id(self@, thread_id@, ThreadStatus::Open) {
                    Some(v) => r matches Ok(rr) && rr@ == v,
                    None => r == Err::<Review, StoreError>(StoreError::NotFound),
                }
            }),
    {
        self.set_thread_status(thread_id, ThreadStatus::Open)
    }

    /// Append a comment to the thread named by a full id or a unique id
    /// prefix.
    pub fn reply_to_thread(self, thread_id: &str, author: Author, text: &str, now: &str) -> (r:
        Result<Review, StoreError>)
        ensures
            ({
                let ids = self@.threads.map_values(|t: ThreadView| t.id);
                let c = spec_count_prefix(ids, thread_id@);
                match r {
                    Ok(rr) => c == 1 && ({
                        let i = spec_find_prefix(ids, thread_id@);
                        0 <= i < self@.threads.len() && rr@ == ReviewView {
                            threads: self@.threads.update(
                                i,
                                ThreadView {
                                    comments: self@.threads[i].comments.push(
                                        spec_new_comment(author, text@, now@),
                                    ),
                                    ..self@.threads[i]
                                },
                            ),
                            ..self@
                        }
                    }),
                    Err(StoreError::NotFound) => c == 0,
                    Err(StoreError::Ambiguous) => c >= 2,
                }
            }),
    {
        let mut me = self;
        let ghost r0 = me@;
        let mut ids: Vec<String> = Vec::new();
        let mut i: usize = 0;
        let n = me.threads.len();
        while i < n
            invariant
                0 <= i <= n,
                n == me.threads@.len(),
                r0 == me@,
                ids@.len() == i,
                forall|j: int| 0 <= j < i ==> (#[trigger] ids@[j])@ == r0.threads[j].id,
            decreases n - i,
        {
            proof {
                assert(me@.threads[i as int] == me.threads@[i as int]@);
            }
            ids.push(me.threads[i].id.clone());
            i += 1;
        }
        proof {
            assert(ids@.map_values(|s: String| s@) =~= r0.threads.map_values(
                |t: ThreadView| t.id,
            ));
        }
        let idx = match resolve_prefix(&ids, thread_id) {
            Ok(k) => k,
            Err(e) => {
                return Err(e);
            },
        };
        let comment = Comment { author, text: text.to_owned(), timestamp: now.to_owned() };
        let ghost cv = spec_new_comment(author, text@, now@);
        let ghost pre_exec = me.threads@;
        let t = &mut me.threads[idx];
        t.comments.push(comment);
        proof {
            assert(pre_exec[idx as int]@ == r0.threads[idx as int]);
            assert(me.threads@ == pre_exec.update(idx as int, me.threads@[idx as int]));
            assert(me.threads@[idx as int]@.comments =~= r0.threads[idx as int].comments.push(cv));
            assert(me.threads@[idx as int]@ =~= ThreadView {
                comments: r0.threads[idx as int].comments.push(cv),
                ..r0.threads[idx as int]
            });
            assert(me@.threads =~= r0.threads.update(
                idx as int,
                ThreadView {
                    comments: r0.threads[idx as int].comments.push(cv),
                    ..r0.threads[idx as int]
                },
            ));
        }
        Ok(me)
    }

    /// Enrich the document for a consumer: when the current commit differs
    /// from the last recorded revision (or none is recorded), append the
    /// synthetic pending revision. The result is never persisted.
    pub fn with_pending_revision(self, current_commit_id: &str, now: &str) -> (r: Review)
        requires
            self.revisions@.len() < u32::MAX,
            self@.revisions.len() > 0 ==> self@.revisions.last().number < u32::MAX,
        ensures
            r@ == spec_with_pending(self@, current_commit_id@, now@),
    {
        let mut me = self;
        let ghost r0 = me@;
        let n = me.revisions.len();
        if n == 0 {
            let rev = Revision {
                number: 1,
                commit_id: current_commit_id.to_owned(),
                created_at: now.to_owned(),
                description: None,
                is_pending: true,
            };
            me.revisions.push(rev);
            proof {
                assert(me@.revisions =~= spec_with_pending(r0, current_commit_id@, now@).revisions);
                assert(me@ =~= spec_with_pending(r0, current_commit_id@, now@));
            }
            me
        } else {
            proof {
                assert(me@.revisions.last() == me.revisions@[n - 1]@);
            }
            if !str_eq(me.revisions[n - 1].commit_id.as_str(), current_commit_id) {
                let number = me.revisions[n - 1].number + 1;
                let rev = Revision {
                    number,
                    commit_id: current_commit_id.to_owned(),
                    created_at: now.to_owned(),
                    description: None,
                    is_pending: true,
                };
                me.revisions.push(rev);
                proof {
                    assert(me@.revisions =~= spec_with_pending(
                        r0,
                        current_commit_id@,
                        now@,
                    ).revisions);
                    assert(me@ =~= spec_with_pending(r0, current_commit_id@, now@));
                }
                me
            } else {
                me
            }
        }
    }

    /// Does any thread of this review stand open?
    pub fn has_open_thread(&self) -> (r: bool)
        ensures
            r == spec_has_open_thread(self@),
    {
        let mut i: usize = 0;
        let n = self.threads.len();
        while i < n
            invariant
                0 <= i <= n,
                n == self.threads@.len(),
                forall|j: int| 0 <= j < i ==> (#[trigger] self@.threads[j]).status
                    != ThreadStatus::Open,
            decreases n - i,
        {
            proof {
                assert(self@.threads[i as int] == self.threads@[i as int]@);
            }
            if matches!(self.threads[i].status, ThreadStatus::Open) {
                return true;
            }
            i += 1;
        }
        false
    }

    /// How many threads stand open.
    pub fn count_open_threads(&self) -> (r: usize)
        ensures
            r as int == spec_count_open(self@.threads),
    {
        let mut cnt: usize = 0;
        let mut i: usize = 0;
        let n = self.threads.len();
        proof {
            assert(self@.threads.take(0) =~= Seq::<ThreadView>::empty());
        }
        while i < n
            invariant
                0 <= i <= n,
                n == self.threads@.len(),
                cnt <= i,
                cnt as int == spec_count_open(self@.threads.take(i as int)),
            decreases n - i,
        {
            proof {
                assert(self@.threads[i as int] == self.threads@[i as int]@);
                assert(self@.threads.take(i as int + 1) =~= self@.threads.take(i as int).push(
                    self@.threads[i as int],
                ));
                lemma_count_open_push(self@.threads.take(i as int), self@.threads[i as int]);
            }
            if matches!(self.threads[i].status, ThreadStatus::Open) {
                cnt += 1;
            }
            i += 1;
        }
        proof {
            assert(self@.threads.take(i as int) =~= self@.threads);
        }
        cnt
    }
}

pub open spec fn spec_has_open_thread(r: ReviewView) -> bool {
    exists|i: int| 0 <= i < r.threads.len() && (#[trigger] r.threads[i]).status == ThreadStatus::Open
}

/// Number of open threads.
pub open spec fn spec_count_open(threads: Seq<ThreadView>) -> int
    decreases threads.len(),
{
    if threads.len() == 0 {
        0
    } else {
        (if threads[0].status == ThreadStatus::Open {
            1int
        } else {
            0int
        }) + spec_count_open(threads.skip(1))
    }
}

proof fn lemma_count_open_push(threads: Seq<ThreadView>, x: ThreadView)
    ensures
        spec_count_open(threads.push(x)) == spec_count_open(threads) + (if x.status
            == ThreadStatus::Open {
            1int
        } else {
            0int
        }),
    decreases threads.len(),
{
    if threads.len() == 0 {
        assert(threads.push(x)[0] == x);
        assert(threads.push(x).skip(1) =~= Seq::<ThreadView>::empty());
        assert(spec_count_open(threads.push(x).skip(1)) == 0);
        assert(spec_count_open(threads) == 0);
        assert(spec_count_open(threads.push(x)) == (if x.status == ThreadStatus::Open {
            1int
        } else {
            0int
        }));
    } else {
        assert(threads.push(x).skip(1) =~= threads.skip(1).push(x));
        assert(threads.push(x)[0] == threads[0]);
        lemma_count_open_push(threads.skip(1), x);
        assert(spec_count_open(threads.push(x)) == (if threads[0].status == ThreadStatus::Open {
            1int
        } else {
            0int
        }) + spec_count_open(threads.skip(1).push(x)));
        assert(spec_count_open(threads) == (if threads[0].status == ThreadStatus::Open {
            1int
        } else {
            0int
        }) + spec_count_open(threads.skip(1)));
    }
}

/// Creating a document is idempotent: feeding the result of one
/// get-or-create back in as the existing document returns it unchanged,
/// whatever commit or clock the second call sees.
pub proof fn lemma_get_or_create_idempotent(
    existing: Option<ReviewView>,
    change_id: Seq<char>,
    base: Seq<char>,
    commit_id: Seq<char>,
    now: Seq<char>,
    commit_id2: Seq<char>,
    now2: Seq<char>,
)
    ensures
        spec_get_or_create(
            Some(spec_get_or_create(existing, change_id, base, commit_id, now)),
            change_id,
            base,
            commit_id2,
            now2,
        ) == spec_get_or_create(existing, change_id, base, commit_id, now),
{
}


// ---- listing ----

/// Keep the reviews that have an open thread and, when a scope is given,
/// whose change id stands in it.
pub open spec fn spec_filter_open(
    rs: Seq<ReviewView>,
    scope: Option<Seq<Seq<char>>>,
) -> Seq<ReviewView>
    decreases rs.len(),
{
    if rs.len() == 0 {
        Seq::empty()
    } else {
        (if spec_has_open_thread(rs[0]) && (match scope {
            Some(ids) => ids.contains(rs[0].change_id),
            None => true,
        }) {
            seq![rs[0]]
        } else {
            Seq::empty()
        }) + spec_filter_open(rs.skip(1), scope)
    }
}

/// Filter a list of reviews to those with at least one open thread,
/// optionally narrowed to a set of change ids.
pub fn list_with_open_threads(reviews: Vec<Review>, scope: Option<&Vec<String>>) -> (r: Vec<
    Review,
>)
    ensures
        r@.map_values(|x: Review| x@) == spec_filter_open(
            reviews@.map_values(|x: Review| x@),
            match scope {
                Some(ids) => Some(ids@.map_values(|s: String| s@)),
                None => None,
            },
        ),
{
    let ghost rv = reviews@.map_values(|x: Review| x@);
    let ghost sv: Option<Seq<Seq<char>>> = match scope {
        Some(ids) => Some(ids@.map_values(|s: String| s@)),
        None => None,
    };
    let mut rest = reviews;
    let mut out: Vec<Review> = Vec::new();
    let ghost done: int = 0;
    proof {
        assert(rv.skip(0) =~= rv);
        assert(out@.map_values(|x: Review| x@) + spec_filter_open(rv, sv) =~= spec_filter_open(
            rv,
            sv,
        ));
    }
    while rest.len() > 0
        invariant
            rv == reviews@.map_values(|x: Review| x@),
            sv == (match scope {
                Some(ids) => Some(ids@.map_values(|s: String| s@)),
                None => None,
            }),
            0 <= done <= rv.len(),
            rest@.len() == rv.len() - done,
            forall|j: int| 0 <= j < rest@.len() ==> (#[trigger] rest@[j])@ == rv[done + j],
            spec_filter_open(rv, sv) == out@.map_values(|x: Review| x@) + spec_filter_open(
                rv.skip(done),
                sv,
            ),
        decreases rest@.len(),
    {
        proof {
            assert(rv.skip(done)[0] == rv[done]);
            assert(rv.skip(done).skip(1) =~= rv.skip(done + 1));
        }
        let ghost pre = out@;
        let rev = rest.remove(0);
        proof {
            assert(rev@ == rv[done]);
        }
        let in_scope: bool = match scope {
            Some(ids) => {
                let mut hit: bool = false;
                let mut k: usize = 0;
                while k < ids.len()
                    invariant
                        0 <= k <= ids@.len(),
                        hit ==> ids@.map_values(|s: String| s@).contains(rev@.change_id),
                        !hit ==> forall|j: int|
                            0 <= j < k ==> (#[trigger] ids@[j])@ != rev@.change_id,
                    decreases ids@.len() - k,
                {
                    if str_eq(ids[k].as_str(), rev.change_id.as_str()) {
                        proof {
                            assert(ids@.map_values(|s: String| s@)[k as int] == ids@[k as int]@);
                        }
                        hit = true;
                    }
                    k += 1;
                }
                proof {
                    if !hit {
                        assert(forall|j: int|
                            0 <= j < ids@.len() ==> ids@.map_values(|s: String| s@)[j] == (
                            #[trigger] ids@[j])@);
                        assert(!ids@.map_values(|s: String| s@).contains(rev@.change_id));
                    }
                }
                hit
            },
            None => true,
        };
        if rev.has_open_thread() && in_scope {
            out.push(rev);
            proof {
                assert(out@.map_values(|x: Review| x@) =~= pre.map_values(|x: Review| x@)
                    + seq![rv[done]]);
            }
        }
        proof {
            assert(out@.map_values(|x: Review| x@) + spec_filter_open(rv.skip(done + 1), sv)
                =~= pre.map_values(|x: Review| x@) + spec_filter_open(rv.skip(done), sv));
        }
        proof {
            done = done + 1;
        }
    }
    proof {
        assert(rv.skip(done) =~= Seq::<ReviewView>::empty());
        assert(out@.map_values(|x: Review| x@) =~= spec_filter_open(rv, sv));
    }
    out
}

/// Adding a comment keeps the persisted-document invariants: the revision
/// it may record is not pending and is numbered densely.
pub proof fn lemma_add_comment_wf(
    r: ReviewView,
    file: Seq<char>,
    ls: int,
    le: int,
    author: Author,
    text: Seq<char>,
    commit: Seq<char>,
    tid: Seq<char>,
    now: Seq<char>,
)
    requires
        wf_review(r),
    ensures
        wf_review(spec_add_comment(r, file, ls, le, author, text, commit, tid, now).0),
{
    lemma_record_revision_wf(r, commit, None, now);
    let r1 = spec_ensure_revision(r, commit, now);
    let m = spec_add_comment(r, file, ls, le, author, text, commit, tid, now).0;
    assert(m.revisions == r1.revisions);
}
} // verus!

//! The change-list report: each change of the log joined with its review's
//! open-thread count, revision count and pending flag, and marked merged
//! when it sits at or below the trunk bookmark in the ancestor list. Also
//! the line-based text diff of two commit messages.

use vstd::prelude::*;
use vstd::string::*;

use crate::dvcs::{Change, ChangeView};
use crate::review::{Review, ReviewView, spec_count_open, spec_last_commit_matches};
use crate::text::str_eq;

verus! {

/// One piece of a line diff between two texts.
#[derive(Debug, Clone, PartialEq, Eq, Structural)]
pub enum ChunkTag {
    Equal,
    Delete,
    Insert,
}

/// A run of lines that two texts share, or that only one of them has.
#[derive(Debug, Clone)]
pub struct DiffChunk {
    pub tag: ChunkTag,
    pub text: String,
}

#[verifier::ext_equal]
pub ghost struct DiffChunkView {
    pub tag: ChunkTag,
    pub text: Seq<char>,
}

impl View for DiffChunk {
    type V = DiffChunkView;

    open spec fn view(&self) -> DiffChunkView {
        DiffChunkView { tag: self.tag, text: self.text@ }
    }
}

/// The line diff that the text-diff engine computes between two texts: a
/// function of the two texts alone.
pub uninterp spec fn text_diff_of(old: Seq<char>, new: Seq<char>) -> Seq<DiffChunkView>;

/// Relies on `similar::TextDiff::from_lines` and `iter_all_changes`: a
/// deterministic line diff of the two texts, each change tagged equal,
/// delete or insert; the tags are moved over one arm each.
#[verifier::external_body]
pub fn compute_text_diff(old: &str, new: &str) -> (r: Vec<DiffChunk>)
    ensures
        r@.map_values(|c: DiffChunk| c@) == text_diff_of(old@, new@),
{
    let diff = similar::TextDiff::from_lines(old, new);
    diff.iter_all_changes()
        .map(|change| DiffChunk {
            tag: match change.tag() {
                similar::ChangeTag::Equal => ChunkTag::Equal,
                similar::ChangeTag::Delete => ChunkTag::Delete,
                similar::ChangeTag::Insert => ChunkTag::Insert,
            },
            text: change.value().to_string(),
        })
        .collect()
}

// ---- change list with review status ----

/// A change as the change list shows it.
#[derive(Debug, Clone)]
pub struct ChangeWithStatus {
    pub change: Change,
    pub merged: bool,
    pub open_thread_count: usize,
    pub revision_count: usize,
    pub has_pending_changes: bool,
}

#[verifier::ext_equal]
pub ghost struct ChangeWithStatusView {
    pub change: ChangeView,
    pub merged: bool,
    pub open_thread_count: int,
    pub revision_count: int,
    pub has_pending_changes: bool,
}

impl View for ChangeWithStatus {
    type V = ChangeWithStatusView;

    open spec fn view(&self) -> ChangeWithStatusView {
        ChangeWithStatusView {
            change: self.change@,
            merged: self.merged,
            open_thread_count: self.open_thread_count as int,
            revision_count: self.revision_count as int,
            has_pending_changes: self.has_pending_changes,
        }
    }
}

/// Index of the first change with this id, or -1.
pub open spec fn spec_find_change(changes: Seq<ChangeView>, id: Seq<char>) -> int
    decreases changes.len(),
{
    if changes.len() == 0 {
        -1
    } else if changes[0].change_id == id {
        0
    } else {
        let r = spec_find_change(changes.skip(1), id);
        if r < 0 {
            -1
        } else {
            r + 1
        }
    }
}

/// Index of the first review for this change, or -1.
pub open spec fn spec_find_review(reviews: Seq<ReviewView>, id: Seq<char>) -> int
    decreases reviews.len(),
{
    if reviews.len() == 0 {
        -1
    } else if reviews[0].change_id == id {
        0
    } else {
        let r = spec_find_review(reviews.skip(1), id);
        if r < 0 {
            -1
        } else {
            r + 1
        }
    }
}

/// The pending flag of one change: its review's working commit differs
/// from the last recorded revision (or exists with none recorded), or it
/// differs from the commit the DVCS reports now.
pub open spec fn spec_has_pending(r: ReviewView, current_commit: Seq<char>) -> bool {
    ||| match r.working_commit_id {
        Some(_) => !spec_last_commit_matches(r.revisions, r.working_commit_id.unwrap()),
        None => false,
    }
    ||| match r.working_commit_id {
        Some(w) => w != current_commit,
        None => false,
    }
}

/// What the change list says of the change at `idx`.
pub open spec fn spec_change_status(
    c: ChangeView,
    idx: int,
    main_idx: int,
    reviews: Seq<ReviewView>,
) -> ChangeWithStatusView {
    let ri = spec_find_review(reviews, c.change_id);
    ChangeWithStatusView {
        change: c,
        merged: main_idx >= 0 && idx >= main_idx,
        open_thread_count: if 0 <= ri < reviews.len() {
            spec_count_open(reviews[ri].threads)
        } else {
            0
        },
        revision_count: if 0 <= ri < reviews.len() {
            reviews[ri].revisions.len() as int
        } else {
            0
        },
        has_pending_changes: 0 <= ri < reviews.len() && spec_has_pending(
            reviews[ri],
            c.commit_id,
        ),
    }
}

proof fn lemma_find_review_at(reviews: Seq<ReviewView>, id: Seq<char>, k: int)
    requires
        0 <= k < reviews.len(),
        reviews[k].change_id == id,
        forall|j: int| 0 <= j < k ==> (#[trigger] reviews[j]).change_id != id,
    ensures
        spec_find_review(reviews, id) == k,
    decreases k,
{
    if k > 0 {
        lemma_find_review_at(reviews.skip(1), id, k - 1);
    }
}

proof fn lemma_find_review_none(reviews: Seq<ReviewView>, id: Seq<char>)
    requires
        forall|j: int| 0 <= j < reviews.len() ==> (#[trigger] reviews[j]).change_id != id,
    ensures
        spec_find_review(reviews, id) == -1,
    decreases reviews.len(),
{
    if reviews.len() > 0 {
        lemma_find_review_none(reviews.skip(1), id);
    }
}

proof fn lemma_find_change_at(changes: Seq<ChangeView>, id: Seq<char>, k: int)
    requires
        0 <= k < changes.len(),
        changes[k].change_id == id,
        forall|j: int| 0 <= j < k ==> (#[trigger] changes[j]).change_id != id,
    ensures
        spec_find_change(changes, id) == k,
    decreases k,
{
    if k > 0 {
        lemma_find_change_at(changes.skip(1), id, k - 1);
    }
}

proof fn lemma_find_change_none(changes: Seq<ChangeView>, id: Seq<char>)
    requires
        forall|j: int| 0 <= j < changes.len() ==> (#[trigger] changes[j]).change_id != id,
    ensures
        spec_find_change(changes, id) == -1,
    decreases changes.len(),
{
    if changes.len() > 0 {
        lemma_find_change_none(changes.skip(1), id);
    }
}

fn find_review_index(reviews: &Vec<Review>, id: &str) -> (r: Option<usize>)
    ensures
        ({
            let rv = reviews@.map_values(|x: Review| x@);
            match r {
                Some(i) => i < reviews@.len() && spec_find_review(rv, id@) == i as int,
                None => spec_find_review(rv, id@) == -1,
            }
        }),
{
    let ghost rv = reviews@.map_values(|x: Review| x@);
    let mut i: usize = 0;
    while i < reviews.len()
        invariant
            0 <= i <= reviews@.len(),
            rv == reviews@.map_values(|x: Review| x@),
            forall|j: int| 0 <= j < i ==> (#[trigger] rv[j]).change_id != id@,
        decreases reviews@.len() - i,
    {
        proof {
            assert(rv[i as int] == reviews@[i as int]@);
        }
        if str_eq(reviews[i].change_id.as_str(), id) {
            proof {
                lemma_find_review_at(rv, id@, i as int);
            }
            return Some(i);
        }
        i += 1;
    }
    proof {
        lemma_find_review_none(rv, id@);
    }
    None
}

/// Join the log's changes with their reviews: merged flags relative to the
/// trunk bookmark's position in the ancestor list, open-thread and revision
/// counts, and the pending flag.
pub fn list_changes_status(
    changes: Vec<Change>,
    main_change_id: Option<&String>,
    reviews: &Vec<Review>,
) -> (r: Vec<ChangeWithStatus>)
    ensures
        ({
            let cv = changes@.map_values(|c: Change| c@);
            let rv = reviews@.map_values(|x: Review| x@);
            let main_idx = match main_change_id {
                Some(m) => spec_find_change(cv, m@),
                None => -1,
            };
            r@.len() == cv.len() && forall|i: int|
                0 <= i < r@.len() ==> (#[trigger] r@[i])@ == spec_change_status(
                    cv[i],
                    i,
                    main_idx,
                    rv,
                )
        }),
{
    let ghost cv = changes@.map_values(|c: Change| c@);
    let ghost rv = reviews@.map_values(|x: Review| x@);

    // Position of the trunk bookmark's change in the list, if any.
    let mut main_idx: usize = 0;
    let mut main_found: bool = false;
    match main_change_id {
        Some(m) => {
            let mut i: usize = 0;
            let n = changes.len();
            while i < n && !main_found
                invariant
                    0 <= i <= n,
                    n == changes@.len(),
                    cv == changes@.map_values(|c: Change| c@),
                    forall|j: int| 0 <= j < i ==> (#[trigger] cv[j]).change_id != m@,
                    main_found ==> i < n && main_idx == i && cv[i as int].change_id == m@,
                decreases n - i, if main_found { 0int } else { 1int },
            {
                proof {
                    assert(cv[i as int] == changes@[i as int]@);
                }
                if str_eq(changes[i].change_id.as_str(), m.as_str()) {
                    main_found = true;
                    main_idx = i;
                } else {
                    i += 1;
                }
            }
            proof {
                if main_found {
                    lemma_find_change_at(cv, m@, main_idx as int);
                } else {
                    lemma_find_change_none(cv, m@);
                }
            }
        },
        None => {
        },
    }
    let ghost spec_main_idx: int = match main_change_id {
        Some(m) => spec_find_change(cv, m@),
        None => -1,
    };
    proof {
        match main_change_id {
            Some(m) => {
                assert(main_found ==> spec_main_idx == main_idx as int);
                assert(!main_found ==> spec_main_idx == -1);
            },
            None => {},
        }
    }

    let mut rest = changes;
    let mut out: Vec<ChangeWithStatus> = Vec::new();
    while rest.len() > 0
        invariant
            cv == changes@.map_values(|c: Change| c@),
            rv == reviews@.map_values(|x: Review| x@),
            out@.len() + rest@.len() == cv.len(),
            forall|j: int| 0 <= j < rest@.len() ==> (#[trigger] rest@[j])@ == cv[out@.len() + j],
            main_found ==> spec_main_idx == main_idx as int,
            !main_found ==> spec_main_idx == -1,
            forall|i: int|
                0 <= i < out@.len() ==> (#[trigger] out@[i])@ == spec_change_status(
                    cv[i],
                    i,
                    spec_main_idx,
                    rv,
                ),
        decreases rest@.len(),
    {
        let idx = out.len();
        let c = rest.remove(0);
        proof {
            assert(c@ == cv[idx as int]);
        }
        let (open_count, revision_count, pending): (usize, usize, bool) = match find_review_index(
            reviews,
            c.change_id.as_str(),
        ) {
            Some(ri) => {
                proof {
                    assert(reviews@[ri as int]@ == rv[ri as int]);
                }
                let rev = &reviews[ri];
                let open = rev.count_open_threads();
                let nrev = rev.revisions.len();
                let base_pending: bool = match &rev.working_commit_id {
                    Some(w) => {
                        if nrev == 0 {
                            true
                        } else {
                            proof {
                                assert(rev@.revisions.last() == rev.revisions@[nrev - 1]@);
                            }
                            !str_eq(rev.revisions[nrev - 1].commit_id.as_str(), w.as_str())
                        }
                    },
                    None => false,
                };
                let drift_pending: bool = match &rev.working_commit_id {
                    Some(w) => !str_eq(w.as_str(), c.commit_id.as_str()),
                    None => false,
                };
                (open, nrev, base_pending || drift_pending)
            },
            None => (0, 0, false),
        };
        let merged = main_found && idx >= main_idx;
        let cws = ChangeWithStatus {
            change: c,
            merged,
            open_thread_count: open_count,
            revision_count,
            has_pending_changes: pending,
        };
        proof {
            assert(cws@ =~= spec_change_status(cv[idx as int], idx as int, spec_main_idx, rv));
        }
        out.push(cws);
    }
    out
}

} // verus!

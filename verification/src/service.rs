//! The tool-facing service requests and what they do to a review: respond
//! to a thread (optionally resolving it), and record a revision only when
//! it would not repeat the last one.

use vstd::prelude::*;
use vstd::string::*;

use crate::review::{
    Author, Review, ReviewView, StoreError, spec_count_prefix, spec_find_prefix,
    spec_last_commit_matches, spec_new_comment, spec_record_revision, spec_set_status_by_id,
    ThreadStatus, ThreadView,
};
use crate::text::str_eq;

verus! {

/// A request to respond to a review thread.
#[derive(Debug, Clone)]
pub struct RespondRequest {
    pub change_id: String,
    pub thread_id: String,
    pub message: String,
    pub resolve: bool,
}

/// A request to record a new revision after addressing feedback.
#[derive(Debug, Clone)]
pub struct RecordRevisionRequest {
    pub change_id: String,
    pub description: String,
}

/// What responding does: the reply lands on the thread named by the full
/// id or unique prefix, and when asked the thread is resolved under its
/// full id.
pub open spec fn spec_respond(
    r: ReviewView,
    thread_id: Seq<char>,
    message: Seq<char>,
    resolve: bool,
    now: Seq<char>,
) -> Result<ReviewView, StoreError> {
    let ids = r.threads.map_values(|t: ThreadView| t.id);
    let c = spec_count_prefix(ids, thread_id);
    if c == 0 {
        Err(StoreError::NotFound)
    } else if c >= 2 {
        Err(StoreError::Ambiguous)
    } else {
        let i = spec_find_prefix(ids, thread_id);
        let replied = ReviewView {
            threads: r.threads.update(
                i,
                ThreadView {
                    comments: r.threads[i].comments.push(
                        spec_new_comment(Author::Agent, message, now),
                    ),
                    ..r.threads[i]
                },
            ),
            ..r
        };
        if resolve {
            match spec_set_status_by_id(replied, replied.threads[i].id, ThreadStatus::Resolved) {
                Some(v) => Ok(v),
                None => Err(StoreError::NotFound),
            }
        } else {
            Ok(replied)
        }
    }
}

/// Apply a respond request: reply as the agent, and resolve the thread
/// when asked.
pub fn apply_respond(review: Review, req: &RespondRequest, now: &str) -> (r: Result<
    Review,
    StoreError,
>)
    ensures
        ({
            match (r, spec_respond(review@, req.thread_id@, req.message@, req.resolve, now@)) {
                (Ok(rr), Ok(v)) => rr@ == v,
                (Err(e1), Err(e2)) => e1 == e2,
                _ => false,
            }
        }),
{
    let replied = match review.reply_to_thread(
        req.thread_id.as_str(),
        Author::Agent,
        req.message.as_str(),
        now,
    ) {
        Ok(rr) => rr,
        Err(e) => {
            return Err(e);
        },
    };
    if req.resolve {
        proof {
            assert(replied@.threads.map_values(|t: ThreadView| t.id) =~= review@.threads.map_values(
                |t: ThreadView| t.id,
            ));
        }
        // Resolve under the thread's full id, which the reply just found.
        let full_id = find_full_id(&replied, req.thread_id.as_str());
        match full_id {
            Some(fid) => replied.resolve_thread(fid.as_str()),
            None => Err(StoreError::NotFound),
        }
    } else {
        Ok(replied)
    }
}

/// The full id of the first thread whose id starts with the prefix.
fn find_full_id(review: &Review, prefix: &str) -> (r: Option<String>)
    ensures
        ({
            let ids = review@.threads.map_values(|t: ThreadView| t.id);
            let i = spec_find_prefix(ids, prefix@);
            match r {
                Some(fid) => 0 <= i < ids.len() && fid@ == ids[i],
                None => i == -1,
            }
        }),
{
    let ghost ids = review@.threads.map_values(|t: ThreadView| t.id);
    let mut k: usize = 0;
    let n = review.threads.len();
    while k < n
        invariant
            0 <= k <= n,
            n == review.threads@.len(),
            ids == review@.threads.map_values(|t: ThreadView| t.id),
            forall|j: int| 0 <= j < k ==> !crate::review::id_starts_with(#[trigger] ids[j], prefix@),
        decreases n - k,
    {
        proof {
            assert(ids[k as int] == review.threads@[k as int]@.id);
        }
        if crate::text::starts_with(review.threads[k].id.as_str(), prefix) {
            proof {
                crate::review::lemma_find_prefix_at(ids, prefix@, k as int);
            }
            return Some(review.threads[k].id.clone());
        }
        k += 1;
    }
    proof {
        crate::review::lemma_find_prefix_none(ids, prefix@);
    }
    None
}

/// Record a revision only when the current commit is not already the last
/// recorded one: a repeated recording is refused as a no-op.
pub fn record_revision_checked(review: Review, commit_id: &str, description: &str, now: &str) -> (r:
    Result<(Review, u32), Review>)
    requires
        review.revisions@.len() < u32::MAX,
    ensures
        ({
            match r {
                Ok((rr, n)) => !spec_last_commit_matches(review@.revisions, commit_id@) && rr@
                    == spec_record_revision(
                    review@,
                    commit_id@,
                    Some(description@),
                    now@,
                ) && n as int == review@.revisions.len() + 1,
                Err(rr) => spec_last_commit_matches(review@.revisions, commit_id@) && rr@
                    == review@,
            }
        }),
{
    let n = review.revisions.len();
    let repeated: bool = if n == 0 {
        false
    } else {
        proof {
            assert(review@.revisions.last() == review.revisions@[n - 1]@);
        }
        str_eq(review.revisions[n - 1].commit_id.as_str(), commit_id)
    };
    if repeated {
        return Err(review);
    }
    let desc = description.to_owned();
    let (rr, num) = review.record_revision(commit_id, Some(desc), now);
    Ok((rr, num))
}

} // verus!

//! The merge gate: whether one change may be promoted to trunk, given its
//! description, its recorded revisions, and its open threads. The decision
//! is a pure function; moving the bookmark is the caller's deed.

use vstd::prelude::*;
use vstd::string::*;

use crate::review::{Review, ReviewView, spec_count_open, spec_last_commit_matches};
use crate::text::{is_blank, spec_blank, spec_decimal, str_eq, u64_to_string};

verus! {

/// The outcome of the merge check: whether the bookmark may move, and
/// the message the consumer shows either way.
#[derive(Debug, Clone)]
pub struct MergeDecision {
    pub success: bool,
    pub message: String,
}

#[verifier::ext_equal]
pub ghost struct MergeDecisionView {
    pub success: bool,
    pub message: Seq<char>,
}

impl View for MergeDecision {
    type V = MergeDecisionView;

    open spec fn view(&self) -> MergeDecisionView {
        MergeDecisionView { success: self.success, message: self.message@ }
    }
}

pub open spec fn msg_already_at_main() -> Seq<char> {
    "Change is already at main"@
}

pub open spec fn msg_empty_description() -> Seq<char> {
    "Cannot merge: commit message is empty. Set a description with `jj describe -m \"...\"`"@
}

pub open spec fn msg_pending() -> Seq<char> {
    "Cannot merge: pending changes not yet recorded as a revision. Use force=true to override."@
}

pub open spec fn msg_open_threads(n: nat) -> Seq<char> {
    "Cannot merge: "@ + spec_decimal(n) + " open thread(s). Use force=true to override."@
}

/// The first eight characters of a change id, or all of a shorter one.
pub open spec fn spec_change_prefix(id: Seq<char>) -> Seq<char> {
    if id.len() <= 8 {
        id
    } else {
        id.take(8)
    }
}

pub open spec fn msg_merged(id: Seq<char>) -> Seq<char> {
    "Merged: main now at "@ + spec_change_prefix(id)
}

/// Is the change's current commit recorded as its last revision? An absent
/// review or an empty revision list counts as pending work.
pub open spec fn spec_recorded_current(review: Option<ReviewView>, commit: Seq<char>) -> bool {
    match review {
        Some(r) => spec_last_commit_matches(r.revisions, commit),
        None => false,
    }
}

pub open spec fn spec_review_open_count(review: Option<ReviewView>) -> int {
    match review {
        Some(r) => spec_count_open(r.threads),
        None => 0,
    }
}

/// The decision on promoting a single change to trunk. A change already at the
/// trunk bookmark is always refused; an empty description, unrecorded
/// pending work, and open threads refuse unless forced; otherwise the
/// bookmark may move and the message names an 8-character prefix of the
/// change id.
pub open spec fn spec_evaluate_merge(
    change_id: Seq<char>,
    main_change_id: Option<Seq<char>>,
    description: Seq<char>,
    current_commit_id: Seq<char>,
    review: Option<ReviewView>,
    force: bool,
) -> MergeDecisionView {
    if main_change_id == Some(change_id) {
        MergeDecisionView { success: false, message: msg_already_at_main() }
    } else if !force && spec_blank(description) {
        MergeDecisionView { success: false, message: msg_empty_description() }
    } else if !force && !spec_recorded_current(review, current_commit_id) {
        MergeDecisionView { success: false, message: msg_pending() }
    } else if !force && spec_review_open_count(review) > 0 {
        MergeDecisionView {
            success: false,
            message: msg_open_threads(spec_review_open_count(review) as nat),
        }
    } else {
        MergeDecisionView { success: true, message: msg_merged(change_id) }
    }
}

/// Decide whether a change may be promoted to trunk.
pub fn evaluate_merge(
    change_id: &str,
    main_change_id: Option<&String>,
    description: &str,
    current_commit_id: &str,
    review: Option<&Review>,
    force: bool,
) -> (r: MergeDecision)
    ensures
        r@ == spec_evaluate_merge(
            change_id@,
            match main_change_id {
                Some(m) => Some(m@),
                None => None,
            },
            description@,
            current_commit_id@,
            match review {
                Some(v) => Some(v@),
                None => None,
            },
            force,
        ),
{
    let ghost spec_main: Option<Seq<char>> = match main_change_id {
        Some(m) => Some(m@),
        None => None,
    };
    let ghost spec_review: Option<ReviewView> = match review {
        Some(v) => Some(v@),
        None => None,
    };
    let at_main: bool = match main_change_id {
        Some(m) => str_eq(m.as_str(), change_id),
        None => false,
    };
    if at_main {
        let d = MergeDecision { success: false, message: String::from_str("Change is already at main") };
        proof {
            assert(d@ =~= spec_evaluate_merge(
                change_id@,
                spec_main,
                description@,
                current_commit_id@,
                spec_review,
                force,
            ));
        }
        return d;
    }
    if !force && is_blank(description) {
        let d = MergeDecision {
            success: false,
            message: String::from_str(
                "Cannot merge: commit message is empty. Set a description with `jj describe -m \"...\"`",
            ),
        };
        proof {
            assert(d@ =~= spec_evaluate_merge(
                change_id@,
                spec_main,
                description@,
                current_commit_id@,
                spec_review,
                force,
            ));
        }
        return d;
    }
    let recorded: bool = match review {
        Some(v) => {
            let n = v.revisions.len();
            if n == 0 {
                false
            } else {
                proof {
                    assert(v@.revisions.last() == v.revisions@[n - 1]@);
                }
                str_eq(v.revisions[n - 1].commit_id.as_str(), current_commit_id)
            }
        },
        None => false,
    };
    if !force && !recorded {
        let d = MergeDecision {
            success: false,
            message: String::from_str(
                "Cannot merge: pending changes not yet recorded as a revision. Use force=true to override.",
            ),
        };
        proof {
            assert(d@ =~= spec_evaluate_merge(
                change_id@,
                spec_main,
                description@,
                current_commit_id@,
                spec_review,
                force,
            ));
        }
        return d;
    }
    let open_count: usize = match review {
        Some(v) => v.count_open_threads(),
        None => 0,
    };
    if !force && open_count > 0 {
        let mut m = String::from_str("Cannot merge: ");
        let num = u64_to_string(open_count as u64);
        m.append(num.as_str());
        m.append(" open thread(s). Use force=true to override.");
        let d = MergeDecision { success: false, message: m };
        proof {
            assert(d@.message =~= msg_open_threads(open_count as nat));
            assert(d@ =~= spec_evaluate_merge(
                change_id@,
                spec_main,
                description@,
                current_commit_id@,
                spec_review,
                force,
            ));
        }
        return d;
    }
    let idl = change_id.unicode_len();
    let cut: usize = if idl <= 8 {
        idl
    } else {
        8
    };
    let mut m = String::from_str("Merged: main now at ");
    m.append(change_id.substring_char(0, cut));
    let d = MergeDecision { success: true, message: m };
    proof {
        if idl <= 8 {
            assert(change_id@.subrange(0, cut as int) =~= change_id@);
        } else {
            assert(change_id@.subrange(0, cut as int) =~= change_id@.take(8));
        }
        assert(d@.message =~= msg_merged(change_id@));
        assert(d@ =~= spec_evaluate_merge(
            change_id@,
            spec_main,
            description@,
            current_commit_id@,
            spec_review,
            force,
        ));
    }
    d
}

} // verus!

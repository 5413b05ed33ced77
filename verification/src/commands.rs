//! The review subcommands and the text their read-only forms print. The
//! command handler itself lives with the caller; here are the command data
//! and the verified renderers of the list and show views.

use vstd::prelude::*;
use vstd::string::*;

use crate::review::{
    Author, Comment, CommentView, Review, ReviewView, Thread, ThreadStatus, ThreadView,
    spec_count_open, spec_has_open_thread,
};
use crate::text::{spec_decimal, u64_to_string};

verus! {

/// The review subcommands of the command line.
pub enum ReviewCommands {
    List,
    Show { change_id: String },
    Reply { change_id: String, thread_id: String, message: String },
    Resolve { change_id: String, thread_id: String },
}

// ---- list rendering ----

/// One thread's line of the list view.
pub open spec fn spec_list_thread_line(t: ThreadView) -> Seq<char> {
    "    ["@ + t.id + "] "@ + t.file + ":"@ + spec_decimal(t.line_start as nat) + "-"@
        + spec_decimal(t.line_end as nat) + " ("@ + spec_decimal(t.comments.len() as nat)
        + " comment(s))\n"@
}

/// The open threads' lines of one review.
pub open spec fn spec_list_threads(threads: Seq<ThreadView>) -> Seq<char>
    decreases threads.len(),
{
    if threads.len() == 0 {
        Seq::empty()
    } else {
        (if threads[0].status == ThreadStatus::Open {
            spec_list_thread_line(threads[0])
        } else {
            Seq::empty()
        }) + spec_list_threads(threads.skip(1))
    }
}

/// One review's section of the list view.
pub open spec fn spec_list_review(r: ReviewView) -> Seq<char> {
    "  "@ + r.change_id + " - "@ + spec_decimal(spec_count_open(r.threads) as nat)
        + " open thread(s)\n"@ + spec_list_threads(r.threads)
}

/// The whole list view over the reviews that have open threads.
pub open spec fn spec_review_list(rs: Seq<ReviewView>) -> Seq<char>
    decreases rs.len(),
{
    if rs.len() == 0 {
        Seq::empty()
    } else {
        (if spec_has_open_thread(rs[0]) {
            spec_list_review(rs[0])
        } else {
            Seq::empty()
        }) + spec_review_list(rs.skip(1))
    }
}

fn format_list_threads(threads: &Vec<Thread>) -> (r: String)
    ensures
        r@ == spec_list_threads(threads@.map_values(|t: Thread| t@)),
{
    let ghost tv = threads@.map_values(|t: Thread| t@);
    let mut acc = String::new();
    let mut i: usize = 0;
    proof {
        assert(tv.skip(0) =~= tv);
        assert(acc@ + spec_list_threads(tv) =~= spec_list_threads(tv));
    }
    while i < threads.len()
        invariant
            0 <= i <= threads@.len(),
            tv == threads@.map_values(|t: Thread| t@),
            spec_list_threads(tv) == acc@ + spec_list_threads(tv.skip(i as int)),
        decreases threads@.len() - i,
    {
        proof {
            assert(tv.skip(i as int)[0] == tv[i as int]);
            assert(tv.skip(i as int).skip(1) =~= tv.skip(i as int + 1));
            assert(tv[i as int] == threads@[i as int]@);
        }
        let ghost pre = acc@;
        let t = &threads[i];
        if matches!(t.status, ThreadStatus::Open) {
            acc.append("    [");
            acc.append(t.id.as_str());
            acc.append("] ");
            acc.append(t.file.as_str());
            acc.append(":");
            let n1 = u64_to_string(t.line_start as u64);
            acc.append(n1.as_str());
            acc.append("-");
            let n2 = u64_to_string(t.line_end as u64);
            acc.append(n2.as_str());
            acc.append(" (");
            let n3 = u64_to_string(t.comments.len() as u64);
            acc.append(n3.as_str());
            acc.append(" comment(s))\n");
            proof {
                assert(t@.comments.len() == t.comments@.len());
                assert(acc@ =~= pre + spec_list_thread_line(tv[i as int]));
            }
        }
        proof {
            assert(acc@ + spec_list_threads(tv.skip(i as int + 1)) =~= pre + spec_list_threads(
                tv.skip(i as int),
            ));
        }
        i += 1;
    }
    proof {
        assert(tv.skip(i as int) =~= Seq::<ThreadView>::empty());
        assert(acc@ =~= spec_list_threads(tv));
    }
    acc
}

/// Render the list view: each review that has open threads, with its open
/// threads beneath it.
pub fn format_review_list(reviews: &Vec<Review>) -> (r: String)
    ensures
        r@ == spec_review_list(reviews@.map_values(|x: Review| x@)),
{
    let ghost rv = reviews@.map_values(|x: Review| x@);
    let mut acc = String::new();
    let mut i: usize = 0;
    proof {
        assert(rv.skip(0) =~= rv);
        assert(acc@ + spec_review_list(rv) =~= spec_review_list(rv));
    }
    while i < reviews.len()
        invariant
            0 <= i <= reviews@.len(),
            rv == reviews@.map_values(|x: Review| x@),
            spec_review_list(rv) == acc@ + spec_review_list(rv.skip(i as int)),
        decreases reviews@.len() - i,
    {
        proof {
            assert(rv.skip(i as int)[0] == rv[i as int]);
            assert(rv.skip(i as int).skip(1) =~= rv.skip(i as int + 1));
            assert(rv[i as int] == reviews@[i as int]@);
        }
        let ghost pre = acc@;
        let rev = &reviews[i];
        if rev.has_open_thread() {
            acc.append("  ");
            acc.append(rev.change_id.as_str());
            acc.append(" - ");
            let cnt = rev.count_open_threads();
            let n1 = u64_to_string(cnt as u64);
            acc.append(n1.as_str());
            acc.append(" open thread(s)\n");
            let ths = format_list_threads(&rev.threads);
            acc.append(ths.as_str());
            proof {
                assert(acc@ =~= pre + spec_list_review(rv[i as int]));
            }
        }
        proof {
            assert(acc@ + spec_review_list(rv.skip(i as int + 1)) =~= pre + spec_review_list(
                rv.skip(i as int),
            ));
        }
        i += 1;
    }
    proof {
        assert(rv.skip(i as int) =~= Seq::<ReviewView>::empty());
        assert(acc@ =~= spec_review_list(rv));
    }
    acc
}

// ---- show rendering ----

pub open spec fn spec_status_label(st: ThreadStatus) -> Seq<char> {
    match st {
        ThreadStatus::Open => "OPEN"@,
        ThreadStatus::Resolved => "RESOLVED"@,
    }
}

pub open spec fn spec_author_line(c: CommentView) -> Seq<char> {
    "  "@ + (match c.author {
        Author::User => "user"@,
        Author::Agent => "agent"@,
    }) + ": "@ + c.text + "\n"@
}

pub open spec fn spec_show_comments(cs: Seq<CommentView>) -> Seq<char>
    decreases cs.len(),
{
    if cs.len() == 0 {
        Seq::empty()
    } else {
        spec_author_line(cs[0]) + spec_show_comments(cs.skip(1))
    }
}

pub open spec fn spec_show_thread(t: ThreadView) -> Seq<char> {
    "["@ + t.id + "] "@ + t.file + ":"@ + spec_decimal(t.line_start as nat) + "-"@ + spec_decimal(
        t.line_end as nat,
    ) + " ("@ + spec_status_label(t.status) + ")\n"@ + spec_show_comments(t.comments) + "\n"@
}

pub open spec fn spec_show_threads(threads: Seq<ThreadView>) -> Seq<char>
    decreases threads.len(),
{
    if threads.len() == 0 {
        Seq::empty()
    } else {
        spec_show_thread(threads[0]) + spec_show_threads(threads.skip(1))
    }
}

/// The show view: the diff under a header, then every thread with its
/// status and comments, or a no-comments marker.
pub open spec fn spec_review_show(r: ReviewView, diff_raw: Seq<char>) -> Seq<char> {
    "=== Diff for "@ + r.change_id + " (base: "@ + r.base + ") ===\n\n"@ + diff_raw + (
    if r.threads.len() == 0 {
        "\n=== No comments ===\n"@
    } else {
        "\n=== Comments ===\n\n"@ + spec_show_threads(r.threads)
    })
}

fn format_show_comments(cs: &Vec<Comment>) -> (r: String)
    ensures
        r@ == spec_show_comments(cs@.map_values(|c: Comment| c@)),
{
    let ghost cv = cs@.map_values(|c: Comment| c@);
    let mut acc = String::new();
    let mut i: usize = 0;
    proof {
        assert(cv.skip(0) =~= cv);
        assert(acc@ + spec_show_comments(cv) =~= spec_show_comments(cv));
    }
    while i < cs.len()
        invariant
            0 <= i <= cs@.len(),
            cv == cs@.map_values(|c: Comment| c@),
            spec_show_comments(cv) == acc@ + spec_show_comments(cv.skip(i as int)),
        decreases cs@.len() - i,
    {
        proof {
            assert(cv.skip(i as int)[0] == cv[i as int]);
            assert(cv.skip(i as int).skip(1) =~= cv.skip(i as int + 1));
            assert(cv[i as int] == cs@[i as int]@);
        }
        let ghost pre = acc@;
        acc.append("  ");
        match cs[i].author {
            Author::User => acc.append("user"),
            Author::Agent => acc.append("agent"),
        }
        acc.append(": ");
        acc.append(cs[i].text.as_str());
        acc.append("\n");
        proof {
            assert(acc@ =~= pre + spec_author_line(cv[i as int]));
            assert(acc@ + spec_show_comments(cv.skip(i as int + 1)) =~= pre + spec_show_comments(
                cv.skip(i as int),
            ));
        }
        i += 1;
    }
    proof {
        assert(cv.skip(i as int) =~= Seq::<CommentView>::empty());
        assert(acc@ =~= spec_show_comments(cv));
    }
    acc
}

fn format_show_threads(threads: &Vec<Thread>) -> (r: String)
    ensures
        r@ == spec_show_threads(threads@.map_values(|t: Thread| t@)),
{
    let ghost tv = threads@.map_values(|t: Thread| t@);
    let mut acc = String::new();
    let mut i: usize = 0;
    proof {
        assert(tv.skip(0) =~= tv);
        assert(acc@ + spec_show_threads(tv) =~= spec_show_threads(tv));
    }
    while i < threads.len()
        invariant
            0 <= i <= threads@.len(),
            tv == threads@.map_values(|t: Thread| t@),
            spec_show_threads(tv) == acc@ + spec_show_threads(tv.skip(i as int)),
        decreases threads@.len() - i,
    {
        proof {
            assert(tv.skip(i as int)[0] == tv[i as int]);
            assert(tv.skip(i as int).skip(1) =~= tv.skip(i as int + 1));
            assert(tv[i as int] == threads@[i as int]@);
        }
        let ghost pre = acc@;
        let t = &threads[i];
        acc.append("[");
        acc.append(t.id.as_str());
        acc.append("] ");
        acc.append(t.file.as_str());
        acc.append(":");
        let n1 = u64_to_string(t.line_start as u64);
        acc.append(n1.as_str());
        acc.append("-");
        let n2 = u64_to_string(t.line_end as u64);
        acc.append(n2.as_str());
        acc.append(" (");
        match t.status {
            ThreadStatus::Open => acc.append("OPEN"),
            ThreadStatus::Resolved => acc.append("RESOLVED"),
        }
        acc.append(")\n");
        let cms = format_show_comments(&t.comments);
        acc.append(cms.as_str());
        acc.append("\n");
        proof {
            assert(acc@ =~= pre + spec_show_thread(tv[i as int]));
            assert(acc@ + spec_show_threads(tv.skip(i as int + 1)) =~= pre + spec_show_threads(
                tv.skip(i as int),
            ));
        }
        i += 1;
    }
    proof {
        assert(tv.skip(i as int) =~= Seq::<ThreadView>::empty());
        assert(acc@ =~= spec_show_threads(tv));
    }
    acc
}

/// Render a review with its diff and every comment thread.
pub fn format_review_show(review: &Review, diff_raw: &str) -> (r: String)
    ensures
        r@ == spec_review_show(review@, diff_raw@),
{
    let mut acc = String::from_str("=== Diff for ");
    acc.append(review.change_id.as_str());
    acc.append(" (base: ");
    acc.append(review.base.as_str());
    acc.append(") ===\n\n");
    acc.append(diff_raw);
    if review.threads.len() == 0 {
        acc.append("\n=== No comments ===\n");
    } else {
        acc.append("\n=== Comments ===\n\n");
        let ths = format_show_threads(&review.threads);
        acc.append(ths.as_str());
    }
    proof {
        assert(acc@ =~= spec_review_show(review@, diff_raw@));
    }
    acc
}

} // verus!

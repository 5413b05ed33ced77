//! The feedback report: open threads rendered with their stored and mapped
//! positions, a diff-adjacent code snippet (or raw file lines when the
//! thread sits on unchanged code), and the comment chain.

use vstd::prelude::*;
use vstd::string::*;

use crate::diff::spec_parse_hunk_header;
use crate::review::{Author, Comment, CommentView, Thread, ThreadStatus, ThreadView};
use crate::text::{
    spec_decimal, spec_lines, spec_starts_with, split_lines, starts_with, u64_to_string,
};
use crate::diff::parse_hunk_header;

verus! {

// ---- the window extractor ----

/// The extractor's walk over a file-scoped diff: an `@@` header re-anchors
/// a new-file cursor and is kept when its new-file range touches the
/// window; context and added lines carry the cursor forward and are kept
/// while the cursor sits in the window; deleted lines are kept at the
/// cursor without advancing it.
pub open spec fn spec_extract(
    lines: Seq<Seq<char>>,
    ws: int,
    we: int,
    in_hunk: bool,
    cursor: int,
) -> Seq<Seq<char>>
    decreases lines.len(),
{
    if lines.len() == 0 {
        Seq::empty()
    } else {
        let l = lines[0];
        let rest = lines.skip(1);
        if spec_starts_with(l, "@@"@) {
            match spec_parse_hunk_header(l) {
                Some(h) => (if h.new_start <= we && ws <= h.new_start + h.new_count {
                    seq![l]
                } else {
                    Seq::empty()
                }) + spec_extract(rest, ws, we, true, h.new_start),
                None => spec_extract(rest, ws, we, false, cursor),
            }
        } else if spec_starts_with(l, "diff --git"@) {
            spec_extract(rest, ws, we, false, cursor)
        } else if in_hunk {
            if l.len() == 0 || l[0] == ' ' || l[0] == '+' {
                (if ws <= cursor <= we {
                    seq![l]
                } else {
                    Seq::empty()
                }) + spec_extract(rest, ws, we, true, cursor + 1)
            } else if l[0] == '-' {
                (if ws <= cursor <= we {
                    seq![l]
                } else {
                    Seq::empty()
                }) + spec_extract(rest, ws, we, true, cursor)
            } else {
                spec_extract(rest, ws, we, true, cursor)
            }
        } else {
            spec_extract(rest, ws, we, false, cursor)
        }
    }
}

/// Extract from a diff the hunk lines whose new-file position falls within
/// `[window_start, window_end]`, keeping adjacent deleted lines and the
/// `@@` headers whose new-file range touches the window.
pub fn extract_diff_window(diff_text: &str, window_start: u32, window_end: u32) -> (r: Vec<String>)
    ensures
        r@.map_values(|l: String| l@) == spec_extract(
            spec_lines(diff_text@),
            window_start as int,
            window_end as int,
            false,
            0,
        ),
{
    let lines = split_lines(diff_text);
    let ghost all_lines = lines@.map_values(|l: String| l@);
    let ws = window_start as u64;
    let we = window_end as u64;
    let mut out: Vec<String> = Vec::new();
    let mut in_hunk: bool = false;
    let mut cursor: u128 = 0;
    let mut i: usize = 0;
    proof {
        assert(all_lines.skip(0) =~= all_lines);
        assert(out@.map_values(|l: String| l@) + spec_extract(
            all_lines,
            ws as int,
            we as int,
            false,
            0,
        ) =~= spec_extract(all_lines, ws as int, we as int, false, 0));
    }
    while i < lines.len()
        invariant
            0 <= i <= lines.len(),
            all_lines == lines@.map_values(|l: String| l@),
            ws == window_start,
            we == window_end,
            cursor <= u32::MAX as u128 + i as u128,
            spec_extract(all_lines, ws as int, we as int, false, 0) == out@.map_values(
                |l: String| l@,
            ) + spec_extract(
                all_lines.skip(i as int),
                ws as int,
                we as int,
                in_hunk,
                cursor as int,
            ),
        decreases lines.len() - i,
    {
        proof {
            assert(all_lines.skip(i as int)[0] == all_lines[i as int]);
            assert(all_lines.skip(i as int).skip(1) =~= all_lines.skip(i as int + 1));
        }
        let ghost pre_out = out@;
        let ghost pre_in = in_hunk;
        let ghost pre_cur = cursor as int;
        let line = &lines[i];
        if starts_with(line.as_str(), "@@") {
            match parse_hunk_header(line.as_str()) {
                Some(h) => {
                    let hend: u64 = h.new_start as u64 + h.new_count as u64;
                    if h.new_start as u64 <= we && ws <= hend {
                        out.push(line.clone());
                        proof {
                            assert(out@.map_values(|l: String| l@) =~= pre_out.map_values(
                                |l: String| l@,
                            ) + seq![line@]);
                        }
                    }
                    in_hunk = true;
                    cursor = h.new_start as u128;
                },
                None => {
                    in_hunk = false;
                },
            }
        } else if starts_with(line.as_str(), "diff --git") {
            in_hunk = false;
        } else if in_hunk {
            let n0 = line.as_str().unicode_len();
            let c0: char = if n0 == 0 {
                ' '
            } else {
                line.as_str().get_char(0)
            };
            if n0 == 0 || c0 == ' ' || c0 == '+' {
                if ws as u128 <= cursor && cursor <= we as u128 {
                    out.push(line.clone());
                    proof {
                        assert(out@.map_values(|l: String| l@) =~= pre_out.map_values(
                            |l: String| l@,
                        ) + seq![line@]);
                    }
                }
                cursor = cursor + 1;
            } else if c0 == '-' {
                if ws as u128 <= cursor && cursor <= we as u128 {
                    out.push(line.clone());
                    proof {
                        assert(out@.map_values(|l: String| l@) =~= pre_out.map_values(
                            |l: String| l@,
                        ) + seq![line@]);
                    }
                }
            }
        }
        proof {
            assert(spec_extract(all_lines.skip(i as int), ws as int, we as int, pre_in, pre_cur)
                =~= (out@.map_values(|l: String| l@).skip(pre_out.len() as int)) + spec_extract(
                all_lines.skip(i as int + 1),
                ws as int,
                we as int,
                in_hunk,
                cursor as int,
            ));
            assert(out@.map_values(|l: String| l@) =~= pre_out.map_values(|l: String| l@)
                + out@.map_values(|l: String| l@).skip(pre_out.len() as int));
            assert(out@.map_values(|l: String| l@) + spec_extract(
                all_lines.skip(i as int + 1),
                ws as int,
                we as int,
                in_hunk,
                cursor as int,
            ) =~= pre_out.map_values(|l: String| l@) + spec_extract(
                all_lines.skip(i as int),
                ws as int,
                we as int,
                pre_in,
                pre_cur,
            ));
        }
        i += 1;
    }
    proof {
        assert(all_lines.skip(i as int) =~= Seq::<Seq<char>>::empty());
        assert(out@.map_values(|l: String| l@) =~= spec_extract(
            all_lines,
            ws as int,
            we as int,
            false,
            0,
        ));
    }
    out
}


// ---- line joining and raw-file snippets ----

/// Each line followed by a newline.
pub open spec fn spec_join_nl(ls: Seq<Seq<char>>) -> Seq<char>
    decreases ls.len(),
{
    if ls.len() == 0 {
        Seq::empty()
    } else {
        ls[0] + "\n"@ + spec_join_nl(ls.skip(1))
    }
}

fn join_nl(ls: &Vec<String>) -> (r: String)
    ensures
        r@ == spec_join_nl(ls@.map_values(|l: String| l@)),
{
    let ghost lv = ls@.map_values(|l: String| l@);
    let mut acc = String::new();
    let mut i: usize = 0;
    proof {
        assert(lv.skip(0) =~= lv);
        assert(acc@ + spec_join_nl(lv) =~= spec_join_nl(lv));
    }
    while i < ls.len()
        invariant
            0 <= i <= ls@.len(),
            lv == ls@.map_values(|l: String| l@),
            spec_join_nl(lv) == acc@ + spec_join_nl(lv.skip(i as int)),
        decreases ls@.len() - i,
    {
        proof {
            assert(lv.skip(i as int)[0] == lv[i as int]);
            assert(lv.skip(i as int).skip(1) =~= lv.skip(i as int + 1));
            assert(lv[i as int] == ls@[i as int]@);
        }
        let ghost pre = acc@;
        acc.append(ls[i].as_str());
        acc.append("\n");
        proof {
            assert(acc@ + spec_join_nl(lv.skip(i as int + 1)) =~= pre + spec_join_nl(
                lv.skip(i as int),
            ));
        }
        i += 1;
    }
    proof {
        assert(lv.skip(i as int) =~= Seq::<Seq<char>>::empty());
        assert(acc@ =~= spec_join_nl(lv));
    }
    acc
}

/// One rendered source line of the raw-file fallback: a `>` marker on the
/// commented range, the 1-based number, a separator, and the line.
pub open spec fn spec_snippet_line(num: int, line: Seq<char>, ms: int, me: int) -> Seq<char> {
    (if ms <= num <= me {
        "> "@
    } else {
        "  "@
    }) + spec_decimal(num as nat) + " | "@ + line + "\n"@
}

/// The raw-file fallback snippet: the lines numbered `lo ..= hi`, each with
/// its marker.
pub open spec fn spec_snippet(
    lines: Seq<Seq<char>>,
    num: int,
    lo: int,
    hi: int,
    ms: int,
    me: int,
) -> Seq<char>
    decreases lines.len(),
{
    if lines.len() == 0 {
        Seq::empty()
    } else {
        (if lo <= num <= hi {
            spec_snippet_line(num, lines[0], ms, me)
        } else {
            Seq::empty()
        }) + spec_snippet(lines.skip(1), num + 1, lo, hi, ms, me)
    }
}

/// Render the raw file lines around the mapped range `ms ..= me`, three
/// lines of context on either side, a `>` marker on the range itself.
pub fn format_file_snippet(file_content: &str, ms: u32, me: u32) -> (r: String)
    ensures
        r@ == spec_snippet(
            spec_lines(file_content@),
            1,
            if ms > 3 {
                ms - 3
            } else {
                1
            },
            me as int + 3,
            ms as int,
            me as int,
        ),
{
    let lines = split_lines(file_content);
    let ghost lv = lines@.map_values(|l: String| l@);
    let lo: u32 = if ms > 3 {
        ms - 3
    } else {
        1
    };
    let hi: u64 = me as u64 + 3;
    let mut acc = String::new();
    let mut i: usize = 0;
    proof {
        assert(lv.skip(0) =~= lv);
        assert(acc@ + spec_snippet(lv, 1, lo as int, hi as int, ms as int, me as int)
            =~= spec_snippet(lv, 1, lo as int, hi as int, ms as int, me as int));
    }
    while i < lines.len()
        invariant
            0 <= i <= lines.len(),
            lv == lines@.map_values(|l: String| l@),
            lo as int == if ms > 3 {
                ms - 3
            } else {
                1
            },
            hi == me as u64 + 3,
            spec_snippet(lv, 1, lo as int, hi as int, ms as int, me as int) == acc@ + spec_snippet(
                lv.skip(i as int),
                i as int + 1,
                lo as int,
                hi as int,
                ms as int,
                me as int,
            ),
        decreases lines.len() - i,
    {
        proof {
            assert(lv.skip(i as int)[0] == lv[i as int]);
            assert(lv.skip(i as int).skip(1) =~= lv.skip(i as int + 1));
            assert(lv[i as int] == lines@[i as int]@);
        }
        let ghost pre = acc@;
        let num: u64 = i as u64 + 1;
        if lo as u64 <= num && num <= hi {
            if ms as u64 <= num && num <= me as u64 {
                acc.append("> ");
            } else {
                acc.append("  ");
            }
            let ns = u64_to_string(num);
            acc.append(ns.as_str());
            acc.append(" | ");
            acc.append(lines[i].as_str());
            acc.append("\n");
            proof {
                assert(acc@ =~= pre + spec_snippet_line(num as int, lv[i as int], ms as int, me as int));
            }
        }
        proof {
            assert(acc@ + spec_snippet(
                lv.skip(i as int + 1),
                i as int + 2,
                lo as int,
                hi as int,
                ms as int,
                me as int,
            ) =~= pre + spec_snippet(
                lv.skip(i as int),
                i as int + 1,
                lo as int,
                hi as int,
                ms as int,
                me as int,
            ));
        }
        i += 1;
    }
    proof {
        assert(lv.skip(i as int) =~= Seq::<Seq<char>>::empty());
        assert(acc@ =~= spec_snippet(lv, 1, lo as int, hi as int, ms as int, me as int));
    }
    acc
}

// ---- thread and report rendering ----

/// A thread's display start, falling back to the stored start.
pub open spec fn disp_start(t: ThreadView) -> int {
    match t.display_line_start {
        Some(d) => d,
        None => t.line_start,
    }
}

pub open spec fn disp_end(t: ThreadView) -> int {
    match t.display_line_end {
        Some(d) => d,
        None => t.line_end,
    }
}

pub open spec fn spec_author_label(a: Author) -> Seq<char> {
    match a {
        Author::User => "User"@,
        Author::Agent => "Agent"@,
    }
}

/// The rendered comment chain, one bullet per comment.
pub open spec fn spec_comments(cs: Seq<CommentView>) -> Seq<char>
    decreases cs.len(),
{
    if cs.len() == 0 {
        Seq::empty()
    } else {
        "- **"@ + spec_author_label(cs[0].author) + "**: "@ + cs[0].text + "\n"@ + spec_comments(
            cs.skip(1),
        )
    }
}

fn format_comments(cs: &Vec<Comment>) -> (r: String)
    ensures
        r@ == spec_comments(cs@.map_values(|c: Comment| c@)),
{
    let ghost cv = cs@.map_values(|c: Comment| c@);
    let mut acc = String::new();
    let mut i: usize = 0;
    proof {
        assert(cv.skip(0) =~= cv);
        assert(acc@ + spec_comments(cv) =~= spec_comments(cv));
    }
    while i < cs.len()
        invariant
            0 <= i <= cs@.len(),
            cv == cs@.map_values(|c: Comment| c@),
            spec_comments(cv) == acc@ + spec_comments(cv.skip(i as int)),
        decreases cs@.len() - i,
    {
        proof {
            assert(cv.skip(i as int)[0] == cv[i as int]);
            assert(cv.skip(i as int).skip(1) =~= cv.skip(i as int + 1));
            assert(cv[i as int] == cs@[i as int]@);
        }
        let ghost pre = acc@;
        acc.append("- **");
        match cs[i].author {
            Author::User => acc.append("User"),
            Author::Agent => acc.append("Agent"),
        }
        acc.append("**: ");
        acc.append(cs[i].text.as_str());
        acc.append("\n");
        proof {
            assert(acc@ =~= pre + ("- **"@ + spec_author_label(cv[i as int].author) + "**: "@
                + cv[i as int].text + "\n"@));
            assert(acc@ + spec_comments(cv.skip(i as int + 1)) =~= pre + spec_comments(
                cv.skip(i as int),
            ));
        }
        i += 1;
    }
    proof {
        assert(cv.skip(i as int) =~= Seq::<CommentView>::empty());
        assert(acc@ =~= spec_comments(cv));
    }
    acc
}

/// The feedback window: five lines of padding around the display range.
pub open spec fn spec_window_start(t: ThreadView) -> int {
    if disp_start(t) > 5 {
        disp_start(t) - 5
    } else {
        1
    }
}

pub open spec fn spec_window_end(t: ThreadView) -> int {
    if disp_end(t) + 5 > u32::MAX {
        u32::MAX as int
    } else {
        disp_end(t) + 5
    }
}

/// One thread's feedback block: its stored range, its current (mapped)
/// range with a deletion note, a diff-window snippet when the diff touches
/// the window and the raw file lines otherwise, then the comments.
pub open spec fn spec_thread_block(
    t: ThreadView,
    diff_text: Seq<char>,
    file_content: Seq<char>,
) -> Seq<char> {
    let ds = disp_start(t);
    let de = disp_end(t);
    let ex = spec_extract(spec_lines(diff_text), spec_window_start(t), spec_window_end(t), false, 0);
    "### Thread "@ + t.id + " - "@ + t.file + ":"@ + spec_decimal(t.line_start as nat) + "-"@
        + spec_decimal(t.line_end as nat) + "\nCurrent position: "@ + spec_decimal(ds as nat)
        + "-"@ + spec_decimal(de as nat) + (if t.is_deleted {
        " (lines deleted)\n\n"@
    } else {
        "\n\n"@
    }) + (if ex.len() > 0 {
        "```diff\n"@ + spec_join_nl(ex) + "```\n\n"@
    } else {
        "```\n"@ + spec_snippet(
            spec_lines(file_content),
            1,
            if ds > 3 {
                ds - 3
            } else {
                1
            },
            de + 3,
            ds,
            de,
        ) + "```\n\n"@
    }) + "**Comments:**\n"@ + spec_comments(t.comments) + "\n"@
}

/// Render one thread's feedback block.
pub fn format_thread_feedback(t: &Thread, diff_text: &str, file_content: &str) -> (r: String)
    requires
        t.line_start >= 1,
        t.line_end >= 1,
    ensures
        r@ == spec_thread_block(t@, diff_text@, file_content@),
{
    let ds: u32 = match t.display_line_start {
        Some(d) => d,
        None => t.line_start,
    };
    let de: u32 = match t.display_line_end {
        Some(d) => d,
        None => t.line_end,
    };
    let ws: u32 = if ds > 5 {
        ds - 5
    } else {
        1
    };
    let we: u32 = if de > u32::MAX - 5 {
        u32::MAX
    } else {
        de + 5
    };
    proof {
        assert(ds as int == disp_start(t@));
        assert(de as int == disp_end(t@));
        assert(ws as int == spec_window_start(t@));
        assert(we as int == spec_window_end(t@));
    }
    let mut acc = String::from_str("### Thread ");
    acc.append(t.id.as_str());
    acc.append(" - ");
    acc.append(t.file.as_str());
    acc.append(":");
    let n1 = u64_to_string(t.line_start as u64);
    acc.append(n1.as_str());
    acc.append("-");
    let n2 = u64_to_string(t.line_end as u64);
    acc.append(n2.as_str());
    let ghost part1 = "### Thread "@ + t@.id + " - "@ + t@.file + ":"@ + spec_decimal(
        t@.line_start as nat,
    ) + "-"@ + spec_decimal(t@.line_end as nat);
    proof {
        assert(acc@ =~= part1);
    }
    acc.append("\nCurrent position: ");
    let n3 = u64_to_string(ds as u64);
    acc.append(n3.as_str());
    acc.append("-");
    let n4 = u64_to_string(de as u64);
    acc.append(n4.as_str());
    if t.is_deleted {
        acc.append(" (lines deleted)\n\n");
    } else {
        acc.append("\n\n");
    }
    let ghost part2 = part1 + "\nCurrent position: "@ + spec_decimal(disp_start(t@) as nat) + "-"@
        + spec_decimal(disp_end(t@) as nat) + (if t@.is_deleted {
        " (lines deleted)\n\n"@
    } else {
        "\n\n"@
    });
    proof {
        assert(acc@ =~= part2);
    }
    let ex = extract_diff_window(diff_text, ws, we);
    let ghost exv = spec_extract(
        spec_lines(diff_text@),
        spec_window_start(t@),
        spec_window_end(t@),
        false,
        0,
    );
    let mut code = String::new();
    if ex.len() > 0 {
        code.append("```diff\n");
        let joined = join_nl(&ex);
        code.append(joined.as_str());
        code.append("```\n\n");
        proof {
            assert(code@ =~= "```diff\n"@ + spec_join_nl(exv) + "```\n\n"@);
        }
    } else {
        code.append("```\n");
        let snip = format_file_snippet(file_content, ds, de);
        code.append(snip.as_str());
        code.append("```\n\n");
        proof {
            assert(code@ =~= "```\n"@ + spec_snippet(
                spec_lines(file_content@),
                1,
                if disp_start(t@) > 3 {
                    disp_start(t@) - 3
                } else {
                    1
                },
                disp_end(t@) + 3,
                disp_start(t@),
                disp_end(t@),
            ) + "```\n\n"@);
        }
    }
    acc.append(code.as_str());
    let ghost part3 = part2 + code@;
    proof {
        assert(acc@ =~= part3);
    }
    acc.append("**Comments:**\n");
    let cms = format_comments(&t.comments);
    acc.append(cms.as_str());
    acc.append("\n");
    proof {
        assert(acc@ =~= part3 + "**Comments:**\n"@ + spec_comments(t@.comments) + "\n"@);
        assert(acc@ =~= spec_thread_block(t@, diff_text@, file_content@));
    }
    acc
}

/// One review's threads with the context each needs for its snippet.
pub struct FeedbackThread {
    pub thread: Thread,
    /// The diff of the change against its parent, scoped to the thread's
    /// file, with generous context.
    pub diff_text: String,
    /// The file's content at the current commit.
    pub file_content: String,
}

/// One review of the pending-feedback report.
pub struct FeedbackItem {
    pub change_id: String,
    pub threads: Vec<FeedbackThread>,
}

#[verifier::ext_equal]
pub ghost struct FeedbackThreadView {
    pub thread: ThreadView,
    pub diff_text: Seq<char>,
    pub file_content: Seq<char>,
}

impl View for FeedbackThread {
    type V = FeedbackThreadView;

    open spec fn view(&self) -> FeedbackThreadView {
        FeedbackThreadView {
            thread: self.thread@,
            diff_text: self.diff_text@,
            file_content: self.file_content@,
        }
    }
}

/// The open threads' blocks of one review, in order.
pub open spec fn spec_item_threads(ths: Seq<FeedbackThreadView>) -> Seq<char>
    decreases ths.len(),
{
    if ths.len() == 0 {
        Seq::empty()
    } else {
        (if ths[0].thread.status == ThreadStatus::Open {
            spec_thread_block(ths[0].thread, ths[0].diff_text, ths[0].file_content)
        } else {
            Seq::empty()
        }) + spec_item_threads(ths.skip(1))
    }
}

pub open spec fn spec_any_open(ths: Seq<FeedbackThreadView>) -> bool {
    exists|i: int| 0 <= i < ths.len() && (#[trigger] ths[i]).thread.status == ThreadStatus::Open
}

/// One review's section: a header naming the change, then each open
/// thread's block; a review with no open thread yields nothing.
pub open spec fn spec_item_block(
    change_id: Seq<char>,
    ths: Seq<FeedbackThreadView>,
) -> Seq<char> {
    if spec_any_open(ths) {
        "## Change: "@ + crate::gate::spec_change_prefix(change_id) + "\n\n"@
            + spec_item_threads(ths)
    } else {
        Seq::empty()
    }
}

/// The whole report, review by review.
pub open spec fn spec_feedback_report(items: Seq<(Seq<char>, Seq<FeedbackThreadView>)>) -> Seq<
    char,
>
    decreases items.len(),
{
    if items.len() == 0 {
        Seq::empty()
    } else {
        spec_item_block(items[0].0, items[0].1) + spec_feedback_report(items.skip(1))
    }
}

fn any_open(ths: &Vec<FeedbackThread>) -> (r: bool)
    ensures
        r == spec_any_open(ths@.map_values(|t: FeedbackThread| t@)),
{
    let ghost tv = ths@.map_values(|t: FeedbackThread| t@);
    let mut i: usize = 0;
    while i < ths.len()
        invariant
            0 <= i <= ths@.len(),
            tv == ths@.map_values(|t: FeedbackThread| t@),
            forall|j: int|
                0 <= j < i ==> (#[trigger] tv[j]).thread.status != ThreadStatus::Open,
        decreases ths@.len() - i,
    {
        proof {
            assert(tv[i as int] == ths@[i as int]@);
        }
        if matches!(ths[i].thread.status, ThreadStatus::Open) {
            return true;
        }
        i += 1;
    }
    false
}

fn format_item(item: &FeedbackItem) -> (r: String)
    requires
        forall|j: int|
            0 <= j < item.threads@.len() ==> (#[trigger] item.threads@[j]).thread.line_start >= 1
                && item.threads@[j].thread.line_end >= 1,
    ensures
        r@ == spec_item_block(item.change_id@, item.threads@.map_values(|t: FeedbackThread| t@)),
{
    let ghost tv = item.threads@.map_values(|t: FeedbackThread| t@);
    if !any_open(&item.threads) {
        let empty_out = String::new();
        proof {
            assert(empty_out@ =~= spec_item_block(item.change_id@, tv));
        }
        return empty_out;
    }
    let mut acc = String::from_str("## Change: ");
    let idl = item.change_id.as_str().unicode_len();
    let cut: usize = if idl <= 8 {
        idl
    } else {
        8
    };
    acc.append(item.change_id.as_str().substring_char(0, cut));
    acc.append("\n\n");
    proof {
        if idl <= 8 {
            assert(item.change_id@.subrange(0, cut as int) =~= item.change_id@);
        } else {
            assert(item.change_id@.subrange(0, cut as int) =~= item.change_id@.take(8));
        }
        assert(acc@ =~= "## Change: "@ + crate::gate::spec_change_prefix(item.change_id@)
            + "\n\n"@);
        assert(tv.skip(0) =~= tv);
        assert(acc@ + spec_item_threads(tv) =~= acc@ + spec_item_threads(tv.skip(0)));
    }
    let ghost header = acc@;
    let mut i: usize = 0;
    while i < item.threads.len()
        invariant
            0 <= i <= item.threads@.len(),
            tv == item.threads@.map_values(|t: FeedbackThread| t@),
            forall|j: int|
                0 <= j < item.threads@.len() ==> (#[trigger] item.threads@[j]).thread.line_start
                    >= 1 && item.threads@[j].thread.line_end >= 1,
            header + spec_item_threads(tv) == acc@ + spec_item_threads(tv.skip(i as int)),
        decreases item.threads@.len() - i,
    {
        proof {
            assert(tv.skip(i as int)[0] == tv[i as int]);
            assert(tv.skip(i as int).skip(1) =~= tv.skip(i as int + 1));
            assert(tv[i as int] == item.threads@[i as int]@);
        }
        let ghost pre = acc@;
        let ft = &item.threads[i];
        if matches!(ft.thread.status, ThreadStatus::Open) {
            let block = format_thread_feedback(&ft.thread, ft.diff_text.as_str(), ft.file_content.as_str());
            acc.append(block.as_str());
        }
        proof {
            assert(acc@ + spec_item_threads(tv.skip(i as int + 1)) =~= pre + spec_item_threads(
                tv.skip(i as int),
            ));
        }
        i += 1;
    }
    proof {
        assert(tv.skip(i as int) =~= Seq::<FeedbackThreadView>::empty());
        assert(acc@ =~= spec_item_block(item.change_id@, tv));
    }
    acc
}

/// Render the pending-feedback report: one section per review that has an
/// open thread, each open thread with its positions, snippet and comments.
pub fn format_pending_feedback(items: &Vec<FeedbackItem>) -> (r: String)
    requires
        forall|k: int, j: int|
            0 <= k < items@.len() && 0 <= j < (#[trigger] items@[k]).threads@.len() ==> (
            #[trigger] items@[k].threads@[j]).thread.line_start >= 1
                && items@[k].threads@[j].thread.line_end >= 1,
    ensures
        r@ == spec_feedback_report(
            items@.map_values(
                |it: FeedbackItem| (it.change_id@, it.threads@.map_values(|t: FeedbackThread| t@)),
            ),
        ),
{
    let ghost iv = items@.map_values(
        |it: FeedbackItem| (it.change_id@, it.threads@.map_values(|t: FeedbackThread| t@)),
    );
    let mut acc = String::new();
    let mut i: usize = 0;
    proof {
        assert(iv.skip(0) =~= iv);
        assert(acc@ + spec_feedback_report(iv) =~= spec_feedback_report(iv));
    }
    while i < items.len()
        invariant
            0 <= i <= items@.len(),
            iv == items@.map_values(
                |it: FeedbackItem| (it.change_id@, it.threads@.map_values(|t: FeedbackThread| t@)),
            ),
            forall|k: int, j: int|
                0 <= k < items@.len() && 0 <= j < (#[trigger] items@[k]).threads@.len() ==> (
                #[trigger] items@[k].threads@[j]).thread.line_start >= 1
                    && items@[k].threads@[j].thread.line_end >= 1,
            spec_feedback_report(iv) == acc@ + spec_feedback_report(iv.skip(i as int)),
        decreases items@.len() - i,
    {
        proof {
            assert(iv.skip(i as int)[0] == iv[i as int]);
            assert(iv.skip(i as int).skip(1) =~= iv.skip(i as int + 1));
            assert(iv[i as int] == (items@[i as int].change_id@, items@[i as int].threads@.map_values(|t: FeedbackThread| t@)));
        }
        let ghost pre = acc@;
        let block = format_item(&items[i]);
        acc.append(block.as_str());
        proof {
            assert(acc@ + spec_feedback_report(iv.skip(i as int + 1)) =~= pre
                + spec_feedback_report(iv.skip(i as int)));
        }
        i += 1;
    }
    proof {
        assert(iv.skip(i as int) =~= Seq::<(Seq<char>, Seq<FeedbackThreadView>)>::empty());
        assert(acc@ =~= spec_feedback_report(iv));
    }
    acc
}

} // verus!

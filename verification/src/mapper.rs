//! The line mapper: carry a 1-based old-file line number through the hunks
//! of a diff to its position in the new file. A deleted line is anchored to
//! the nearest surviving new-file line, scanning forward first and then
//! backward, so every line gets a display position.

use vstd::prelude::*;
use vstd::string::*;

use crate::diff::{Hunk, HunkLine, HunkView, spec_parse_file_hunks, parse_file_hunks};
use crate::review::{Review, Thread, ThreadView};
use crate::text::{spec_blank, spec_contains, is_blank, contains_str, str_eq};

verus! {

/// Result of mapping a single line through hunks.
#[derive(Debug, Clone, PartialEq, Eq, Structural)]
pub struct LineMapping {
    pub new_line: u32,
    pub was_deleted: bool,
}

/// Line numbers are 1-based; every produced position is kept in
/// `1 ..= u32::MAX`.
pub open spec fn clamp_line(n: int) -> int {
    if n < 1 {
        1
    } else if n > u32::MAX {
        u32::MAX as int
    } else {
        n
    }
}

pub open spec fn hunk_delta(h: HunkView) -> int {
    h.new_count - h.old_count
}

/// Accumulated growth of the new file over a run of hunks.
pub open spec fn sum_delta(hs: Seq<HunkView>) -> int
    decreases hs.len(),
{
    if hs.len() == 0 {
        0
    } else {
        hunk_delta(hs[0]) + sum_delta(hs.skip(1))
    }
}

/// The anchor for a deleted old-file line: the new-file position of the
/// first surviving (context or added) line after the deletion; failing that
/// the last one before it; failing both the hunk's new start.
pub open spec fn spec_nearest(
    lines: Seq<HunkLine>,
    target: int,
    old_pos: int,
    new_pos: int,
    last_before: Option<int>,
    reached: bool,
    fallback: int,
) -> int
    decreases lines.len(),
{
    if lines.len() == 0 {
        match last_before {
            Some(p) => clamp_line(p),
            None => clamp_line(fallback),
        }
    } else {
        match lines[0] {
            HunkLine::Context => if reached {
                clamp_line(new_pos)
            } else {
                spec_nearest(
                    lines.skip(1),
                    target,
                    old_pos + 1,
                    new_pos + 1,
                    Some(new_pos),
                    false,
                    fallback,
                )
            },
            HunkLine::Delete => spec_nearest(
                lines.skip(1),
                target,
                old_pos + 1,
                new_pos,
                last_before,
                reached || old_pos == target,
                fallback,
            ),
            HunkLine::Add => if reached {
                clamp_line(new_pos)
            } else {
                spec_nearest(lines.skip(1), target, old_pos, new_pos + 1, last_before, reached, fallback)
            },
        }
    }
}

/// Walk a hunk's lines looking for old-file line `l`: context and deleted
/// lines advance the old cursor, context and added lines the new one. A
/// context hit maps to the new cursor; a delete hit anchors to the nearest
/// surviving line.
pub open spec fn spec_walk(
    lines: Seq<HunkLine>,
    l: int,
    old_pos: int,
    new_pos: int,
    last_surv: Option<int>,
    h: HunkView,
) -> (int, bool)
    decreases lines.len(),
{
    if lines.len() == 0 {
        (
            match last_surv {
                Some(p) => clamp_line(p),
                None => clamp_line(h.new_start),
            },
            true,
        )
    } else {
        match lines[0] {
            HunkLine::Context => if old_pos == l {
                (clamp_line(new_pos), false)
            } else {
                spec_walk(lines.skip(1), l, old_pos + 1, new_pos + 1, Some(new_pos), h)
            },
            HunkLine::Delete => if old_pos == l {
                (spec_nearest(h.lines, l, h.old_start, h.new_start, None, false, h.new_start), true)
            } else {
                spec_walk(lines.skip(1), l, old_pos + 1, new_pos, last_surv, h)
            },
            HunkLine::Add => spec_walk(lines.skip(1), l, old_pos, new_pos + 1, last_surv, h),
        }
    }
}

/// Mapping of old-file line `l` through the hunks: before a hunk the
/// accumulated offset applies; inside a hunk the walk decides; after a hunk
/// its size delta joins the offset.
pub open spec fn spec_map_line(l: int, hs: Seq<HunkView>, offset: int) -> (int, bool)
    decreases hs.len(),
{
    if hs.len() == 0 {
        (clamp_line(l + offset), false)
    } else {
        let h = hs[0];
        if l < h.old_start {
            (clamp_line(l + offset), false)
        } else if l < h.old_start + h.old_count {
            spec_walk(h.lines, l, h.old_start, h.new_start, None, h)
        } else {
            spec_map_line(l, hs.skip(1), offset + hunk_delta(h))
        }
    }
}

// ---- totality of the produced position ----

proof fn lemma_nearest_in_range(
    lines: Seq<HunkLine>,
    target: int,
    old_pos: int,
    new_pos: int,
    last_before: Option<int>,
    reached: bool,
    fallback: int,
)
    ensures
        1 <= spec_nearest(lines, target, old_pos, new_pos, last_before, reached, fallback)
            <= u32::MAX,
    decreases lines.len(),
{
    if lines.len() > 0 {
        match lines[0] {
            HunkLine::Context => {
                if !reached {
                    lemma_nearest_in_range(
                        lines.skip(1),
                        target,
                        old_pos + 1,
                        new_pos + 1,
                        Some(new_pos),
                        false,
                        fallback,
                    );
                }
            },
            HunkLine::Delete => {
                lemma_nearest_in_range(
                    lines.skip(1),
                    target,
                    old_pos + 1,
                    new_pos,
                    last_before,
                    reached || old_pos == target,
                    fallback,
                );
            },
            HunkLine::Add => {
                if !reached {
                    lemma_nearest_in_range(
                        lines.skip(1),
                        target,
                        old_pos,
                        new_pos + 1,
                        last_before,
                        reached,
                        fallback,
                    );
                }
            },
        }
    }
}

proof fn lemma_walk_in_range(
    lines: Seq<HunkLine>,
    l: int,
    old_pos: int,
    new_pos: int,
    last_surv: Option<int>,
    h: HunkView,
)
    ensures
        1 <= spec_walk(lines, l, old_pos, new_pos, last_surv, h).0 <= u32::MAX,
    decreases lines.len(),
{
    if lines.len() > 0 {
        match lines[0] {
            HunkLine::Context => {
                if old_pos != l {
                    lemma_walk_in_range(lines.skip(1), l, old_pos + 1, new_pos + 1, Some(new_pos), h);
                }
            },
            HunkLine::Delete => {
                if old_pos == l {
                    lemma_nearest_in_range(h.lines, l, h.old_start, h.new_start, None, false, h.new_start);
                } else {
                    lemma_walk_in_range(lines.skip(1), l, old_pos + 1, new_pos, last_surv, h);
                }
            },
            HunkLine::Add => {
                lemma_walk_in_range(lines.skip(1), l, old_pos, new_pos + 1, last_surv, h);
            },
        }
    }
}

/// The mapper is total: whatever the hunks hold, the produced position is a
/// valid 1-based line number.
pub proof fn lemma_map_line_total(l: int, hs: Seq<HunkView>, offset: int)
    ensures
        1 <= spec_map_line(l, hs, offset).0 <= u32::MAX,
    decreases hs.len(),
{
    if hs.len() > 0 {
        let h = hs[0];
        if l < h.old_start {
        } else if l < h.old_start + h.old_count {
            lemma_walk_in_range(h.lines, l, h.old_start, h.new_start, None, h);
        } else {
            lemma_map_line_total(l, hs.skip(1), offset + hunk_delta(h));
        }
    }
}

// ---- lines outside every hunk ----

/// A line strictly before every hunk keeps its number and is not deleted.
pub proof fn lemma_map_line_before_hunks(l: int, hs: Seq<HunkView>)
    requires
        1 <= l <= u32::MAX,
        forall|i: int| 0 <= i < hs.len() ==> l < (#[trigger] hs[i]).old_start,
    ensures
        spec_map_line(l, hs, 0) == (l, false),
{
    if hs.len() == 0 {
        assert(clamp_line(l) == l);
    } else {
        assert(l < hs[0].old_start);
        assert(clamp_line(l) == l);
    }
}

proof fn lemma_map_line_after_gen(l: int, hs: Seq<HunkView>, offset: int)
    requires
        1 <= l,
        forall|i: int| 0 <= i < hs.len() ==> l >= (#[trigger] hs[i]).old_start + hs[i].old_count,
        forall|i: int| 0 <= i < hs.len() ==> (#[trigger] hs[i]).old_count >= 0,
        1 <= l + offset + sum_delta(hs) <= u32::MAX,
    ensures
        spec_map_line(l, hs, offset) == (l + offset + sum_delta(hs), false),
    decreases hs.len(),
{
    if hs.len() == 0 {
        assert(clamp_line(l + offset) == l + offset);
    } else {
        let h = hs[0];
        assert(l >= h.old_start + h.old_count);
        assert(forall|i: int| 0 <= i < hs.skip(1).len() ==> l >= (#[trigger] hs.skip(1)[i]).old_start
            + hs.skip(1)[i].old_count && (#[trigger] hs.skip(1)[i]).old_count >= 0) by {
            assert(forall|i: int| 0 <= i < hs.skip(1).len() ==> hs.skip(1)[i] == hs[i + 1]);
        };
        lemma_map_line_after_gen(l, hs.skip(1), offset + hunk_delta(h));
    }
}

/// A line strictly after every hunk is shifted by the sum of the hunks'
/// size deltas and is not deleted.
pub proof fn lemma_map_line_after_hunks(l: int, hs: Seq<HunkView>)
    requires
        1 <= l,
        forall|i: int| 0 <= i < hs.len() ==> l >= (#[trigger] hs[i]).old_start + hs[i].old_count,
        forall|i: int| 0 <= i < hs.len() ==> (#[trigger] hs[i]).old_count >= 0,
        1 <= l + sum_delta(hs) <= u32::MAX,
    ensures
        spec_map_line(l, hs, 0) == (l + sum_delta(hs), false),
{
    lemma_map_line_after_gen(l, hs, 0);
}

/// With no hunks at all, every line maps to itself.
pub proof fn lemma_map_line_no_hunks(l: int)
    requires
        1 <= l <= u32::MAX,
    ensures
        spec_map_line(l, Seq::<HunkView>::empty(), 0) == (l, false),
{
    assert(clamp_line(l) == l);
}

// ---- executable mapper ----

fn clamp_u128(v: u128) -> (r: u32)
    ensures
        r as int == clamp_line(v as int),
{
    if v < 1 {
        1
    } else if v > u32::MAX as u128 {
        u32::MAX
    } else {
        v as u32
    }
}

fn clamp_i128(v: i128) -> (r: u32)
    ensures
        r as int == clamp_line(v as int),
{
    if v < 1 {
        1
    } else if v > u32::MAX as i128 {
        u32::MAX
    } else {
        v as u32
    }
}

/// Find the nearest surviving new-file line for a deleted old-file line
/// within a hunk: the first context or added line after the deletion, else
/// the last context line before it, else the hunk's new start.
pub fn find_nearest_surviving(hunk: &Hunk, deleted_old_line: u32) -> (r: u32)
    ensures
        r as int == spec_nearest(
            hunk@.lines,
            deleted_old_line as int,
            hunk@.old_start,
            hunk@.new_start,
            None,
            false,
            hunk@.new_start,
        ),
        r >= 1,
{
    let target = deleted_old_line as u128;
    let mut old_pos: u128 = hunk.old_start as u128;
    let mut new_pos: u128 = hunk.new_start as u128;
    let mut last_before: Option<u128> = None;
    let mut reached: bool = false;
    let mut j: usize = 0;
    let ghost ls = hunk@.lines;
    proof {
        assert(ls.skip(0) =~= ls);
    }
    while j < hunk.lines.len()
        invariant
            0 <= j <= hunk.lines.len(),
            ls == hunk@.lines,
            target == deleted_old_line as u128,
            old_pos <= hunk@.old_start + j,
            new_pos <= hunk@.new_start + j,
            spec_nearest(
                ls,
                target as int,
                hunk@.old_start,
                hunk@.new_start,
                None,
                false,
                hunk@.new_start,
            ) == spec_nearest(
                ls.skip(j as int),
                target as int,
                old_pos as int,
                new_pos as int,
                match last_before {
                    Some(p) => Some(p as int),
                    None => None,
                },
                reached,
                hunk@.new_start,
            ),
        decreases hunk.lines.len() - j,
    {
        proof {
            assert(ls.skip(j as int)[0] == ls[j as int]);
            assert(ls.skip(j as int).skip(1) =~= ls.skip(j as int + 1));
        }
        match hunk.lines[j] {
            HunkLine::Context => {
                proof {
                    assert(ls[j as int] == HunkLine::Context);
                    assert(ls.skip(j as int)[0] == HunkLine::Context);
                }
                if reached {
                    proof {
                        assert(spec_nearest(ls.skip(j as int), target as int, old_pos as int, new_pos as int,
                            match last_before { Some(p) => Some(p as int), None => None }, true, hunk@.new_start)
                            == clamp_line(new_pos as int));
                    }
                    return clamp_u128(new_pos);
                }
                last_before = Some(new_pos);
                old_pos = old_pos + 1;
                new_pos = new_pos + 1;
            },
            HunkLine::Delete => {
                if old_pos == target {
                    reached = true;
                }
                old_pos = old_pos + 1;
            },
            HunkLine::Add => {
                if reached {
                    proof {
                        assert(spec_nearest(ls.skip(j as int), target as int, old_pos as int,
                            new_pos as int,
                            match last_before { Some(p) => Some(p as int), None => None }, true,
                            hunk@.new_start) == clamp_line(new_pos as int));
                    }
                    return clamp_u128(new_pos);
                }
                new_pos = new_pos + 1;
            },
        }
        j += 1;
    }
    proof {
        assert(ls.skip(j as int) =~= Seq::<HunkLine>::empty());
    }
    match last_before {
        Some(p) => {
            proof {
                assert(spec_nearest(ls.skip(j as int), target as int, old_pos as int,
                    new_pos as int, Some(p as int), reached, hunk@.new_start) == clamp_line(
                    p as int));
            }
            clamp_u128(p)
        },
        None => {
            proof {
                assert(spec_nearest(ls.skip(j as int), target as int, old_pos as int,
                    new_pos as int, None, reached, hunk@.new_start) == clamp_line(
                    hunk@.new_start));
            }
            clamp_u128(hunk.new_start as u128)
        },
    }
}

fn walk_hunk(hunk: &Hunk, old_line: u32) -> (r: LineMapping)
    ensures
        ({
            let m = spec_walk(
                hunk@.lines,
                old_line as int,
                hunk@.old_start,
                hunk@.new_start,
                None,
                hunk@,
            );
            r.new_line as int == m.0 && r.was_deleted == m.1
        }),
{
    let target = old_line as u128;
    let mut old_pos: u128 = hunk.old_start as u128;
    let mut new_pos: u128 = hunk.new_start as u128;
    let mut last_surv: Option<u128> = None;
    let mut j: usize = 0;
    let ghost ls = hunk@.lines;
    proof {
        assert(ls.skip(0) =~= ls);
    }
    while j < hunk.lines.len()
        invariant
            0 <= j <= hunk.lines.len(),
            ls == hunk@.lines,
            target == old_line as u128,
            old_pos <= hunk@.old_start + j,
            new_pos <= hunk@.new_start + j,
            spec_walk(ls, target as int, hunk@.old_start, hunk@.new_start, None, hunk@)
                == spec_walk(
                ls.skip(j as int),
                target as int,
                old_pos as int,
                new_pos as int,
                match last_surv {
                    Some(p) => Some(p as int),
                    None => None,
                },
                hunk@,
            ),
        decreases hunk.lines.len() - j,
    {
        proof {
            assert(ls.skip(j as int)[0] == ls[j as int]);
            assert(ls.skip(j as int).skip(1) =~= ls.skip(j as int + 1));
        }
        match hunk.lines[j] {
            HunkLine::Context => {
                if old_pos == target {
                    proof {
                        assert(spec_walk(ls.skip(j as int), target as int, old_pos as int,
                            new_pos as int,
                            match last_surv { Some(p) => Some(p as int), None => None }, hunk@)
                            == (clamp_line(new_pos as int), false));
                    }
                    return LineMapping { new_line: clamp_u128(new_pos), was_deleted: false };
                }
                last_surv = Some(new_pos);
                old_pos = old_pos + 1;
                new_pos = new_pos + 1;
            },
            HunkLine::Delete => {
                if old_pos == target {
                    proof {
                        assert(spec_walk(ls.skip(j as int), target as int, old_pos as int,
                            new_pos as int,
                            match last_surv { Some(p) => Some(p as int), None => None }, hunk@)
                            == (spec_nearest(hunk@.lines, target as int, hunk@.old_start,
                            hunk@.new_start, None, false, hunk@.new_start), true));
                    }
                    let anchor = find_nearest_surviving(hunk, old_line);
                    return LineMapping { new_line: anchor, was_deleted: true };
                }
                old_pos = old_pos + 1;
            },
            HunkLine::Add => {
                new_pos = new_pos + 1;
            },
        }
        j += 1;
    }
    proof {
        assert(ls.skip(j as int) =~= Seq::<HunkLine>::empty());
    }
    match last_surv {
        Some(p) => {
            proof {
                assert(spec_walk(ls.skip(j as int), target as int, old_pos as int, new_pos as int,
                    Some(p as int), hunk@) == (clamp_line(p as int), true));
            }
            LineMapping { new_line: clamp_u128(p), was_deleted: true }
        },
        None => {
            proof {
                assert(spec_walk(ls.skip(j as int), target as int, old_pos as int, new_pos as int,
                    None, hunk@) == (clamp_line(hunk@.new_start), true));
            }
            LineMapping { new_line: clamp_u128(hunk.new_start as u128), was_deleted: true }
        },
    }
}

/// Map an old-file line number through hunks to its new position. A line
/// outside every hunk is shifted by the accumulated size delta of the hunks
/// before it; a deleted line reports `was_deleted` and anchors to the
/// nearest surviving line. The result is always a 1-based line number.
pub fn map_line(old_line: u32, hunks: &Vec<Hunk>) -> (r: LineMapping)
    requires
        old_line >= 1,
    ensures
        ({
            let m = spec_map_line(old_line as int, hunks@.map_values(|h: Hunk| h@), 0);
            r.new_line as int == m.0 && r.was_deleted == m.1
        }),
        r.new_line >= 1,
{
    let ghost hs = hunks@.map_values(|h: Hunk| h@);
    proof {
        lemma_map_line_total(old_line as int, hs, 0);
        assert(hs.skip(0) =~= hs);
    }
    let mut offset: i128 = 0;
    let mut idx: usize = 0;
    while idx < hunks.len()
        invariant
            0 <= idx <= hunks.len(),
            hs == hunks@.map_values(|h: Hunk| h@),
            old_line >= 1,
            -0x1_0000_0000 * (idx as int) <= offset as int <= 0x1_0000_0000 * (idx as int),
            spec_map_line(old_line as int, hs, 0) == spec_map_line(
                old_line as int,
                hs.skip(idx as int),
                offset as int,
            ),
        decreases hunks.len() - idx,
    {
        proof {
            assert(hs.skip(idx as int)[0] == hs[idx as int]);
            assert(hs.skip(idx as int).skip(1) =~= hs.skip(idx as int + 1));
            lemma_map_line_total(old_line as int, hs, 0);
        }
        let h = &hunks[idx];
        if old_line < h.old_start {
            proof {
                assert(spec_map_line(old_line as int, hs.skip(idx as int), offset as int)
                    == (clamp_line(old_line + offset as int), false));
            }
            return LineMapping { new_line: clamp_i128(old_line as i128 + offset), was_deleted: false };
        }
        let hunk_old_end: u64 = h.old_start as u64 + h.old_count as u64;
        if (old_line as u64) < hunk_old_end {
            proof {
                assert(spec_map_line(old_line as int, hs.skip(idx as int), offset as int)
                    == spec_walk(h@.lines, old_line as int, h@.old_start, h@.new_start, None, h@));
            }
            return walk_hunk(h, old_line);
        }
        offset = offset + h.new_count as i128 - h.old_count as i128;
        idx += 1;
    }
    proof {
        assert(hs.skip(idx as int) =~= Seq::<HunkView>::empty());
        assert(spec_map_line(old_line as int, hs.skip(idx as int), offset as int)
            == (clamp_line(old_line + offset as int), false));
    }
    LineMapping { new_line: clamp_i128(old_line as i128 + offset), was_deleted: false }
}

// ---- batch mapping of a review's threads ----

/// Where a thread's stored range sits at the target commit.
#[derive(Debug, Clone, PartialEq, Eq, Structural)]
pub struct MappedPosition {
    pub line_start: u32,
    pub line_end: u32,
    pub is_deleted: bool,
}

/// Outcome of one DVCS diff invocation, handed in by the caller.
#[derive(Debug, Clone)]
pub enum DiffOutcome {
    /// The diff command failed: the file is gone or inaccessible.
    Failed,
    /// The diff's raw git-format text, possibly empty.
    Text(String),
}

/// The diff from one `(file, from_commit)` group to the target commit.
#[derive(Debug, Clone)]
pub struct GroupDiff {
    pub file: String,
    pub from_commit: String,
    pub outcome: DiffOutcome,
}

/// A thread id with its mapped position.
#[derive(Debug, Clone)]
pub struct ThreadMapping {
    pub thread_id: String,
    pub position: MappedPosition,
}

#[verifier::ext_equal]
pub ghost struct MappedPositionView {
    pub line_start: int,
    pub line_end: int,
    pub is_deleted: bool,
}

impl View for MappedPosition {
    type V = MappedPositionView;

    open spec fn view(&self) -> MappedPositionView {
        MappedPositionView {
            line_start: self.line_start as int,
            line_end: self.line_end as int,
            is_deleted: self.is_deleted,
        }
    }
}

pub ghost enum DiffOutcomeView {
    Failed,
    Text(Seq<char>),
}

#[verifier::ext_equal]
pub ghost struct GroupDiffView {
    pub file: Seq<char>,
    pub from_commit: Seq<char>,
    pub outcome: DiffOutcomeView,
}

impl View for DiffOutcome {
    type V = DiffOutcomeView;

    open spec fn view(&self) -> DiffOutcomeView {
        match self {
            DiffOutcome::Failed => DiffOutcomeView::Failed,
            DiffOutcome::Text(s) => DiffOutcomeView::Text(s@),
        }
    }
}

impl View for GroupDiff {
    type V = GroupDiffView;

    open spec fn view(&self) -> GroupDiffView {
        GroupDiffView { file: self.file@, from_commit: self.from_commit@, outcome: self.outcome@ }
    }
}

/// Does this thread need a diff at all? One anchored at the target commit,
/// or not anchored anywhere, keeps its stored position.
pub open spec fn spec_needs_mapping(t: ThreadView, target: Seq<char>) -> bool {
    match t.created_at_commit {
        Some(c) => c != target,
        None => false,
    }
}

/// First diff supplied for this `(file, from_commit)` group, or `None`.
pub open spec fn spec_lookup_diff(
    diffs: Seq<GroupDiffView>,
    file: Seq<char>,
    commit: Seq<char>,
) -> Option<DiffOutcomeView>
    decreases diffs.len(),
{
    if diffs.len() == 0 {
        None
    } else if diffs[0].file == file && diffs[0].from_commit == commit {
        Some(diffs[0].outcome)
    } else {
        spec_lookup_diff(diffs.skip(1), file, commit)
    }
}

/// Where one thread lands at the target commit, given the supplied diffs: a
/// missing or failed diff marks it deleted in place; an empty diff keeps it;
/// a diff with no hunks that names a deleted file marks it deleted; else the
/// line mapper decides, and the thread counts as deleted when either end of
/// its range was.
pub open spec fn spec_map_thread(
    t: ThreadView,
    target: Seq<char>,
    diffs: Seq<GroupDiffView>,
) -> MappedPositionView {
    if !spec_needs_mapping(t, target) {
        MappedPositionView { line_start: t.line_start, line_end: t.line_end, is_deleted: false }
    } else {
        let commit = t.created_at_commit.unwrap();
        match spec_lookup_diff(diffs, t.file, commit) {
            None => MappedPositionView {
                line_start: t.line_start,
                line_end: t.line_end,
                is_deleted: true,
            },
            Some(DiffOutcomeView::Failed) => MappedPositionView {
                line_start: t.line_start,
                line_end: t.line_end,
                is_deleted: true,
            },
            Some(DiffOutcomeView::Text(txt)) => if spec_blank(txt) {
                MappedPositionView {
                    line_start: t.line_start,
                    line_end: t.line_end,
                    is_deleted: false,
                }
            } else {
                let hs = spec_parse_file_hunks(txt, t.file);
                if hs.len() == 0 && spec_contains(txt, "deleted file"@) {
                    MappedPositionView {
                        line_start: t.line_start,
                        line_end: t.line_end,
                        is_deleted: true,
                    }
                } else {
                    let ms = spec_map_line(t.line_start, hs, 0);
                    let me = spec_map_line(t.line_end, hs, 0);
                    MappedPositionView {
                        line_start: ms.0,
                        line_end: me.0,
                        is_deleted: ms.1 || me.1,
                    }
                }
            },
        }
    }
}

fn lookup_diff<'a>(diffs: &'a Vec<GroupDiff>, file: &str, commit: &str) -> (r: Option<
    &'a DiffOutcome,
>)
    ensures
        ({
            let s = spec_lookup_diff(diffs@.map_values(|d: GroupDiff| d@), file@, commit@);
            match r {
                Some(o) => s == Some(o@),
                None => s is None,
            }
        }),
{
    let ghost dv = diffs@.map_values(|d: GroupDiff| d@);
    let mut i: usize = 0;
    proof {
        assert(dv.skip(0) =~= dv);
    }
    while i < diffs.len()
        invariant
            0 <= i <= diffs@.len(),
            dv == diffs@.map_values(|d: GroupDiff| d@),
            spec_lookup_diff(dv, file@, commit@) == spec_lookup_diff(
                dv.skip(i as int),
                file@,
                commit@,
            ),
        decreases diffs@.len() - i,
    {
        proof {
            assert(dv.skip(i as int)[0] == dv[i as int]);
            assert(dv.skip(i as int).skip(1) =~= dv.skip(i as int + 1));
        }
        let d = &diffs[i];
        if str_eq(d.file.as_str(), file) && str_eq(d.from_commit.as_str(), commit) {
            return Some(&d.outcome);
        }
        i += 1;
    }
    proof {
        assert(dv.skip(i as int) =~= Seq::<GroupDiffView>::empty());
    }
    None
}

/// Map one thread's stored range to the target commit.
pub fn map_thread(t: &Thread, target_commit: &str, diffs: &Vec<GroupDiff>) -> (r: MappedPosition)
    requires
        t.line_start >= 1,
        t.line_end >= 1,
    ensures
        r@ == spec_map_thread(t@, target_commit@, diffs@.map_values(|d: GroupDiff| d@)),
{
    let ghost dv = diffs@.map_values(|d: GroupDiff| d@);
    let commit: &String = match &t.created_at_commit {
        Some(c) => {
            if str_eq(c.as_str(), target_commit) {
                return MappedPosition {
                    line_start: t.line_start,
                    line_end: t.line_end,
                    is_deleted: false,
                };
            }
            c
        },
        None => {
            return MappedPosition {
                line_start: t.line_start,
                line_end: t.line_end,
                is_deleted: false,
            };
        },
    };
    match lookup_diff(diffs, t.file.as_str(), commit.as_str()) {
        None => MappedPosition { line_start: t.line_start, line_end: t.line_end, is_deleted: true },
        Some(DiffOutcome::Failed) => MappedPosition {
            line_start: t.line_start,
            line_end: t.line_end,
            is_deleted: true,
        },
        Some(DiffOutcome::Text(txt)) => {
            if is_blank(txt.as_str()) {
                return MappedPosition {
                    line_start: t.line_start,
                    line_end: t.line_end,
                    is_deleted: false,
                };
            }
            let hunks = parse_file_hunks(txt.as_str(), t.file.as_str());
            if hunks.len() == 0 && contains_str(txt.as_str(), "deleted file") {
                return MappedPosition {
                    line_start: t.line_start,
                    line_end: t.line_end,
                    is_deleted: true,
                };
            }
            let ms = map_line(t.line_start, &hunks);
            let me = map_line(t.line_end, &hunks);
            MappedPosition {
                line_start: ms.new_line,
                line_end: me.new_line,
                is_deleted: ms.was_deleted || me.was_deleted,
            }
        },
    }
}

/// Map every thread to its position at the target commit, one entry per
/// thread in order, each mapped against the caller-supplied diffs.
pub fn map_all_threads(threads: &Vec<Thread>, target_commit: &str, diffs: &Vec<GroupDiff>) -> (r:
    Vec<ThreadMapping>)
    requires
        forall|i: int|
            0 <= i < threads@.len() ==> (#[trigger] threads@[i]).line_start >= 1
                && threads@[i].line_end >= 1,
    ensures
        r@.len() == threads@.len(),
        forall|i: int|
            0 <= i < r@.len() ==> (#[trigger] r@[i]).thread_id@ == threads@[i]@.id && r@[i].position@
                == spec_map_thread(
                threads@[i]@,
                target_commit@,
                diffs@.map_values(|d: GroupDiff| d@),
            ),
{
    let mut out: Vec<ThreadMapping> = Vec::new();
    let mut i: usize = 0;
    while i < threads.len()
        invariant
            0 <= i <= threads@.len(),
            out@.len() == i,
            forall|k: int|
                0 <= k < threads@.len() ==> (#[trigger] threads@[k]).line_start >= 1
                    && threads@[k].line_end >= 1,
            forall|k: int|
                0 <= k < i ==> (#[trigger] out@[k]).thread_id@ == threads@[k]@.id
                    && out@[k].position@ == spec_map_thread(
                    threads@[k]@,
                    target_commit@,
                    diffs@.map_values(|d: GroupDiff| d@),
                ),
        decreases threads@.len() - i,
    {
        let t = &threads[i];
        let pos = map_thread(t, target_commit, diffs);
        out.push(ThreadMapping { thread_id: t.id.clone(), position: pos });
        i += 1;
    }
    out
}

/// The distinct `(file, from_commit)` pairs whose diffs the mapper needs:
/// one per group of threads anchored in the same file at the same commit.
pub fn thread_groups(threads: &Vec<Thread>, target_commit: &str) -> (r: Vec<GroupKey>)
    ensures
        forall|i: int, j: int|
            0 <= i < j < r@.len() ==> !((#[trigger] r@[i]).file@ == (#[trigger] r@[j]).file@
                && r@[i].commit@ == r@[j].commit@),
        forall|k: int|
            0 <= k < threads@.len() && spec_needs_mapping((#[trigger] threads@[k])@, target_commit@)
                ==> exists|i: int|
                0 <= i < r@.len() && (#[trigger] r@[i]).file@ == threads@[k]@.file
                    && r@[i].commit@ == threads@[k]@.created_at_commit.unwrap(),
{
    let mut out: Vec<GroupKey> = Vec::new();
    let mut k: usize = 0;
    while k < threads.len()
        invariant
            0 <= k <= threads@.len(),
            forall|i: int, j: int|
                0 <= i < j < out@.len() ==> !((#[trigger] out@[i]).file@ == (#[trigger] out@[j]).file@
                    && out@[i].commit@ == out@[j].commit@),
            forall|m: int|
                0 <= m < k && spec_needs_mapping((#[trigger] threads@[m])@, target_commit@)
                    ==> exists|i: int|
                    0 <= i < out@.len() && (#[trigger] out@[i]).file@ == threads@[m]@.file
                        && out@[i].commit@ == threads@[m]@.created_at_commit.unwrap(),
        decreases threads@.len() - k,
    {
        let t = &threads[k];
        match &t.created_at_commit {
            Some(c) => {
                if !str_eq(c.as_str(), target_commit) {
                    let mut present: bool = false;
                    let mut i: usize = 0;
                    while i < out.len()
                        invariant
                            0 <= i <= out@.len(),
                            present ==> exists|p: int|
                                0 <= p < out@.len() && (#[trigger] out@[p]).file@ == t.file@
                                    && out@[p].commit@ == c@,
                            !present ==> forall|p: int|
                                0 <= p < i ==> !((#[trigger] out@[p]).file@ == t.file@
                                    && out@[p].commit@ == c@),
                        decreases out@.len() - i, if present { 0int } else { 1int },
                    {
                        if str_eq(out[i].file.as_str(), t.file.as_str()) && str_eq(
                            out[i].commit.as_str(),
                            c.as_str(),
                        ) {
                            present = true;
                        }
                        i += 1;
                    }
                    proof {
                        assert(threads@[k as int]@.created_at_commit == Some(c@));
                    }
                    if !present {
                        let ghost pre_out = out@;
                        out.push(GroupKey { file: t.file.clone(), commit: c.clone() });
                        proof {
                            assert(out@[out@.len() - 1].file@ == t.file@);
                            assert(out@[out@.len() - 1].commit@ == c@);
                            assert(forall|p: int| 0 <= p < pre_out.len() ==> out@[p] == pre_out[p]);
                            assert forall|p: int| 0 <= p < pre_out.len() implies !((
                            #[trigger] out@[p]).file@ == t.file@ && out@[p].commit@ == c@) by {
                                assert(out@[p] == pre_out[p]);
                            };
                        }
                    }
                    proof {
                        assert(exists|i: int|
                            0 <= i < out@.len() && (#[trigger] out@[i]).file@ == threads@[k as int]@.file
                                && out@[i].commit@ == threads@[k as int]@.created_at_commit.unwrap());
                    }
                }
            },
            None => {
            },
        }
        k += 1;
    }
    out
}

/// A `(file, commit)` pair naming one needed diff.
#[derive(Debug, Clone)]
pub struct GroupKey {
    pub file: String,
    pub commit: String,
}

impl Review {
    /// Enrich every thread with its display position: the mapped range, the
    /// displaced flag when it differs from the stored range, and the deleted
    /// flag from the mapper.
    pub fn with_mapped_threads(self, target_commit: &str, diffs: &Vec<GroupDiff>) -> (r: Review)
        requires
            forall|i: int|
                0 <= i < self.threads@.len() ==> (#[trigger] self.threads@[i]).line_start >= 1
                    && self.threads@[i].line_end >= 1,
        ensures
            r@.change_id == self@.change_id,
            r@.base == self@.base,
            r@.created_at == self@.created_at,
            r@.working_commit_id == self@.working_commit_id,
            r@.revisions == self@.revisions,
            r@.threads.len() == self@.threads.len(),
            forall|i: int|
                0 <= i < r@.threads.len() ==> ({
                    let t = self@.threads[i];
                    let m = spec_map_thread(t, target_commit@, diffs@.map_values(|d: GroupDiff| d@));
                    (#[trigger] r@.threads[i]) =~= ThreadView {
                        display_line_start: Some(m.line_start),
                        display_line_end: Some(m.line_end),
                        is_displaced: m.line_start != t.line_start || m.line_end != t.line_end,
                        is_deleted: m.is_deleted,
                        ..t
                    }
                }),
    {
        let mut me = self;
        let ghost r0 = me@;
        let n = me.threads.len();
        let mut i: usize = 0;
        while i < n
            invariant
                0 <= i <= n,
                n == me.threads@.len(),
                me@.change_id == r0.change_id,
                me@.base == r0.base,
                me@.created_at == r0.created_at,
                me@.working_commit_id == r0.working_commit_id,
                me@.revisions == r0.revisions,
                me@.threads.len() == r0.threads.len(),
                forall|j: int|
                    0 <= j < me.threads@.len() ==> (#[trigger] me.threads@[j]).line_start >= 1
                        && me.threads@[j].line_end >= 1,
                forall|j: int| i <= j < n ==> (#[trigger] me@.threads[j]) == r0.threads[j],
                forall|j: int|
                    0 <= j < i ==> ({
                        let t = r0.threads[j];
                        let m = spec_map_thread(
                            t,
                            target_commit@,
                            diffs@.map_values(|d: GroupDiff| d@),
                        );
                        (#[trigger] me@.threads[j]) =~= ThreadView {
                            display_line_start: Some(m.line_start),
                            display_line_end: Some(m.line_end),
                            is_displaced: m.line_start != t.line_start || m.line_end != t.line_end,
                            is_deleted: m.is_deleted,
                            ..t
                        }
                    }),
            decreases n - i,
        {
            proof {
                assert(me@.threads[i as int] == me.threads@[i as int]@);
            }
            let pos = map_thread(&me.threads[i], target_commit, diffs);
            let ghost pre_exec = me.threads@;
            let ghost pre_view = me@.threads;
            proof {
                assert(forall|j: int| 0 <= j < n ==> (#[trigger] pre_view[j]) == pre_exec[j]@);
            }
            let stored_start = me.threads[i].line_start;
            let stored_end = me.threads[i].line_end;
            let t = &mut me.threads[i];
            t.display_line_start = Some(pos.line_start);
            t.display_line_end = Some(pos.line_end);
            t.is_displaced = pos.line_start != stored_start || pos.line_end != stored_end;
            t.is_deleted = pos.is_deleted;
            proof {
                let m = spec_map_thread(
                    r0.threads[i as int],
                    target_commit@,
                    diffs@.map_values(|d: GroupDiff| d@),
                );
                assert(me.threads@ == pre_exec.update(i as int, me.threads@[i as int]));
                assert(pos@ == m);
                assert(pre_exec[i as int]@ == r0.threads[i as int]);
                assert(me.threads@[i as int]@ =~= ThreadView {
                    display_line_start: Some(m.line_start),
                    display_line_end: Some(m.line_end),
                    is_displaced: m.line_start != r0.threads[i as int].line_start
                        || m.line_end != r0.threads[i as int].line_end,
                    is_deleted: m.is_deleted,
                    ..r0.threads[i as int]
                });
                assert(forall|j: int| 0 <= j < n && j != i ==> me.threads@[j] == pre_exec[j]);
                assert(forall|j: int| 0 <= j < n ==> (#[trigger] me@.threads[j]) == me.threads@[j]@);
                assert(forall|j: int| 0 <= j < n && j != i ==> (#[trigger] me@.threads[j])
                    == pre_view[j]);
            }
            i += 1;
        }
        me
    }
}

} // verus!

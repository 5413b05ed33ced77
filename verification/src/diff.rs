//! Parser for git-format unified diff text: per-file hunks with their line
//! tags, and the one-letter summary listing that names changed files.

use vstd::prelude::*;
use vstd::string::*;

use crate::text::{
    first_occ, spec_ends_with, spec_lines, spec_parse_u32, spec_split_ws, spec_starts_with,
    spec_trim_leading, find_char, parse_u32, split_lines, split_ws, starts_with, ends_with,
    str_eq, trim_leading,
};

verus! {

/// One hunk of a unified diff: the `@@` header ranges and the tag of each
/// body line.
#[derive(Debug, Clone)]
pub struct Hunk {
    pub old_start: u32,
    pub old_count: u32,
    pub new_start: u32,
    pub new_count: u32,
    pub lines: Vec<HunkLine>,
}

#[derive(Debug, Clone, PartialEq, Eq, Structural)]
pub enum HunkLine {
    Context,
    Add,
    Delete,
}

#[verifier::ext_equal]
pub ghost struct HunkView {
    pub old_start: int,
    pub old_count: int,
    pub new_start: int,
    pub new_count: int,
    pub lines: Seq<HunkLine>,
}

impl View for Hunk {
    type V = HunkView;

    open spec fn view(&self) -> HunkView {
        HunkView {
            old_start: self.old_start as int,
            old_count: self.old_count as int,
            new_start: self.new_start as int,
            new_count: self.new_count as int,
            lines: self.lines@,
        }
    }
}

// ---- `@@` header parsing ----

/// `start,count` with the count defaulting to 1 when absent.
pub open spec fn spec_parse_range(s: Seq<char>) -> Option<(u32, u32)> {
    let i = first_occ(s, ',');
    if 0 <= i < s.len() {
        match (spec_parse_u32(s.take(i)), spec_parse_u32(s.skip(i + 1))) {
            (Some(a), Some(b)) => Some((a, b)),
            _ => None,
        }
    } else {
        match spec_parse_u32(s) {
            Some(a) => Some((a, 1u32)),
            None => None,
        }
    }
}

pub fn parse_range(s: &str) -> (r: Option<(u32, u32)>)
    ensures
        r == spec_parse_range(s@),
{
    proof {
        assert(s@.skip(0) =~= s@);
    }
    match find_char(s, ',', 0) {
        Some(i) => {
            let n = s.unicode_len();
            let left = s.substring_char(0, i);
            let right = s.substring_char(i + 1, n);
            proof {
                assert(s@.subrange(0, i as int) =~= s@.take(i as int));
                assert(s@.subrange(i as int + 1, n as int) =~= s@.skip(i as int + 1));
            }
            match (parse_u32(left), parse_u32(right)) {
                (Some(a), Some(b)) => Some((a, b)),
                _ => None,
            }
        },
        None => match parse_u32(s) {
            Some(a) => Some((a, 1)),
            None => None,
        },
    }
}

/// What an `@@ -old_start,old_count +new_start,new_count @@` header denotes;
/// `None` for a malformed one.
pub open spec fn spec_parse_hunk_header(l: Seq<char>) -> Option<HunkView> {
    let parts = spec_split_ws(l);
    if parts.len() < 4 {
        None
    } else {
        let oldp = spec_trim_leading(parts[1], '-');
        let newp = spec_trim_leading(parts[2], '+');
        match (spec_parse_range(oldp), spec_parse_range(newp)) {
            (Some(o), Some(n)) => Some(
                HunkView {
                    old_start: o.0 as int,
                    old_count: o.1 as int,
                    new_start: n.0 as int,
                    new_count: n.1 as int,
                    lines: Seq::empty(),
                },
            ),
            _ => None,
        }
    }
}

pub fn parse_hunk_header(line: &str) -> (r: Option<Hunk>)
    ensures
        match r {
            Some(h) => spec_parse_hunk_header(line@) == Some(h@),
            None => spec_parse_hunk_header(line@) is None,
        },
{
    let parts = split_ws(line);
    if parts.len() < 4 {
        return None;
    }
    proof {
        assert(parts@.map_values(|t: String| t@)[1] == parts@[1]@);
        assert(parts@.map_values(|t: String| t@)[2] == parts@[2]@);
    }
    let oldp = trim_leading(parts[1].as_str(), '-');
    let newp = trim_leading(parts[2].as_str(), '+');
    match (parse_range(oldp.as_str()), parse_range(newp.as_str())) {
        (Some((os, oc)), Some((ns, nc))) => {
            let h = Hunk {
                old_start: os,
                old_count: oc,
                new_start: ns,
                new_count: nc,
                lines: Vec::new(),
            };
            proof {
                assert(spec_parse_hunk_header(line@) == Some(h@)) by {
                    assert(h@ =~= spec_parse_hunk_header(line@).unwrap());
                };
            }
            Some(h)
        },
        _ => None,
    }
}

// ---- whole-diff scanning ----

/// The tag a hunk body line carries, by its first character; `None` for
/// lines that are skipped (such as the no-newline marker).
pub open spec fn spec_line_tag(l: Seq<char>) -> Option<HunkLine> {
    if l.len() > 0 && l[0] == '+' {
        Some(HunkLine::Add)
    } else if l.len() > 0 && l[0] == '-' {
        Some(HunkLine::Delete)
    } else if l.len() == 0 || l[0] == ' ' {
        Some(HunkLine::Context)
    } else {
        None
    }
}

pub open spec fn spec_push_line(h: HunkView, t: Option<HunkLine>) -> HunkView {
    match t {
        Some(tag) => HunkView { lines: h.lines.push(tag), ..h },
        None => h,
    }
}

pub open spec fn spec_flush(acc: Seq<HunkView>, cur: Option<HunkView>, in_target: bool) -> Seq<
    HunkView,
> {
    match cur {
        Some(h) => if in_target {
            acc.push(h)
        } else {
            acc
        },
        None => acc,
    }
}

/// State machine over the diff's lines: track whether the current file
/// section is the target, grow the current hunk, and flush finished hunks.
pub open spec fn spec_scan_hunks(
    lines: Seq<Seq<char>>,
    target: Seq<char>,
    in_target: bool,
    cur: Option<HunkView>,
    acc: Seq<HunkView>,
) -> Seq<HunkView>
    decreases lines.len(),
{
    if lines.len() == 0 {
        spec_flush(acc, cur, in_target)
    } else {
        let l = lines[0];
        let rest = lines.skip(1);
        if spec_starts_with(l, "diff --git"@) {
            spec_scan_hunks(
                rest,
                target,
                spec_ends_with(l, " b/"@ + target),
                None,
                spec_flush(acc, cur, in_target),
            )
        } else if spec_starts_with(l, "@@"@) && in_target {
            spec_scan_hunks(
                rest,
                target,
                in_target,
                spec_parse_hunk_header(l),
                spec_flush(acc, cur, true),
            )
        } else if cur is Some && in_target {
            spec_scan_hunks(
                rest,
                target,
                in_target,
                Some(spec_push_line(cur.unwrap(), spec_line_tag(l))),
                acc,
            )
        } else {
            spec_scan_hunks(rest, target, in_target, cur, acc)
        }
    }
}

/// The hunks that a git-format diff text holds for one target file.
pub open spec fn spec_parse_file_hunks(text: Seq<char>, target: Seq<char>) -> Seq<HunkView> {
    spec_scan_hunks(spec_lines(text), target, false, None, Seq::empty())
}

/// Parse hunks for a single file from a git-format unified diff, which may
/// contain sections for several files; hunks of other files are discarded,
/// and a malformed `@@` header yields no hunk for its section.
pub fn parse_file_hunks(diff_text: &str, target_file: &str) -> (r: Vec<Hunk>)
    ensures
        r@.map_values(|h: Hunk| h@) == spec_parse_file_hunks(diff_text@, target_file@),
{
    let lines = split_lines(diff_text);
    let ghost all_lines = lines@.map_values(|l: String| l@);
    let mut marker = String::from_str(" b/");
    marker.append(target_file);
    let mut hunks: Vec<Hunk> = Vec::new();
    let mut in_target: bool = false;
    let mut has_cur: bool = false;
    let mut cur = Hunk { old_start: 0, old_count: 0, new_start: 0, new_count: 0, lines: Vec::new() };
    let mut i: usize = 0;
    proof {
        assert(all_lines.skip(0) =~= all_lines);
        assert(hunks@.map_values(|h: Hunk| h@) =~= Seq::<HunkView>::empty());
        assert(all_lines == spec_lines(diff_text@));
    }
    while i < lines.len()
        invariant
            0 <= i <= lines.len(),
            all_lines == lines@.map_values(|l: String| l@),
            marker@ == " b/"@ + target_file@,
            spec_parse_file_hunks(diff_text@, target_file@) == spec_scan_hunks(
                all_lines.skip(i as int),
                target_file@,
                in_target,
                if has_cur { Some(cur@) } else { None },
                hunks@.map_values(|h: Hunk| h@),
            ),
        decreases lines.len() - i,
    {
        let ghost pre_cur: Option<HunkView> = if has_cur { Some(cur@) } else { None };
        let ghost pre_acc = hunks@.map_values(|h: Hunk| h@);
        proof {
            assert(all_lines.skip(i as int)[0] == all_lines[i as int]);
            assert(all_lines.skip(i as int).skip(1) =~= all_lines.skip(i as int + 1));
        }
        let line = &lines[i];
        if starts_with(line.as_str(), "diff --git") {
            if has_cur {
                if in_target {
                    let done = cur;
                    cur = Hunk {
                        old_start: 0,
                        old_count: 0,
                        new_start: 0,
                        new_count: 0,
                        lines: Vec::new(),
                    };
                    hunks.push(done);
                    proof {
                        assert(hunks@.map_values(|h: Hunk| h@) =~= spec_flush(
                            pre_acc,
                            pre_cur,
                            in_target,
                        ));
                    }
                }
                has_cur = false;
            }
            in_target = ends_with(line.as_str(), marker.as_str());
        } else if starts_with(line.as_str(), "@@") && in_target {
            if has_cur {
                let done = cur;
                cur = Hunk {
                    old_start: 0,
                    old_count: 0,
                    new_start: 0,
                    new_count: 0,
                    lines: Vec::new(),
                };
                hunks.push(done);
                proof {
                    assert(hunks@.map_values(|h: Hunk| h@) =~= spec_flush(pre_acc, pre_cur, true));
                }
            }
            match parse_hunk_header(line.as_str()) {
                Some(h) => {
                    cur = h;
                    has_cur = true;
                },
                None => {
                    has_cur = false;
                },
            }
        } else if has_cur && in_target {
            let n0 = line.as_str().unicode_len();
            let tag: Option<HunkLine> = if n0 == 0 {
                Some(HunkLine::Context)
            } else {
                let c0 = line.as_str().get_char(0);
                if c0 == '+' {
                    Some(HunkLine::Add)
                } else if c0 == '-' {
                    Some(HunkLine::Delete)
                } else if c0 == ' ' {
                    Some(HunkLine::Context)
                } else {
                    None
                }
            };
            proof {
                assert(tag == spec_line_tag(line@));
            }
            match tag {
                Some(t) => {
                    cur.lines.push(t);
                    proof {
                        assert(cur@ =~= spec_push_line(pre_cur.unwrap(), spec_line_tag(line@)));
                    }
                },
                None => {
                    proof {
                        assert(cur@ =~= spec_push_line(pre_cur.unwrap(), spec_line_tag(line@)));
                    }
                },
            }
        }
        i += 1;
    }
    proof {
        assert(all_lines.skip(i as int) =~= Seq::<Seq<char>>::empty());
    }
    if has_cur && in_target {
        let ghost pre_acc = hunks@.map_values(|h: Hunk| h@);
        let done = cur;
        hunks.push(done);
        proof {
            assert(hunks@.map_values(|h: Hunk| h@) =~= pre_acc.push(done@));
        }
    }
    hunks
}

// ---- change summary listing ----

#[derive(Debug, Clone, PartialEq, Eq, Structural)]
pub enum FileStatus {
    Added,
    Modified,
    Deleted,
}

/// One file named by a diff summary listing.
#[derive(Debug, Clone)]
pub struct FileDiff {
    pub path: String,
    pub status: FileStatus,
}

#[verifier::ext_equal]
pub ghost struct FileDiffView {
    pub path: Seq<char>,
    pub status: FileStatus,
}

impl View for FileDiff {
    type V = FileDiffView;

    open spec fn view(&self) -> FileDiffView {
        FileDiffView { path: self.path@, status: self.status }
    }
}

/// What one line of `diff --summary` output denotes: a status letter and a
/// path; anything else is skipped.
pub open spec fn spec_parse_summary_line(l: Seq<char>) -> Option<FileDiffView> {
    let parts = spec_split_ws(l);
    if parts.len() >= 2 {
        if parts[0] == "A"@ {
            Some(FileDiffView { path: parts[1], status: FileStatus::Added })
        } else if parts[0] == "M"@ {
            Some(FileDiffView { path: parts[1], status: FileStatus::Modified })
        } else if parts[0] == "D"@ {
            Some(FileDiffView { path: parts[1], status: FileStatus::Deleted })
        } else {
            None
        }
    } else {
        None
    }
}

pub open spec fn spec_parse_summary(lines: Seq<Seq<char>>) -> Seq<FileDiffView>
    decreases lines.len(),
{
    if lines.len() == 0 {
        Seq::empty()
    } else {
        let rest = spec_parse_summary(lines.skip(1));
        match spec_parse_summary_line(lines[0]) {
            Some(f) => seq![f] + rest,
            None => rest,
        }
    }
}

/// Parse the per-file summary listing of a diff: one `A`/`M`/`D` letter and
/// a path per line; other lines are skipped.
pub fn parse_diff_summary(text: &str) -> (r: Vec<FileDiff>)
    ensures
        r@.map_values(|f: FileDiff| f@) == spec_parse_summary(spec_lines(text@)),
{
    let lines = split_lines(text);
    let ghost all_lines = lines@.map_values(|l: String| l@);
    let mut files: Vec<FileDiff> = Vec::new();
    let mut i: usize = 0;
    proof {
        assert(all_lines.skip(0) =~= all_lines);
        assert(files@.map_values(|f: FileDiff| f@) + spec_parse_summary(all_lines)
            =~= spec_parse_summary(all_lines));
    }
    while i < lines.len()
        invariant
            0 <= i <= lines.len(),
            all_lines == lines@.map_values(|l: String| l@),
            spec_parse_summary(all_lines) == files@.map_values(|f: FileDiff| f@)
                + spec_parse_summary(all_lines.skip(i as int)),
        decreases lines.len() - i,
    {
        proof {
            assert(all_lines.skip(i as int)[0] == all_lines[i as int]);
            assert(all_lines.skip(i as int).skip(1) =~= all_lines.skip(i as int + 1));
        }
        let parts = split_ws(lines[i].as_str());
        if parts.len() >= 2 {
            proof {
                assert(parts@.map_values(|t: String| t@)[0] == parts@[0]@);
                assert(parts@.map_values(|t: String| t@)[1] == parts@[1]@);
            }
            let status: Option<FileStatus> = if str_eq(parts[0].as_str(), "A") {
                Some(FileStatus::Added)
            } else if str_eq(parts[0].as_str(), "M") {
                Some(FileStatus::Modified)
            } else if str_eq(parts[0].as_str(), "D") {
                Some(FileStatus::Deleted)
            } else {
                None
            };
            match status {
                Some(st) => {
                    let f = FileDiff { path: parts[1].clone(), status: st };
                    let ghost old_files = files@;
                    files.push(f);
                    proof {
                        assert(files@.map_values(|x: FileDiff| x@) =~= old_files.map_values(
                            |x: FileDiff| x@,
                        ) + seq![f@]);
                        assert(files@.map_values(|x: FileDiff| x@) + spec_parse_summary(
                            all_lines.skip(i as int + 1),
                        ) =~= old_files.map_values(|x: FileDiff| x@) + spec_parse_summary(
                            all_lines.skip(i as int),
                        ));
                    }
                },
                None => {
                },
            }
        }
        i += 1;
    }
    proof {
        assert(all_lines.skip(i as int) =~= Seq::<Seq<char>>::empty());
        assert(files@.map_values(|f: FileDiff| f@) =~= spec_parse_summary(all_lines));
    }
    files
}

} // verus!

//! Typed records read from the external DVCS command line: change metadata
//! parsed from log output (one JSON document plus tab-separated suffixes per
//! line), diff assembly, and interpretation of bookmark lookups. Running the
//! commands is the caller's business; this module turns their output into
//! values.

use vstd::prelude::*;
use vstd::string::*;

use crate::diff::{FileDiff, spec_parse_summary, parse_diff_summary};
use crate::text::{
    last_occ, spec_blank, spec_lines, spec_trim, spec_trim_end, find_last_char, is_blank,
    split_lines, str_eq, trim_blank, trim_end_blank,
};

verus! {

/// One change as the DVCS reports it: the stable change id, the commit hash
/// backing it now, and display metadata.
#[derive(Debug, Clone)]
pub struct Change {
    pub change_id: String,
    pub commit_id: String,
    pub description: String,
    pub author: String,
    pub timestamp: String,
    pub empty: bool,
}

#[verifier::ext_equal]
pub ghost struct ChangeView {
    pub change_id: Seq<char>,
    pub commit_id: Seq<char>,
    pub description: Seq<char>,
    pub author: Seq<char>,
    pub timestamp: Seq<char>,
    pub empty: bool,
}

impl View for Change {
    type V = ChangeView;

    open spec fn view(&self) -> ChangeView {
        ChangeView {
            change_id: self.change_id@,
            commit_id: self.commit_id@,
            description: self.description@,
            author: self.author@,
            timestamp: self.timestamp@,
            empty: self.empty,
        }
    }
}

/// The fields decoded from one line's JSON document.
#[derive(Debug, Clone)]
pub struct ChangeRecord {
    pub change_id: String,
    pub commit_id: String,
    pub description: String,
    pub author_email: String,
    pub committer_timestamp: String,
}

#[verifier::ext_equal]
pub ghost struct ChangeRecordView {
    pub change_id: Seq<char>,
    pub commit_id: Seq<char>,
    pub description: Seq<char>,
    pub author_email: Seq<char>,
    pub committer_timestamp: Seq<char>,
}

impl View for ChangeRecord {
    type V = ChangeRecordView;

    open spec fn view(&self) -> ChangeRecordView {
        ChangeRecordView {
            change_id: self.change_id@,
            commit_id: self.commit_id@,
            description: self.description@,
            author_email: self.author_email@,
            committer_timestamp: self.committer_timestamp@,
        }
    }
}

/// What the DVCS's JSON change document denotes: its change and commit ids,
/// description, author email and committer timestamp, or nothing when the
/// text is not such a document. A function of the text alone.
pub uninterp spec fn change_of_json(s: Seq<char>) -> Option<ChangeRecordView>;

/// Relies on `serde_json::from_str` and `serde_json::Value`'s accessors:
/// decode one JSON change document and move its string fields out. What the
/// decoder accepts and yields depends on the text alone.
#[verifier::external_body]
fn decode_change_json(line: &str) -> (r: Option<ChangeRecord>)
    ensures
        match r {
            Some(c) => change_of_json(line@) == Some(c@),
            None => change_of_json(line@) is None,
        },
{
    let v: serde_json::Value = serde_json::from_str(line).ok()?;
    Some(ChangeRecord {
        change_id: v.get("change_id")?.as_str()?.to_string(),
        commit_id: v.get("commit_id")?.as_str()?.to_string(),
        description: v.get("description")?.as_str()?.to_string(),
        author_email: v.get("author")?.get("email")?.as_str()?.to_string(),
        committer_timestamp: v.get("committer")?.get("timestamp")?.as_str()?.to_string(),
    })
}

/// A change id made entirely of the DVCS's sentinel character names the
/// root of history.
pub open spec fn spec_all_sentinel(s: Seq<char>) -> bool {
    forall|i: int| 0 <= i < s.len() ==> (#[trigger] s[i]) == 'z'
}

fn all_sentinel(s: &str) -> (r: bool)
    ensures
        r == spec_all_sentinel(s@),
{
    let n = s.unicode_len();
    let mut i: usize = 0;
    while i < n
        invariant
            0 <= i <= n,
            n == s@.len(),
            forall|j: int| 0 <= j < i ==> (#[trigger] s@[j]) == 'z',
        decreases n - i,
    {
        if s.get_char(i) != 'z' {
            return false;
        }
        i += 1;
    }
    true
}

/// What one log line denotes before root filtering: the JSON document up to
/// the last tab, and the empty-change flag after it. `None` when the line
/// has no tab or its JSON does not decode.
pub open spec fn spec_parse_change_line(l: Seq<char>) -> Option<ChangeView> {
    let k = last_occ(l, '\t');
    if k < 0 {
        None
    } else {
        match change_of_json(l.take(k)) {
            Some(c) => Some(
                ChangeView {
                    change_id: c.change_id,
                    commit_id: c.commit_id,
                    description: spec_trim_end(c.description),
                    author: c.author_email,
                    timestamp: c.committer_timestamp,
                    empty: l.skip(k + 1) == "true"@,
                },
            ),
            None => None,
        }
    }
}

/// Parse one log line into a change: the JSON document before the final
/// tab, the empty flag after it; the description loses its trailing
/// whitespace.
pub fn parse_change_line(line: &str) -> (r: Option<Change>)
    ensures
        match r {
            Some(c) => spec_parse_change_line(line@) == Some(c@),
            None => spec_parse_change_line(line@) is None,
        },
{
    let n = line.unicode_len();
    let k = match find_last_char(line, '\t') {
        Some(k) => k,
        None => {
            return None;
        },
    };
    let json_part = line.substring_char(0, k);
    let empty_part = line.substring_char(k + 1, n);
    proof {
        assert(json_part@ =~= line@.take(k as int));
        assert(empty_part@ =~= line@.skip(k as int + 1));
    }
    let rec = match decode_change_json(json_part) {
        Some(rec) => rec,
        None => {
            return None;
        },
    };
    let c = Change {
        change_id: rec.change_id,
        commit_id: rec.commit_id,
        description: trim_end_blank(rec.description.as_str()),
        author: rec.author_email,
        timestamp: rec.committer_timestamp,
        empty: str_eq(empty_part, "true"),
    };
    proof {
        assert(c@ =~= spec_parse_change_line(line@).unwrap());
    }
    Some(c)
}

/// What a whole log output denotes: each line parsed, with blank lines,
/// undecodable lines and the all-sentinel root skipped.
pub open spec fn spec_parse_log(lines: Seq<Seq<char>>) -> Seq<ChangeView>
    decreases lines.len(),
{
    if lines.len() == 0 {
        Seq::empty()
    } else {
        let rest = spec_parse_log(lines.skip(1));
        if spec_blank(lines[0]) {
            rest
        } else {
            match spec_parse_change_line(lines[0]) {
                Some(c) => if spec_all_sentinel(c.change_id) {
                    rest
                } else {
                    seq![c] + rest
                },
                None => rest,
            }
        }
    }
}

/// Parse the DVCS log output: one change per well-formed line, skipping
/// blank or malformed lines and the root of history.
pub fn parse_log_output(stdout: &str) -> (r: Vec<Change>)
    ensures
        r@.map_values(|c: Change| c@) == spec_parse_log(spec_lines(stdout@)),
{
    let lines = split_lines(stdout);
    let ghost all_lines = lines@.map_values(|l: String| l@);
    let mut out: Vec<Change> = Vec::new();
    let mut i: usize = 0;
    proof {
        assert(all_lines.skip(0) =~= all_lines);
        assert(out@.map_values(|c: Change| c@) + spec_parse_log(all_lines) =~= spec_parse_log(
            all_lines,
        ));
    }
    while i < lines.len()
        invariant
            0 <= i <= lines.len(),
            all_lines == lines@.map_values(|l: String| l@),
            spec_parse_log(all_lines) == out@.map_values(|c: Change| c@) + spec_parse_log(
                all_lines.skip(i as int),
            ),
        decreases lines.len() - i,
    {
        proof {
            assert(all_lines.skip(i as int)[0] == all_lines[i as int]);
            assert(all_lines.skip(i as int).skip(1) =~= all_lines.skip(i as int + 1));
        }
        if !is_blank(lines[i].as_str()) {
            match parse_change_line(lines[i].as_str()) {
                Some(c) => {
                    if !all_sentinel(c.change_id.as_str()) {
                        let ghost old_out = out@;
                        let ghost cv = c@;
                        out.push(c);
                        proof {
                            assert(out@.map_values(|x: Change| x@) =~= old_out.map_values(
                                |x: Change| x@,
                            ) + seq![cv]);
                            assert(out@.map_values(|x: Change| x@) + spec_parse_log(
                                all_lines.skip(i as int + 1),
                            ) =~= old_out.map_values(|x: Change| x@) + spec_parse_log(
                                all_lines.skip(i as int),
                            ));
                        }
                    }
                },
                None => {
                },
            }
        }
        i += 1;
    }
    proof {
        assert(all_lines.skip(i as int) =~= Seq::<Seq<char>>::empty());
        assert(out@.map_values(|c: Change| c@) =~= spec_parse_log(all_lines));
    }
    out
}

// ---- bookmark lookups ----

/// How a bookmark lookup ended: the change id it names, a report that the
/// bookmark does not exist, or a failure of the command itself.
#[derive(Debug, Clone)]
pub enum BookmarkResolution {
    Found(String),
    Absent,
    Failed,
}

/// Interpret the output of a bookmark lookup: on success the trimmed output
/// is the change id; a failure whose error text says the revision does not
/// exist means the bookmark is absent, which is distinguished from a
/// command failure.
pub fn interpret_bookmark_output(success: bool, stdout: &str, stderr: &str) -> (r:
    BookmarkResolution)
    ensures
        success ==> (r matches BookmarkResolution::Found(id) && id@ == spec_trim(stdout@)),
        !success && crate::text::spec_contains(stderr@, "doesn't exist"@) ==> r
            == BookmarkResolution::Absent,
        !success && !crate::text::spec_contains(stderr@, "doesn't exist"@) ==> r
            == BookmarkResolution::Failed,
{
    if success {
        BookmarkResolution::Found(trim_blank(stdout))
    } else if crate::text::contains_str(stderr, "doesn't exist") {
        BookmarkResolution::Absent
    } else {
        BookmarkResolution::Failed
    }
}

// ---- diff assembly ----

/// A change's diff: the raw git-format text and the per-file summary.
#[derive(Debug, Clone)]
pub struct Diff {
    pub change_id: String,
    pub base: String,
    pub files: Vec<FileDiff>,
    pub raw: String,
}

/// A handle on one repository, by its root path; the commands themselves
/// run outside and hand their output in.
pub struct Jj {
    pub repo_path: String,
}

impl Jj {
    pub fn new(repo_path: &str) -> (r: Jj)
        ensures
            r.repo_path@ == repo_path@,
    {
        Jj { repo_path: repo_path.to_owned() }
    }

    pub fn repo_path(&self) -> (r: &String)
        ensures
            r@ == self.repo_path@,
    {
        &self.repo_path
    }

    /// Assemble a change's diff from the raw git-format text and the
    /// summary listing; the base defaults to the change's parent, written
    /// `<change_id>-`.
    pub fn diff(&self, change_id: &str, base: Option<&String>, raw: String, summary: &str) -> (r:
        Diff)
        ensures
            r.change_id@ == change_id@,
            r.base@ == match base {
                Some(b) => b@,
                None => change_id@ + "-"@,
            },
            r.files@.map_values(|f: FileDiff| f@) == spec_parse_summary(spec_lines(summary@)),
            r.raw@ == raw@,
    {
        let base_s: String = match base {
            Some(b) => b.clone(),
            None => {
                let mut s = change_id.to_owned();
                s.append("-");
                s
            },
        };
        let files = parse_diff_summary(summary);
        Diff { change_id: change_id.to_owned(), base: base_s, files, raw }
    }
}

} // verus!

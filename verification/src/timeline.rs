//! The event timeline: review comments, replies, chat messages and code
//! snapshots in one append-only log, with filtering, and the classifier
//! that turns third-party chat-session records into timeline entries.

use vstd::prelude::*;
use vstd::string::*;

use crate::text::{lex_le, str_eq, str_le};

verus! {

#[derive(Debug, Clone, PartialEq, Eq, Structural)]
pub enum ChatAuthor {
    User,
    Agent,
}

/// One event of the timeline.
#[derive(Debug, Clone)]
pub enum TimelineEventData {
    ReviewComment {
        change_id: String,
        thread_id: String,
        file: String,
        line_start: u32,
        line_end: u32,
        text: String,
    },
    ReviewReply { change_id: String, thread_id: String, author: String, text: String },
    ChatMessage { session_id: String, author: ChatAuthor, text: String },
    CodeSnapshot { change_id: String, commit_id: String, description: String },
}

#[derive(Debug, Clone)]
pub struct TimelineEntry {
    /// RFC3339 timestamp; the log is ordered by its text order.
    pub timestamp: String,
    pub data: TimelineEventData,
}

/// An optional window and kind restriction on a timeline read.
#[derive(Debug, Clone)]
pub struct TimelineFilter {
    pub since: Option<String>,
    pub until: Option<String>,
    pub change_id: Option<String>,
    pub event_type: Option<String>,
}

/// Counters of one import run.
#[derive(Debug, Clone, PartialEq, Eq, Structural)]
pub struct ImportStats {
    pub sessions_scanned: usize,
    pub messages_imported: usize,
}

/// The store of the timeline log under one repository.
pub struct TimelineStore {
    pub base_path: String,
}

impl TimelineStore {
    pub fn new(repo_path: &str) -> (r: TimelineStore)
        ensures
            r.base_path@ == repo_path@,
    {
        TimelineStore { base_path: repo_path.to_owned() }
    }

    /// `<repo>/.aipair/timeline.jsonl`
    pub fn timeline_path(&self) -> (r: String)
        ensures
            r@ == self.base_path@ + "/.aipair/timeline.jsonl"@,
    {
        let mut s = self.base_path.clone();
        s.append("/.aipair/timeline.jsonl");
        s
    }

    /// `<repo>/.aipair/timeline-import-state.json`
    pub fn import_state_path(&self) -> (r: String)
        ensures
            r@ == self.base_path@ + "/.aipair/timeline-import-state.json"@,
    {
        let mut s = self.base_path.clone();
        s.append("/.aipair/timeline-import-state.json");
        s
    }
}

// ---- views ----

pub ghost enum TimelineEventDataView {
    ReviewComment {
        change_id: Seq<char>,
        thread_id: Seq<char>,
        file: Seq<char>,
        line_start: int,
        line_end: int,
        text: Seq<char>,
    },
    ReviewReply { change_id: Seq<char>, thread_id: Seq<char>, author: Seq<char>, text: Seq<char> },
    ChatMessage { session_id: Seq<char>, author: ChatAuthor, text: Seq<char> },
    CodeSnapshot { change_id: Seq<char>, commit_id: Seq<char>, description: Seq<char> },
}

#[verifier::ext_equal]
pub ghost struct TimelineEntryView {
    pub timestamp: Seq<char>,
    pub data: TimelineEventDataView,
}

impl View for TimelineEventData {
    type V = TimelineEventDataView;

    open spec fn view(&self) -> TimelineEventDataView {
        match self {
            TimelineEventData::ReviewComment { change_id, thread_id, file, line_start, line_end, text } =>
                TimelineEventDataView::ReviewComment {
                change_id: change_id@,
                thread_id: thread_id@,
                file: file@,
                line_start: *line_start as int,
                line_end: *line_end as int,
                text: text@,
            },
            TimelineEventData::ReviewReply { change_id, thread_id, author, text } =>
                TimelineEventDataView::ReviewReply {
                change_id: change_id@,
                thread_id: thread_id@,
                author: author@,
                text: text@,
            },
            TimelineEventData::ChatMessage { session_id, author, text } =>
                TimelineEventDataView::ChatMessage {
                session_id: session_id@,
                author: *author,
                text: text@,
            },
            TimelineEventData::CodeSnapshot { change_id, commit_id, description } =>
                TimelineEventDataView::CodeSnapshot {
                change_id: change_id@,
                commit_id: commit_id@,
                description: description@,
            },
        }
    }
}

impl View for TimelineEntry {
    type V = TimelineEntryView;

    open spec fn view(&self) -> TimelineEntryView {
        TimelineEntryView { timestamp: self.timestamp@, data: self.data@ }
    }
}

// ---- filtering ----

pub open spec fn spec_entry_change_id(d: TimelineEventDataView) -> Option<Seq<char>> {
    match d {
        TimelineEventDataView::ReviewComment { change_id, .. } => Some(change_id),
        TimelineEventDataView::ReviewReply { change_id, .. } => Some(change_id),
        TimelineEventDataView::CodeSnapshot { change_id, .. } => Some(change_id),
        TimelineEventDataView::ChatMessage { .. } => None,
    }
}

pub open spec fn spec_entry_type(d: TimelineEventDataView) -> Seq<char> {
    match d {
        TimelineEventDataView::ReviewComment { .. } => "ReviewComment"@,
        TimelineEventDataView::ReviewReply { .. } => "ReviewReply"@,
        TimelineEventDataView::ChatMessage { .. } => "ChatMessage"@,
        TimelineEventDataView::CodeSnapshot { .. } => "CodeSnapshot"@,
    }
}

/// Whether an entry passes the filter: not before `since`, not after
/// `until` (text order of the timestamps), carrying the asked-for change
/// and event kind.
pub open spec fn spec_matches_filter(
    e: TimelineEntryView,
    since: Option<Seq<char>>,
    until: Option<Seq<char>>,
    change_id: Option<Seq<char>>,
    event_type: Option<Seq<char>>,
) -> bool {
    &&& match since {
        Some(s) => lex_le(s, e.timestamp),
        None => true,
    }
    &&& match until {
        Some(u) => lex_le(e.timestamp, u),
        None => true,
    }
    &&& match change_id {
        Some(c) => spec_entry_change_id(e.data) == Some(c),
        None => true,
    }
    &&& match event_type {
        Some(t) => spec_entry_type(e.data) == t,
        None => true,
    }
}

pub open spec fn view_filter(f: TimelineFilter) -> (
    Option<Seq<char>>,
    Option<Seq<char>>,
    Option<Seq<char>>,
    Option<Seq<char>>,
) {
    (
        match f.since {
            Some(s) => Some(s@),
            None => None,
        },
        match f.until {
            Some(s) => Some(s@),
            None => None,
        },
        match f.change_id {
            Some(s) => Some(s@),
            None => None,
        },
        match f.event_type {
            Some(s) => Some(s@),
            None => None,
        },
    )
}

/// Does the entry pass the filter?
pub fn matches_filter(entry: &TimelineEntry, filter: &TimelineFilter) -> (r: bool)
    ensures
        ({
            let fv = view_filter(*filter);
            r == spec_matches_filter(entry@, fv.0, fv.1, fv.2, fv.3)
        }),
{
    match &filter.since {
        Some(s) => {
            if !str_le(s.as_str(), entry.timestamp.as_str()) {
                return false;
            }
        },
        None => {},
    }
    match &filter.until {
        Some(u) => {
            if !str_le(entry.timestamp.as_str(), u.as_str()) {
                return false;
            }
        },
        None => {},
    }
    match &filter.change_id {
        Some(c) => {
            let ok: bool = match &entry.data {
                TimelineEventData::ReviewComment { change_id, .. } => str_eq(
                    change_id.as_str(),
                    c.as_str(),
                ),
                TimelineEventData::ReviewReply { change_id, .. } => str_eq(
                    change_id.as_str(),
                    c.as_str(),
                ),
                TimelineEventData::CodeSnapshot { change_id, .. } => str_eq(
                    change_id.as_str(),
                    c.as_str(),
                ),
                TimelineEventData::ChatMessage { .. } => false,
            };
            if !ok {
                return false;
            }
        },
        None => {},
    }
    match &filter.event_type {
        Some(t) => {
            let label: &'static str = match &entry.data {
                TimelineEventData::ReviewComment { .. } => "ReviewComment",
                TimelineEventData::ReviewReply { .. } => "ReviewReply",
                TimelineEventData::ChatMessage { .. } => "ChatMessage",
                TimelineEventData::CodeSnapshot { .. } => "CodeSnapshot",
            };
            if !str_eq(label, t.as_str()) {
                return false;
            }
        },
        None => {},
    }
    true
}

/// Keep the entries that pass the filter, in order.
pub open spec fn spec_filter_entries(
    es: Seq<TimelineEntryView>,
    since: Option<Seq<char>>,
    until: Option<Seq<char>>,
    change_id: Option<Seq<char>>,
    event_type: Option<Seq<char>>,
) -> Seq<TimelineEntryView>
    decreases es.len(),
{
    if es.len() == 0 {
        Seq::empty()
    } else {
        (if spec_matches_filter(es[0], since, until, change_id, event_type) {
            seq![es[0]]
        } else {
            Seq::empty()
        }) + spec_filter_entries(es.skip(1), since, until, change_id, event_type)
    }
}

/// Apply a filter to a run of entries.
pub fn filter_entries(entries: Vec<TimelineEntry>, filter: &TimelineFilter) -> (r: Vec<
    TimelineEntry,
>)
    ensures
        ({
            let fv = view_filter(*filter);
            r@.map_values(|e: TimelineEntry| e@) == spec_filter_entries(
                entries@.map_values(|e: TimelineEntry| e@),
                fv.0,
                fv.1,
                fv.2,
                fv.3,
            )
        }),
{
    let ghost ev = entries@.map_values(|e: TimelineEntry| e@);
    let ghost fv = view_filter(*filter);
    let mut rest = entries;
    let mut out: Vec<TimelineEntry> = Vec::new();
    proof {
        assert(ev.skip(0) =~= ev);
        assert(out@.map_values(|e: TimelineEntry| e@) + spec_filter_entries(
            ev,
            fv.0,
            fv.1,
            fv.2,
            fv.3,
        ) =~= spec_filter_entries(ev, fv.0, fv.1, fv.2, fv.3));
    }
    let ghost done: int = 0;
    while rest.len() > 0
        invariant
            fv == view_filter(*filter),
            ev == entries@.map_values(|e: TimelineEntry| e@),
            0 <= done <= ev.len(),
            rest@.len() == ev.len() - done,
            forall|j: int| 0 <= j < rest@.len() ==> (#[trigger] rest@[j])@ == ev[done + j],
            spec_filter_entries(ev, fv.0, fv.1, fv.2, fv.3) == out@.map_values(
                |e: TimelineEntry| e@,
            ) + spec_filter_entries(ev.skip(done), fv.0, fv.1, fv.2, fv.3),
        decreases rest@.len(),
    {
        proof {
            assert(ev.skip(done)[0] == ev[done]);
            assert(ev.skip(done).skip(1) =~= ev.skip(done + 1));
        }
        let ghost pre = out@;
        let e = rest.remove(0);
        proof {
            assert(e@ == ev[done]);
        }
        if matches_filter(&e, filter) {
            out.push(e);
            proof {
                assert(out@.map_values(|x: TimelineEntry| x@) =~= pre.map_values(
                    |x: TimelineEntry| x@,
                ) + seq![ev[done]]);
            }
        }
        proof {
            assert(out@.map_values(|x: TimelineEntry| x@) + spec_filter_entries(
                ev.skip(done + 1),
                fv.0,
                fv.1,
                fv.2,
                fv.3,
            ) =~= pre.map_values(|x: TimelineEntry| x@) + spec_filter_entries(
                ev.skip(done),
                fv.0,
                fv.1,
                fv.2,
                fv.3,
            ));
        }
        proof {
            done = done + 1;
        }
    }
    proof {
        assert(ev.skip(done) =~= Seq::<TimelineEntryView>::empty());
        assert(out@.map_values(|e: TimelineEntry| e@) =~= spec_filter_entries(
            ev,
            fv.0,
            fv.1,
            fv.2,
            fv.3,
        ));
    }
    out
}

// ---- chat-session import ----

/// The envelope of one chat-session record: its kind, timestamp and
/// sidechain flag.
#[derive(Debug, Clone)]
pub struct ChatEnvelope {
    pub msg_type: String,
    pub timestamp: Option<String>,
    pub is_sidechain: bool,
}

/// A record's message content: a bare string, a list of typed blocks, or
/// nothing usable.
#[derive(Debug, Clone)]
pub enum ChatContent {
    Missing,
    Text(String),
    Blocks(Vec<ChatBlock>),
}

#[derive(Debug, Clone)]
pub struct ChatBlock {
    pub block_type: String,
    pub text: Option<String>,
}

#[verifier::ext_equal]
pub ghost struct ChatBlockView {
    pub block_type: Seq<char>,
    pub text: Option<Seq<char>>,
}

pub ghost enum ChatContentView {
    Missing,
    Text(Seq<char>),
    Blocks(Seq<ChatBlockView>),
}

#[verifier::ext_equal]
pub ghost struct ChatEnvelopeView {
    pub msg_type: Seq<char>,
    pub timestamp: Option<Seq<char>>,
    pub is_sidechain: bool,
}

impl View for ChatBlock {
    type V = ChatBlockView;

    open spec fn view(&self) -> ChatBlockView {
        ChatBlockView {
            block_type: self.block_type@,
            text: match self.text {
                Some(t) => Some(t@),
                None => None,
            },
        }
    }
}

impl View for ChatContent {
    type V = ChatContentView;

    open spec fn view(&self) -> ChatContentView {
        match self {
            ChatContent::Missing => ChatContentView::Missing,
            ChatContent::Text(t) => ChatContentView::Text(t@),
            ChatContent::Blocks(bs) => ChatContentView::Blocks(
                bs@.map_values(|b: ChatBlock| b@),
            ),
        }
    }
}

impl View for ChatEnvelope {
    type V = ChatEnvelopeView;

    open spec fn view(&self) -> ChatEnvelopeView {
        ChatEnvelopeView {
            msg_type: self.msg_type@,
            timestamp: match self.timestamp {
                Some(t) => Some(t@),
                None => None,
            },
            is_sidechain: self.is_sidechain,
        }
    }
}

/// What one line of a chat-session log says of itself: its record's kind,
/// timestamp and sidechain flag, or nothing when the line is not such a
/// record. A function of the text alone.
pub uninterp spec fn chat_envelope_of(s: Seq<char>) -> Option<ChatEnvelopeView>;

/// The message content that one line of a chat-session log carries: a bare
/// string, its typed blocks, or nothing. A function of the text alone.
pub uninterp spec fn chat_content_of(s: Seq<char>) -> ChatContentView;

/// Relies on `serde_json::from_str` and `serde_json::Value`'s accessors:
/// decode one chat-session JSON record's kind, timestamp and sidechain
/// flag, moving the fields over.
#[verifier::external_body]
fn decode_chat_envelope(line: &str) -> (r: Option<ChatEnvelope>)
    ensures
        match r {
            Some(c) => chat_envelope_of(line@) == Some(c@),
            None => chat_envelope_of(line@) is None,
        },
{
    let v: serde_json::Value = serde_json::from_str(line).ok()?;
    Some(ChatEnvelope {
        msg_type: v.get("type")?.as_str()?.to_string(),
        timestamp: v.get("timestamp").and_then(|t| t.as_str()).map(|t| t.to_string()),
        is_sidechain: v.get("isSidechain").and_then(|b| b.as_bool()).unwrap_or(false),
    })
}

/// Relies on `serde_json::from_str` and `serde_json::Value`'s accessors:
/// decode the record's message content, telling the variants apart one arm
/// each and moving the block fields over.
#[verifier::external_body]
fn decode_chat_content(line: &str) -> (r: ChatContent)
    ensures
        r@ == chat_content_of(line@),
{
    let parsed: Option<serde_json::Value> = serde_json::from_str(line).ok();
    let c = parsed.and_then(|v| v.get("message").and_then(|m| m.get("content")).cloned());
    match c {
        Some(serde_json::Value::String(t)) => ChatContent::Text(t),
        Some(serde_json::Value::Array(a)) => ChatContent::Blocks(a.iter().map(|b| ChatBlock {
            block_type: b.get("type").and_then(|t| t.as_str()).unwrap_or("").to_string(),
            text: b.get("text").and_then(|t| t.as_str()).map(|t| t.to_string()),
        }).collect()),
        _ => ChatContent::Missing,
    }
}

/// The text blocks' texts, in order.
pub open spec fn spec_block_texts(bs: Seq<ChatBlockView>) -> Seq<Seq<char>>
    decreases bs.len(),
{
    if bs.len() == 0 {
        Seq::empty()
    } else {
        (if bs[0].block_type == "text"@ && bs[0].text is Some {
            seq![bs[0].text.unwrap()]
        } else {
            Seq::empty()
        }) + spec_block_texts(bs.skip(1))
    }
}

pub open spec fn spec_join_texts(ts: Seq<Seq<char>>) -> Seq<char>
    decreases ts.len(),
{
    if ts.len() == 0 {
        Seq::empty()
    } else if ts.len() == 1 {
        ts[0]
    } else {
        ts[0] + "\n"@ + spec_join_texts(ts.skip(1))
    }
}

/// What the classifier makes of one record: a chat message for a user
/// record with non-empty text, or for an agent record whose content has at
/// least one text block; everything else — sidechains, system records,
/// tool traffic — is skipped. The timestamp falls back to the caller's
/// clock.
pub open spec fn spec_classify_record(
    env: ChatEnvelopeView,
    content: ChatContentView,
    session_id: Seq<char>,
    now: Seq<char>,
) -> Option<TimelineEntryView> {
    if env.is_sidechain {
        None
    } else {
        let ts = match env.timestamp {
            Some(t) => t,
            None => now,
        };
        if env.msg_type == "user"@ {
            match content {
                ChatContentView::Text(t) => if t.len() == 0 {
                    None
                } else {
                    Some(
                        TimelineEntryView {
                            timestamp: ts,
                            data: TimelineEventDataView::ChatMessage {
                                session_id,
                                author: ChatAuthor::User,
                                text: t,
                            },
                        },
                    )
                },
                ChatContentView::Blocks(bs) => {
                    let t = spec_join_texts(spec_block_texts(bs));
                    if t.len() == 0 {
                        None
                    } else {
                        Some(
                            TimelineEntryView {
                                timestamp: ts,
                                data: TimelineEventDataView::ChatMessage {
                                    session_id,
                                    author: ChatAuthor::User,
                                    text: t,
                                },
                            },
                        )
                    }
                },
                ChatContentView::Missing => None,
            }
        } else if env.msg_type == "assistant"@ {
            match content {
                ChatContentView::Blocks(bs) => {
                    if spec_block_texts(bs).len() == 0 {
                        None
                    } else {
                        Some(
                            TimelineEntryView {
                                timestamp: ts,
                                data: TimelineEventDataView::ChatMessage {
                                    session_id,
                                    author: ChatAuthor::Agent,
                                    text: spec_join_texts(spec_block_texts(bs)),
                                },
                            },
                        )
                    }
                },
                _ => None,
            }
        } else {
            None
        }
    }
}

fn collect_block_texts(bs: &Vec<ChatBlock>) -> (r: Vec<String>)
    ensures
        r@.map_values(|t: String| t@) == spec_block_texts(bs@.map_values(|b: ChatBlock| b@)),
{
    let ghost bv = bs@.map_values(|b: ChatBlock| b@);
    let mut out: Vec<String> = Vec::new();
    let mut i: usize = 0;
    proof {
        assert(bv.skip(0) =~= bv);
        assert(out@.map_values(|t: String| t@) + spec_block_texts(bv) =~= spec_block_texts(bv));
    }
    while i < bs.len()
        invariant
            0 <= i <= bs@.len(),
            bv == bs@.map_values(|b: ChatBlock| b@),
            spec_block_texts(bv) == out@.map_values(|t: String| t@) + spec_block_texts(
                bv.skip(i as int),
            ),
        decreases bs@.len() - i,
    {
        proof {
            assert(bv.skip(i as int)[0] == bv[i as int]);
            assert(bv.skip(i as int).skip(1) =~= bv.skip(i as int + 1));
            assert(bv[i as int] == bs@[i as int]@);
        }
        let ghost pre = out@;
        let b = &bs[i];
        if str_eq(b.block_type.as_str(), "text") {
            match &b.text {
                Some(t) => {
                    out.push(t.clone());
                    proof {
                        assert(out@.map_values(|x: String| x@) =~= pre.map_values(|x: String| x@)
                            + seq![bv[i as int].text.unwrap()]);
                    }
                },
                None => {},
            }
        }
        proof {
            assert(out@.map_values(|x: String| x@) + spec_block_texts(bv.skip(i as int + 1))
                =~= pre.map_values(|x: String| x@) + spec_block_texts(bv.skip(i as int)));
        }
        i += 1;
    }
    proof {
        assert(bv.skip(i as int) =~= Seq::<ChatBlockView>::empty());
        assert(out@.map_values(|t: String| t@) =~= spec_block_texts(bv));
    }
    out
}

fn join_texts(ts: &Vec<String>) -> (r: String)
    ensures
        r@ == spec_join_texts(ts@.map_values(|t: String| t@)),
{
    let ghost tv = ts@.map_values(|t: String| t@);
    let mut acc = String::new();
    let mut i: usize = 0;
    if ts.len() == 0 {
        proof {
            assert(acc@ =~= spec_join_texts(tv));
        }
        return acc;
    }
    proof {
        assert(tv[0] == ts@[0]@);
    }
    acc.append(ts[0].as_str());
    i = 1;
    proof {
        assert(tv.skip(0) =~= tv);
    }
    while i < ts.len()
        invariant
            1 <= i <= ts@.len(),
            tv == ts@.map_values(|t: String| t@),
            spec_join_texts(tv) == acc@ + (if i < ts@.len() {
                "\n"@ + spec_join_texts(tv.skip(i as int))
            } else {
                Seq::<char>::empty()
            }),
        decreases ts@.len() - i,
    {
        proof {
            assert(tv.skip(i as int)[0] == tv[i as int]);
            assert(tv.skip(i as int).skip(1) =~= tv.skip(i as int + 1));
            assert(tv[i as int] == ts@[i as int]@);
        }
        let ghost pre = acc@;
        acc.append("\n");
        acc.append(ts[i].as_str());
        proof {
            if i + 1 < ts@.len() {
                assert(acc@ + ("\n"@ + spec_join_texts(tv.skip(i as int + 1))) =~= pre + ("\n"@
                    + spec_join_texts(tv.skip(i as int))));
            } else {
                assert(tv.skip(i as int).len() == 1);
                assert(spec_join_texts(tv.skip(i as int)) == tv[i as int]);
                assert(acc@ =~= pre + ("\n"@ + spec_join_texts(tv.skip(i as int))));
            }
        }
        i += 1;
    }
    acc
}

/// Classify one line of a chat-session log: a user or assistant message
/// with text becomes a chat-message entry under the session's id; system
/// records, tool traffic, sidechains and empty messages are skipped. The
/// caller's clock stands in for a record without a timestamp.
pub fn parse_claude_session_line(line: &str, session_id: &str, now: &str) -> (r: Option<
    TimelineEntry,
>)
    ensures
        ({
            match chat_envelope_of(line@) {
                Some(env) => match r {
                    Some(e) => spec_classify_record(env, chat_content_of(line@), session_id@, now@)
                        == Some(e@),
                    None => spec_classify_record(env, chat_content_of(line@), session_id@, now@)
                        is None,
                },
                None => r is None,
            }
        }),
{
    let env = match decode_chat_envelope(line) {
        Some(env) => env,
        None => {
            return None;
        },
    };
    if env.is_sidechain {
        return None;
    }
    let ts: String = match env.timestamp {
        Some(t) => t,
        None => now.to_owned(),
    };
    if str_eq(env.msg_type.as_str(), "user") {
        let content = decode_chat_content(line);
        let text: String = match &content {
            ChatContent::Text(t) => t.clone(),
            ChatContent::Blocks(bs) => {
                let parts = collect_block_texts(bs);
                join_texts(&parts)
            },
            ChatContent::Missing => {
                return None;
            },
        };
        if text.as_str().unicode_len() == 0 {
            return None;
        }
        let e = TimelineEntry {
            timestamp: ts,
            data: TimelineEventData::ChatMessage {
                session_id: session_id.to_owned(),
                author: ChatAuthor::User,
                text,
            },
        };
        proof {
            assert(e@ =~= spec_classify_record(
                chat_envelope_of(line@).unwrap(),
                chat_content_of(line@),
                session_id@,
                now@,
            ).unwrap());
        }
        Some(e)
    } else if str_eq(env.msg_type.as_str(), "assistant") {
        let content = decode_chat_content(line);
        match &content {
            ChatContent::Blocks(bs) => {
                let parts = collect_block_texts(bs);
                if parts.len() == 0 {
                    return None;
                }
                let text = join_texts(&parts);
                let e = TimelineEntry {
                    timestamp: ts,
                    data: TimelineEventData::ChatMessage {
                        session_id: session_id.to_owned(),
                        author: ChatAuthor::Agent,
                        text,
                    },
                };
                proof {
                    assert(e@ =~= spec_classify_record(
                        chat_envelope_of(line@).unwrap(),
                        chat_content_of(line@),
                        session_id@,
                        now@,
                    ).unwrap());
                }
                Some(e)
            },
            _ => None,
        }
    } else {
        None
    }
}

// ---- chat log directory ----

/// The per-project name a chat tool's log directory uses: the project path
/// loses its leading slash and every remaining slash becomes a hyphen.
pub open spec fn spec_mangle_path(p: Seq<char>) -> Seq<char> {
    (if p.len() > 0 && p[0] == '/' {
        p.skip(1)
    } else {
        p
    }).map_values(|c: char| if c == '/' { '-' } else { c })
}

/// The log directory of one project under the chat tool's base directory:
/// `<base>/-<mangled project path>`.
pub fn chat_log_dir(base: &str, project_path: &str) -> (r: String)
    ensures
        r@ == base@ + "/-"@ + spec_mangle_path(project_path@),
{
    let mut s = base.to_owned();
    s.append("/-");
    let n = project_path.unicode_len();
    let start: usize = if n > 0 && project_path.get_char(0) == '/' {
        1
    } else {
        0
    };
    let ghost stripped = if project_path@.len() > 0 && project_path@[0] == '/' {
        project_path@.skip(1)
    } else {
        project_path@
    };
    let mut i: usize = start;
    proof {
        assert(s@ =~= base@ + "/-"@ + stripped.take(0).map_values(
            |c: char| if c == '/' { '-' } else { c },
        ));
    }
    while i < n
        invariant
            start <= i <= n,
            n == project_path@.len(),
            start == if project_path@.len() > 0 && project_path@[0] == '/' {
                1int
            } else {
                0int
            },
            stripped == project_path@.skip(start as int),
            s@ == base@ + "/-"@ + stripped.take(i - start).map_values(
                |c: char| if c == '/' { '-' } else { c },
            ),
        decreases n - i,
    {
        let ghost pre = s@;
        let c = project_path.get_char(i);
        if c == '/' {
            s.append("-");
            proof {
                reveal_strlit("-");
            }
        } else {
            let piece = project_path.substring_char(i, i + 1);
            proof {
                assert(piece@ =~= seq![project_path@[i as int]]);
            }
            s.append(piece);
        }
        proof {
            assert(stripped[i - start] == project_path@[i as int]);
            assert(stripped.take(i - start + 1) =~= stripped.take(i - start).push(
                stripped[i - start],
            ));
            assert(stripped.take(i - start + 1).map_values(|c: char| if c == '/' { '-' } else { c })
                =~= stripped.take(i - start).map_values(|c: char| if c == '/' { '-' } else { c }).push(
                if project_path@[i as int] == '/' { '-' } else { project_path@[i as int] },
            ));
            assert(s@ =~= pre + seq![if project_path@[i as int] == '/' { '-' } else { project_path@[i as int] }]);
            assert(s@ =~= base@ + "/-"@ + stripped.take(i - start + 1).map_values(
                |c: char| if c == '/' { '-' } else { c },
            ));
        }
        i += 1;
    }
    proof {
        assert(stripped.take(n - start) =~= stripped);
    }
    s
}

} // verus!

//! Topic documents: a named group of changes with notes and a lifecycle,
//! each change belonging to at most one topic. Pure document logic; the
//! files live with the caller.

use vstd::prelude::*;
use vstd::string::*;

use crate::review::StoreError;
use crate::text::{alnum_of, lower_of, char_is_alphanumeric, str_eq, to_lowercase};

verus! {

#[derive(Debug, Clone, PartialEq, Eq, Structural)]
pub enum TopicStatus {
    Active,
    Finished,
}

/// A topic: a named group of change ids on a base.
#[derive(Debug, Clone)]
pub struct Topic {
    pub id: String,
    pub name: String,
    pub base: String,
    pub changes: Vec<String>,
    pub status: TopicStatus,
    pub created_at: String,
}

#[verifier::ext_equal]
pub ghost struct TopicView {
    pub id: Seq<char>,
    pub name: Seq<char>,
    pub base: Seq<char>,
    pub changes: Seq<Seq<char>>,
    pub status: TopicStatus,
    pub created_at: Seq<char>,
}

impl View for Topic {
    type V = TopicView;

    open spec fn view(&self) -> TopicView {
        TopicView {
            id: self.id@,
            name: self.name@,
            base: self.base@,
            changes: self.changes@.map_values(|c: String| c@),
            status: self.status,
            created_at: self.created_at@,
        }
    }
}

/// The store of topic documents under one repository.
pub struct TopicStore {
    pub base_path: String,
}

impl TopicStore {
    pub fn new(repo_path: &str) -> (r: TopicStore)
        ensures
            r.base_path@ == repo_path@ + "/.aipair/topics"@,
    {
        let mut s = repo_path.to_owned();
        s.append("/.aipair/topics");
        TopicStore { base_path: s }
    }

    /// `<topics>/<topic_id>`
    pub fn topic_dir(&self, topic_id: &str) -> (r: String)
        ensures
            r@ == self.base_path@ + "/"@ + topic_id@,
    {
        let mut s = self.base_path.clone();
        s.append("/");
        s.append(topic_id);
        proof {
            assert(s@ =~= self.base_path@ + "/"@ + topic_id@);
        }
        s
    }

    /// `<topics>/<topic_id>/topic.json`
    pub fn topic_json_path(&self, topic_id: &str) -> (r: String)
        ensures
            r@ == self.base_path@ + "/"@ + topic_id@ + "/topic.json"@,
    {
        let mut s = self.topic_dir(topic_id);
        s.append("/topic.json");
        proof {
            assert(s@ =~= self.base_path@ + "/"@ + topic_id@ + "/topic.json"@);
        }
        s
    }

    /// `<topics>/<topic_id>/notes.md`
    pub fn notes_path(&self, topic_id: &str) -> (r: String)
        ensures
            r@ == self.base_path@ + "/"@ + topic_id@ + "/notes.md"@,
    {
        let mut s = self.topic_dir(topic_id);
        s.append("/notes.md");
        proof {
            assert(s@ =~= self.base_path@ + "/"@ + topic_id@ + "/notes.md"@);
        }
        s
    }
}

// ---- creation and lifecycle ----

pub open spec fn spec_new_topic(
    id: Seq<char>,
    name: Seq<char>,
    base: Seq<char>,
    now: Seq<char>,
) -> TopicView {
    TopicView {
        id,
        name,
        base,
        changes: Seq::empty(),
        status: TopicStatus::Active,
        created_at: now,
    }
}

impl Topic {
    /// A fresh active topic with no changes.
    pub fn new(id: &str, name: &str, base: &str, now: &str) -> (r: Topic)
        ensures
            r@ == spec_new_topic(id@, name@, base@, now@),
    {
        let t = Topic {
            id: id.to_owned(),
            name: name.to_owned(),
            base: base.to_owned(),
            changes: Vec::new(),
            status: TopicStatus::Active,
            created_at: now.to_owned(),
        };
        proof {
            assert(t@ =~= spec_new_topic(id@, name@, base@, now@));
        }
        t
    }

    /// Mark the topic finished.
    pub fn finish(self) -> (r: Topic)
        ensures
            r@ =~= (TopicView { status: TopicStatus::Finished, ..self@ }),
    {
        let mut me = self;
        me.status = TopicStatus::Finished;
        me
    }
}

// ---- change membership ----

/// Resolution of a possibly-short change id against a set of full ids: an
/// exact match wins; else a unique id starting with the prefix; several or
/// none yield nothing.
pub open spec fn spec_resolve_in_set(ids: Seq<Seq<char>>, prefix: Seq<char>) -> Option<Seq<char>> {
    if ids.contains(prefix) {
        Some(prefix)
    } else {
        let c = crate::review::spec_count_prefix(ids, prefix);
        if c == 1 {
            Some(ids[crate::review::spec_find_prefix(ids, prefix)])
        } else {
            None
        }
    }
}

/// Resolve a possibly-short change id against a topic's changes: exact
/// match first, then a unique prefix match; an ambiguous prefix resolves to
/// nothing.
pub fn resolve_change_in_set(changes: &Vec<String>, prefix: &str) -> (r: Option<String>)
    ensures
        ({
            let ids = changes@.map_values(|s: String| s@);
            match r {
                Some(id) => spec_resolve_in_set(ids, prefix@) == Some(id@),
                None => spec_resolve_in_set(ids, prefix@) is None,
            }
        }),
{
    let ghost ids = changes@.map_values(|s: String| s@);
    let mut i: usize = 0;
    while i < changes.len()
        invariant
            0 <= i <= changes@.len(),
            ids == changes@.map_values(|s: String| s@),
            forall|j: int| 0 <= j < i ==> (#[trigger] ids[j]) != prefix@,
        decreases changes@.len() - i,
    {
        proof {
            assert(ids[i as int] == changes@[i as int]@);
        }
        if str_eq(changes[i].as_str(), prefix) {
            proof {
                assert(ids.contains(prefix@));
            }
            return Some(changes[i].clone());
        }
        i += 1;
    }
    proof {
        assert(!ids.contains(prefix@));
    }
    match crate::review::resolve_prefix(changes, prefix) {
        Ok(k) => {
            proof {
                crate::review::lemma_count_prefix_nonneg(ids, prefix@);
                assert(ids[k as int] == changes@[k as int]@);
            }
            Some(changes[k].clone())
        },
        Err(_) => None,
    }
}

/// Does any id of the list resolve this change, exactly or as a unique
/// prefix?
pub open spec fn spec_topic_owns(t: TopicView, change_id: Seq<char>) -> bool {
    spec_resolve_in_set(t.changes, change_id) is Some
}

/// Index of the first topic that owns the change, or -1.
pub open spec fn spec_find_topic(topics: Seq<TopicView>, change_id: Seq<char>) -> int
    decreases topics.len(),
{
    if topics.len() == 0 {
        -1
    } else if spec_topic_owns(topics[0], change_id) {
        0
    } else {
        let r = spec_find_topic(topics.skip(1), change_id);
        if r < 0 {
            -1
        } else {
            r + 1
        }
    }
}

proof fn lemma_find_topic_at(topics: Seq<TopicView>, change_id: Seq<char>, k: int)
    requires
        0 <= k < topics.len(),
        spec_topic_owns(topics[k], change_id),
        forall|j: int| 0 <= j < k ==> !spec_topic_owns(#[trigger] topics[j], change_id),
    ensures
        spec_find_topic(topics, change_id) == k,
    decreases k,
{
    if k > 0 {
        lemma_find_topic_at(topics.skip(1), change_id, k - 1);
    }
}

proof fn lemma_find_topic_none(topics: Seq<TopicView>, change_id: Seq<char>)
    requires
        forall|j: int| 0 <= j < topics.len() ==> !spec_topic_owns(#[trigger] topics[j], change_id),
    ensures
        spec_find_topic(topics, change_id) == -1,
    decreases topics.len(),
{
    if topics.len() > 0 {
        lemma_find_topic_none(topics.skip(1), change_id);
    }
}

/// Which topic a change belongs to, if any: the first whose change set
/// resolves the id, exactly or by unique prefix.
pub fn find_topic_for_change(topics: &Vec<Topic>, change_id: &str) -> (r: Option<String>)
    ensures
        ({
            let tv = topics@.map_values(|t: Topic| t@);
            let k = spec_find_topic(tv, change_id@);
            match r {
                Some(id) => 0 <= k < tv.len() && id@ == tv[k].id,
                None => k == -1,
            }
        }),
{
    let ghost tv = topics@.map_values(|t: Topic| t@);
    let mut i: usize = 0;
    while i < topics.len()
        invariant
            0 <= i <= topics@.len(),
            tv == topics@.map_values(|t: Topic| t@),
            forall|j: int| 0 <= j < i ==> !spec_topic_owns(#[trigger] tv[j], change_id@),
        decreases topics@.len() - i,
    {
        proof {
            assert(tv[i as int] == topics@[i as int]@);
        }
        if resolve_change_in_set(&topics[i].changes, change_id).is_some() {
            proof {
                lemma_find_topic_at(tv, change_id@, i as int);
            }
            return Some(topics[i].id.clone());
        }
        i += 1;
    }
    proof {
        lemma_find_topic_none(tv, change_id@);
    }
    None
}

impl Topic {
    /// Add change ids to the topic, skipping ones already present; the
    /// caller has checked against the other topics that none belongs
    /// elsewhere.
    pub fn add_changes(self, ids: &Vec<String>) -> (r: Topic)
        ensures
            r@.id == self@.id,
            r@.name == self@.name,
            r@.base == self@.base,
            r@.status == self@.status,
            r@.created_at == self@.created_at,
            forall|j: int| 0 <= j < self@.changes.len() ==> r@.changes.contains(#[trigger] self@.changes[j]),
            forall|j: int| 0 <= j < ids@.len() ==> r@.changes.contains((#[trigger] ids@[j])@),
            forall|j: int|
                0 <= j < r@.changes.len() ==> self@.changes.contains(#[trigger] r@.changes[j])
                    || ids@.map_values(|s: String| s@).contains(r@.changes[j]),
    {
        let mut me = self;
        let ghost s0 = me@;
        let mut i: usize = 0;
        while i < ids.len()
            invariant
                0 <= i <= ids@.len(),
                me@.id == s0.id,
                me@.name == s0.name,
                me@.base == s0.base,
                me@.status == s0.status,
                me@.created_at == s0.created_at,
                forall|j: int|
                    0 <= j < s0.changes.len() ==> me@.changes.contains(#[trigger] s0.changes[j]),
                forall|j: int| 0 <= j < i ==> me@.changes.contains((#[trigger] ids@[j])@),
                forall|j: int|
                    0 <= j < me@.changes.len() ==> s0.changes.contains(#[trigger] me@.changes[j])
                        || ids@.map_values(|s: String| s@).contains(me@.changes[j]),
            decreases ids@.len() - i,
        {
            let mut present: bool = false;
            let mut k: usize = 0;
            while k < me.changes.len()
                invariant
                    0 <= k <= me.changes@.len(),
                    i < ids@.len(),
                    present ==> me@.changes.contains(ids@[i as int]@),
                decreases me.changes@.len() - k, if present { 0int } else { 1int },
            {
                proof {
                    assert(me@.changes[k as int] == me.changes@[k as int]@);
                }
                if str_eq(me.changes[k].as_str(), ids[i].as_str()) {
                    present = true;
                }
                k += 1;
            }
            if !present {
                let ghost pre = me@.changes;
                me.changes.push(ids[i].clone());
                proof {
                    assert(me@.changes =~= pre.push(ids@[i as int]@));
                    assert(me@.changes.contains(ids@[i as int]@)) by {
                        assert(me@.changes[me@.changes.len() - 1] == ids@[i as int]@);
                    };
                    assert(forall|j: int|
                        0 <= j < pre.len() ==> me@.changes.contains(#[trigger] pre[j])) by {
                        assert(forall|j: int| 0 <= j < pre.len() ==> me@.changes[j] == pre[j]);
                    };
                    assert(ids@.map_values(|s: String| s@).contains(ids@[i as int]@)) by {
                        assert(ids@.map_values(|s: String| s@)[i as int] == ids@[i as int]@);
                    };
                }
            }
            i += 1;
        }
        me
    }

    /// Remove changes named by full id or unique prefix; an id that
    /// resolves to nothing is reported as not found.
    pub fn remove_changes(self, ids: &Vec<String>) -> (r: Result<Topic, StoreError>)
        ensures
            ({
                match r {
                    Ok(t) => t@.id == self@.id && t@.status == self@.status && forall|j: int|
                        0 <= j < t@.changes.len() ==> self@.changes.contains(
                            #[trigger] t@.changes[j],
                        ),
                    Err(e) => e == StoreError::NotFound,
                }
            }),
    {
        let mut me = self;
        let ghost s0 = me@;
        let mut i: usize = 0;
        while i < ids.len()
            invariant
                0 <= i <= ids@.len(),
                me@.id == s0.id,
                me@.status == s0.status,
                forall|j: int|
                    0 <= j < me@.changes.len() ==> s0.changes.contains(#[trigger] me@.changes[j]),
            decreases ids@.len() - i,
        {
            let full = match resolve_change_in_set(&me.changes, ids[i].as_str()) {
                Some(f) => f,
                None => {
                    return Err(StoreError::NotFound);
                },
            };
            let ghost pre = me@.changes;
            let mut kept: Vec<String> = Vec::new();
            let mut k: usize = 0;
            while k < me.changes.len()
                invariant
                    0 <= k <= me.changes@.len(),
                    pre == me@.changes,
                    forall|j: int|
                        0 <= j < kept@.len() ==> pre.contains(
                            (#[trigger] kept@[j])@,
                        ),
                decreases me.changes@.len() - k,
            {
                proof {
                    assert(me@.changes[k as int] == me.changes@[k as int]@);
                }
                if !str_eq(me.changes[k].as_str(), full.as_str()) {
                    let ghost prek = kept@;
                    kept.push(me.changes[k].clone());
                    proof {
                        assert(kept@[kept@.len() - 1]@ == pre[k as int]);
                        assert(forall|j: int| 0 <= j < prek.len() ==> kept@[j] == prek[j]);
                    }
                }
                k += 1;
            }
            me.changes = kept;
            proof {
                assert(forall|j: int|
                    0 <= j < me@.changes.len() ==> pre.contains(#[trigger] me@.changes[j])) by {
                    assert(forall|j: int| 0 <= j < me.changes@.len() ==> me@.changes[j]
                        == (#[trigger] me.changes@[j])@);
                };
            }
            i += 1;
        }
        Ok(me)
    }
}

// ---- slugs ----

/// The slug of a name: the Unicode lowercasing with every run of
/// non-alphanumeric characters collapsed to a single hyphen, none leading
/// or trailing. `started` records whether a character was emitted yet,
/// `pending` whether a separator is owed before the next one.
pub open spec fn spec_slug_core(s: Seq<char>, started: bool, pending: bool) -> Seq<char>
    decreases s.len(),
{
    if s.len() == 0 {
        Seq::empty()
    } else if alnum_of(s[0]) {
        (if started && pending {
            seq!['-', s[0]]
        } else {
            seq![s[0]]
        }) + spec_slug_core(s.skip(1), true, false)
    } else {
        spec_slug_core(s.skip(1), started, started)
    }
}

pub open spec fn spec_slugify(name: Seq<char>) -> Seq<char> {
    spec_slug_core(lower_of(name), false, false)
}

/// Generate a slug from a human-readable name: lowercase it and collapse
/// everything that is not alphanumeric into single hyphens.
pub fn slugify(name: &str) -> (r: String)
    ensures
        r@ == spec_slugify(name@),
{
    let lowered = to_lowercase(name);
    let ls = lowered.as_str();
    let n = ls.unicode_len();
    let mut acc = String::new();
    let mut started: bool = false;
    let mut pending: bool = false;
    let mut i: usize = 0;
    proof {
        assert(ls@.skip(0) =~= ls@);
        assert(acc@ + spec_slug_core(ls@, false, false) =~= spec_slug_core(ls@, false, false));
    }
    while i < n
        invariant
            0 <= i <= n,
            n == ls@.len(),
            ls@ == lower_of(name@),
            spec_slugify(name@) == acc@ + spec_slug_core(ls@.skip(i as int), started, pending),
            pending ==> started,
        decreases n - i,
    {
        proof {
            assert(ls@.skip(i as int)[0] == ls@[i as int]);
            assert(ls@.skip(i as int).skip(1) =~= ls@.skip(i as int + 1));
        }
        let ghost pre = acc@;
        let ghost pre_started = started;
        let ghost pre_pending = pending;
        let c = ls.get_char(i);
        if char_is_alphanumeric(c) {
            if started && pending {
                acc.append("-");
            }
            let piece = ls.substring_char(i, i + 1);
            proof {
                assert(piece@ =~= seq![ls@[i as int]]);
            }
            acc.append(piece);
            proof {
                if started && pending {
                    assert(acc@ =~= pre + seq!['-', ls@[i as int]]) by {
                        reveal_strlit("-");
                    };
                } else {
                    assert(acc@ =~= pre + seq![ls@[i as int]]);
                }
            }
            started = true;
            pending = false;
        } else {
            pending = started;
        }
        proof {
            assert(acc@ + spec_slug_core(ls@.skip(i as int + 1), started, pending) =~= pre
                + spec_slug_core(ls@.skip(i as int), pre_started, pre_pending));
        }
        i += 1;
    }
    proof {
        assert(ls@.skip(i as int) =~= Seq::<char>::empty());
        assert(acc@ =~= spec_slugify(name@));
    }
    acc
}

} // verus!

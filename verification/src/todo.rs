//! The todo tree: checkable items with ordered children, kept in one
//! document, with items mirroring the topics. Pure tree transformations;
//! the file lives with the caller.

use vstd::prelude::*;
use vstd::string::*;

use vstd::pervasive::VecAdditionalExecFns;

use crate::ids::fresh_id;
use crate::review::StoreError;
use crate::text::str_eq;
use crate::topic::{Topic, TopicStatus, TopicView};

verus! {

/// One item of the tree; `children` holds the ids of its sub-items in
/// order.
#[derive(Debug, Clone)]
pub struct TodoItem {
    pub id: String,
    pub text: String,
    pub checked: bool,
    pub children: Vec<String>,
    pub topic_id: Option<String>,
    pub created_at: String,
}

/// The whole document: the root items in order, and every item.
#[derive(Debug, Clone)]
pub struct TodoTree {
    pub root_ids: Vec<String>,
    pub items: Vec<TodoItem>,
}

impl Default for TodoTree {
    /// The empty tree.
    fn default() -> (r: TodoTree)
        ensures
            r.root_ids@.len() == 0,
            r.items@.len() == 0,
    {
        TodoTree { root_ids: Vec::new(), items: Vec::new() }
    }
}

/// The store of the todo document under one repository.
pub struct TodoStore {
    pub file_path: String,
}

impl TodoStore {
    pub fn new(repo_path: &str) -> (r: TodoStore)
        ensures
            r.file_path@ == repo_path@ + "/.aipair/todos.json"@,
    {
        let mut s = repo_path.to_owned();
        s.append("/.aipair/todos.json");
        TodoStore { file_path: s }
    }
}

#[verifier::ext_equal]
pub ghost struct TodoItemView {
    pub id: Seq<char>,
    pub text: Seq<char>,
    pub checked: bool,
    pub children: Seq<Seq<char>>,
    pub topic_id: Option<Seq<char>>,
    pub created_at: Seq<char>,
}

#[verifier::ext_equal]
pub ghost struct TodoTreeView {
    pub root_ids: Seq<Seq<char>>,
    pub items: Seq<TodoItemView>,
}

impl View for TodoItem {
    type V = TodoItemView;

    open spec fn view(&self) -> TodoItemView {
        TodoItemView {
            id: self.id@,
            text: self.text@,
            checked: self.checked,
            children: self.children@.map_values(|c: String| c@),
            topic_id: match self.topic_id {
                Some(t) => Some(t@),
                None => None,
            },
            created_at: self.created_at@,
        }
    }
}

impl View for TodoTree {
    type V = TodoTreeView;

    open spec fn view(&self) -> TodoTreeView {
        TodoTreeView {
            root_ids: self.root_ids@.map_values(|c: String| c@),
            items: self.items@.map_values(|i: TodoItem| i@),
        }
    }
}

// ---- finding items ----

/// Index of the item with this id, or -1.
pub open spec fn spec_find_item(items: Seq<TodoItemView>, id: Seq<char>) -> int
    decreases items.len(),
{
    if items.len() == 0 {
        -1
    } else if items[0].id == id {
        0
    } else {
        let r = spec_find_item(items.skip(1), id);
        if r < 0 {
            -1
        } else {
            r + 1
        }
    }
}

proof fn lemma_find_item_at(items: Seq<TodoItemView>, id: Seq<char>, k: int)
    requires
        0 <= k < items.len(),
        items[k].id == id,
        forall|j: int| 0 <= j < k ==> (#[trigger] items[j]).id != id,
    ensures
        spec_find_item(items, id) == k,
    decreases k,
{
    if k > 0 {
        lemma_find_item_at(items.skip(1), id, k - 1);
    }
}

proof fn lemma_find_item_none(items: Seq<TodoItemView>, id: Seq<char>)
    requires
        forall|j: int| 0 <= j < items.len() ==> (#[trigger] items[j]).id != id,
    ensures
        spec_find_item(items, id) == -1,
    decreases items.len(),
{
    if items.len() > 0 {
        lemma_find_item_none(items.skip(1), id);
    }
}

fn find_item_index(items: &Vec<TodoItem>, id: &str) -> (r: Option<usize>)
    ensures
        ({
            let iv = items@.map_values(|x: TodoItem| x@);
            match r {
                Some(i) => i < items@.len() && spec_find_item(iv, id@) == i as int,
                None => spec_find_item(iv, id@) == -1,
            }
        }),
{
    let ghost iv = items@.map_values(|x: TodoItem| x@);
    let mut i: usize = 0;
    while i < items.len()
        invariant
            0 <= i <= items@.len(),
            iv == items@.map_values(|x: TodoItem| x@),
            forall|j: int| 0 <= j < i ==> (#[trigger] iv[j]).id != id@,
        decreases items@.len() - i,
    {
        proof {
            assert(iv[i as int] == items@[i as int]@);
        }
        if str_eq(items[i].id.as_str(), id) {
            proof {
                lemma_find_item_at(iv, id@, i as int);
            }
            return Some(i);
        }
        i += 1;
    }
    proof {
        lemma_find_item_none(iv, id@);
    }
    None
}

// ---- sibling insertion ----

/// Index of this id in a sibling list, or -1.
pub open spec fn spec_find_id(ids: Seq<Seq<char>>, id: Seq<char>) -> int
    decreases ids.len(),
{
    if ids.len() == 0 {
        -1
    } else if ids[0] == id {
        0
    } else {
        let r = spec_find_id(ids.skip(1), id);
        if r < 0 {
            -1
        } else {
            r + 1
        }
    }
}

proof fn lemma_find_id_at(ids: Seq<Seq<char>>, id: Seq<char>, k: int)
    requires
        0 <= k < ids.len(),
        ids[k] == id,
        forall|j: int| 0 <= j < k ==> (#[trigger] ids[j]) != id,
    ensures
        spec_find_id(ids, id) == k,
    decreases k,
{
    if k > 0 {
        lemma_find_id_at(ids.skip(1), id, k - 1);
    }
}

proof fn lemma_find_id_none(ids: Seq<Seq<char>>, id: Seq<char>)
    requires
        forall|j: int| 0 <= j < ids.len() ==> (#[trigger] ids[j]) != id,
    ensures
        spec_find_id(ids, id) == -1,
    decreases ids.len(),
{
    if ids.len() > 0 {
        lemma_find_id_none(ids.skip(1), id);
    }
}

/// Where a new sibling lands: right after `after` when that id is present,
/// at the end when it is named but absent, and at the front when none is
/// named.
pub open spec fn spec_insert_sibling(
    siblings: Seq<Seq<char>>,
    after: Option<Seq<char>>,
    id: Seq<char>,
) -> Seq<Seq<char>> {
    match after {
        None => seq![id] + siblings,
        Some(a) => {
            let k = spec_find_id(siblings, a);
            if 0 <= k < siblings.len() {
                siblings.insert(k + 1, id)
            } else {
                siblings.push(id)
            }
        },
    }
}

fn insert_sibling(siblings: Vec<String>, after: Option<&str>, id: &str) -> (r: Vec<String>)
    ensures
        r@.map_values(|s: String| s@) == spec_insert_sibling(
            siblings@.map_values(|s: String| s@),
            match after {
                Some(a) => Some(a@),
                None => None,
            },
            id@,
        ),
{
    let ghost sv = siblings@.map_values(|s: String| s@);
    let mut v = siblings;
    match after {
        None => {
            v.insert(0, id.to_owned());
            proof {
                assert(v@.map_values(|s: String| s@) =~= seq![id@] + sv) by {
                    assert(v@.map_values(|s: String| s@) =~= sv.insert(0, id@));
                    assert(sv.insert(0, id@) =~= seq![id@] + sv);
                };
            }
            v
        },
        Some(a) => {
            let mut k: usize = 0;
            let mut found: bool = false;
            while k < v.len() && !found
                invariant
                    0 <= k <= v@.len(),
                    sv == v@.map_values(|s: String| s@),
                    forall|j: int| 0 <= j < k ==> (#[trigger] sv[j]) != a@,
                    found ==> k < v@.len() && sv[k as int] == a@,
                decreases v@.len() - k, if found { 0int } else { 1int },
            {
                proof {
                    assert(sv[k as int] == v@[k as int]@);
                }
                if str_eq(v[k].as_str(), a) {
                    found = true;
                } else {
                    k += 1;
                }
            }
            if found {
                proof {
                    lemma_find_id_at(sv, a@, k as int);
                }
                v.insert(k + 1, id.to_owned());
                proof {
                    assert(v@.map_values(|s: String| s@) =~= sv.insert(k as int + 1, id@));
                }
                v
            } else {
                proof {
                    lemma_find_id_none(sv, a@);
                }
                v.push(id.to_owned());
                proof {
                    assert(v@.map_values(|s: String| s@) =~= sv.push(id@));
                }
                v
            }
        },
    }
}

// ---- operations ----

impl TodoTree {
    /// Add an item under a fresh id: into the named parent's children or
    /// the roots, placed after the named sibling or at the front. An
    /// unknown parent is an error.
    pub fn add_item(
        self,
        text: &str,
        parent_id: Option<&str>,
        after_id: Option<&str>,
        now: &str,
    ) -> (r: Result<(TodoTree, String), StoreError>)
        ensures
            ({
                match r {
                    Ok((t, new_id)) => {
                        let iv = self@.items;
                        let fresh = TodoItemView {
                            id: new_id@,
                            text: text@,
                            checked: false,
                            children: Seq::empty(),
                            topic_id: None,
                            created_at: now@,
                        };
                        match parent_id {
                            None => t@.items == iv.push(fresh) && t@.root_ids
                                == spec_insert_sibling(self@.root_ids, match after_id {
                                Some(a) => Some(a@),
                                None => None,
                            }, new_id@),
                            Some(p) => ({
                                let k = spec_find_item(iv, p@);
                                &&& 0 <= k < iv.len()
                                &&& t@.root_ids == self@.root_ids
                                &&& t@.items.len() == iv.len() + 1
                                &&& t@.items.last() == fresh
                                &&& t@.items[k] == (TodoItemView {
                                    children: spec_insert_sibling(iv[k].children, match after_id {
                                        Some(a) => Some(a@),
                                        None => None,
                                    }, new_id@),
                                    ..iv[k]
                                })
                                &&& forall|j: int|
                                    0 <= j < iv.len() && j != k ==> t@.items[j] == iv[j]
                            }),
                        }
                    },
                    Err(e) => e == StoreError::NotFound && (parent_id matches Some(p)
                        && spec_find_item(self@.items, p@) == -1),
                }
            }),
    {
        let mut me = self;
        let ghost t0 = me@;
        let new_id = fresh_id();
        let item = TodoItem {
            id: new_id.clone(),
            text: text.to_owned(),
            checked: false,
            children: Vec::new(),
            topic_id: None,
            created_at: now.to_owned(),
        };
        let ghost fresh = item@;
        match parent_id {
            None => {
                me.items.push(item);
                let roots = insert_sibling(me.root_ids, after_id, new_id.as_str());
                me.root_ids = roots;
                proof {
                    assert(me@.items =~= t0.items.push(fresh));
                }
                Ok((me, new_id))
            },
            Some(p) => {
                let k = match find_item_index(&me.items, p) {
                    Some(k) => k,
                    None => {
                        return Err(StoreError::NotFound);
                    },
                };
                let ghost pre_exec = me.items@;
                let mut kids: Vec<String> = Vec::new();
                let parent = &mut me.items[k];
                core::mem::swap(&mut kids, &mut parent.children);
                proof {
                    assert(pre_exec[k as int]@ == t0.items[k as int]);
                    assert(kids@.map_values(|s: String| s@) == t0.items[k as int].children);
                }
                let kids2 = insert_sibling(kids, after_id, new_id.as_str());
                let parent2 = &mut me.items[k];
                parent2.children = kids2;
                me.items.push(item);
                proof {
                    assert(me@.items.last() =~= fresh);
                    assert(me@.items[k as int] =~= (TodoItemView {
                        children: spec_insert_sibling(
                            t0.items[k as int].children,
                            match after_id {
                                Some(a) => Some(a@),
                                None => None,
                            },
                            new_id@,
                        ),
                        ..t0.items[k as int]
                    }));
                    assert(forall|j: int|
                        0 <= j < t0.items.len() && j != k ==> me@.items[j] == t0.items[j]);
                    assert(me@.root_ids =~= t0.root_ids);
                }
                Ok((me, new_id))
            },
        }
    }

    /// Rewrite an item's text or checked flag; an unknown id is an error.
    pub fn update_item(self, id: &str, text: Option<String>, checked: Option<bool>) -> (r: Result<
        TodoTree,
        StoreError,
    >)
        ensures
            ({
                let iv = self@.items;
                let k = spec_find_item(iv, id@);
                match r {
                    Ok(t) => 0 <= k < iv.len() && t@.root_ids == self@.root_ids && t@.items.len()
                        == iv.len() && t@.items[k] == (TodoItemView {
                        text: match text {
                            Some(tx) => tx@,
                            None => iv[k].text,
                        },
                        checked: match checked {
                            Some(c) => c,
                            None => iv[k].checked,
                        },
                        ..iv[k]
                    }) && forall|j: int| 0 <= j < iv.len() && j != k ==> t@.items[j] == iv[j],
                    Err(e) => e == StoreError::NotFound && k == -1,
                }
            }),
    {
        let mut me = self;
        let ghost t0 = me@;
        let k = match find_item_index(&me.items, id) {
            Some(k) => k,
            None => {
                return Err(StoreError::NotFound);
            },
        };
        let ghost pre_exec = me.items@;
        let it = &mut me.items[k];
        match text {
            Some(tx) => {
                it.text = tx;
            },
            None => {},
        }
        match checked {
            Some(c) => {
                it.checked = c;
            },
            None => {},
        }
        proof {
            assert(pre_exec[k as int]@ == t0.items[k as int]);
            assert(me@.items[k as int] =~= (TodoItemView {
                text: match text {
                    Some(tx) => tx@,
                    None => t0.items[k as int].text,
                },
                checked: match checked {
                    Some(c) => c,
                    None => t0.items[k as int].checked,
                },
                ..t0.items[k as int]
            }));
            assert(forall|j: int| 0 <= j < t0.items.len() && j != k ==> me@.items[j] == t0.items[j]);
            assert(me@.root_ids =~= t0.root_ids);
        }
        Ok(me)
    }

    /// Flip an item's checked flag and report the new state.
    pub fn toggle_item(self, id: &str) -> (r: Result<(TodoTree, bool), StoreError>)
        ensures
            ({
                let iv = self@.items;
                let k = spec_find_item(iv, id@);
                match r {
                    Ok((t, now_checked)) => 0 <= k < iv.len() && now_checked == !iv[k].checked
                        && t@.root_ids == self@.root_ids && t@.items.len() == iv.len()
                        && t@.items[k] == (TodoItemView { checked: !iv[k].checked, ..iv[k] })
                        && forall|j: int| 0 <= j < iv.len() && j != k ==> t@.items[j] == iv[j],
                    Err(e) => e == StoreError::NotFound && k == -1,
                }
            }),
    {
        let mut me = self;
        let ghost t0 = me@;
        let k = match find_item_index(&me.items, id) {
            Some(k) => k,
            None => {
                return Err(StoreError::NotFound);
            },
        };
        let ghost pre_exec = me.items@;
        let was = me.items[k].checked;
        let it = &mut me.items[k];
        it.checked = !was;
        proof {
            assert(pre_exec[k as int]@ == t0.items[k as int]);
            assert(me@.items[k as int] =~= (TodoItemView {
                checked: !t0.items[k as int].checked,
                ..t0.items[k as int]
            }));
            assert(forall|j: int| 0 <= j < t0.items.len() && j != k ==> me@.items[j] == t0.items[j]);
            assert(me@.root_ids =~= t0.root_ids);
        }
        Ok((me, !was))
    }

    /// Every active topic has a mirror item carrying its name, checked
    /// exactly when the topic is finished; missing mirrors are created at
    /// the roots. Reports whether anything changed. Topic ids are unique,
    /// as the topic store's directory layout makes them.
    pub fn sync_topics(self, topics: &Vec<Topic>, now: &str) -> (r: (TodoTree, bool))
        requires
            forall|a: int, b: int|
                0 <= a < b < topics@.len() ==> (#[trigger] topics@[a])@.id != (
                #[trigger] topics@[b])@.id,
        ensures
            forall|j: int|
                0 <= j < topics@.len() ==> topic_mirrored(r.0@.items, (#[trigger] topics@[j])@),
    {
        let mut me = self;
        let mut changed: bool = false;
        let ghost tv = topics@.map_values(|t: Topic| t@);
        let mut j: usize = 0;
        while j < topics.len()
            invariant
                0 <= j <= topics@.len(),
                tv == topics@.map_values(|t: Topic| t@),
                forall|a: int, b: int| 0 <= a < b < tv.len() ==> (#[trigger] tv[a]).id != (
                #[trigger] tv[b]).id,
                forall|m: int| 0 <= m < j ==> topic_mirrored(me@.items, #[trigger] tv[m]),
            decreases topics@.len() - j,
        {
            proof {
                assert(tv[j as int] == topics@[j as int]@);
            }
            let topic_id_s = topics[j].id.clone();
            let topic_name = topics[j].name.clone();
            let is_finished = matches!(topics[j].status, TopicStatus::Finished);
            proof {
                assert(topic_id_s@ == tv[j as int].id);
                assert(topic_name@ == tv[j as int].name);
                assert(is_finished == (tv[j as int].status == TopicStatus::Finished));
            }

            // Find the mirror item of this topic.
            let mut found: bool = false;
            let mut k: usize = 0;
            while k < me.items.len() && !found
                invariant
                    0 <= k <= me.items@.len(),
                    found ==> k < me.items@.len() && me@.items[k as int].topic_id == Some(
                        topic_id_s@,
                    ),
                decreases me.items@.len() - k, if found { 0int } else { 1int },
            {
                proof {
                    assert(me@.items[k as int] == me.items@[k as int]@);
                }
                let matches_topic: bool = match &me.items[k].topic_id {
                    Some(t) => str_eq(t.as_str(), topic_id_s.as_str()),
                    None => false,
                };
                if matches_topic {
                    found = true;
                } else {
                    k += 1;
                }
            }
            let ghost pre_items = me@.items;
            if found {
                let it = &mut me.items[k];
                let same_checked = it.checked == is_finished;
                if !same_checked {
                    it.checked = is_finished;
                    changed = true;
                }
                let same_text = str_eq(it.text.as_str(), topic_name.as_str());
                if !same_text {
                    it.text = topic_name.clone();
                    changed = true;
                }
                proof {
                    assert(me@.items.len() == pre_items.len());
                    assert(me@.items[k as int].topic_id == Some(tv[j as int].id));
                    assert(me@.items[k as int].text == tv[j as int].name);
                    assert(me@.items[k as int].checked == (tv[j as int].status
                        == TopicStatus::Finished));
                    assert(topic_mirrored(me@.items, tv[j as int]));
                    assert(forall|m: int|
                        0 <= m < me@.items.len() && m != k ==> (#[trigger] me@.items[m])
                            == pre_items[m]);
                    assert forall|m: int| 0 <= m < j implies topic_mirrored(
                        me@.items,
                        #[trigger] tv[m],
                    ) by {
                        let km = choose|k2: int|
                            0 <= k2 < pre_items.len() && (#[trigger] pre_items[k2]).topic_id
                                == Some(tv[m].id) && pre_items[k2].text == tv[m].name
                                && pre_items[k2].checked == (tv[m].status
                                == TopicStatus::Finished);
                        assert(tv[m].id != tv[j as int].id);
                        assert(pre_items[k as int].topic_id == Some(tv[j as int].id));
                        assert(km != k);
                        assert(me@.items[km] == pre_items[km]);
                    };
                }
            } else {
                let new_id = fresh_id();
                let item = TodoItem {
                    id: new_id.clone(),
                    text: topic_name.clone(),
                    checked: is_finished,
                    children: Vec::new(),
                    topic_id: Some(topic_id_s.clone()),
                    created_at: now.to_owned(),
                };
                me.items.push(item);
                me.root_ids.push(new_id);
                changed = true;
                proof {
                    let last = me@.items.len() - 1;
                    assert(me@.items[last].topic_id == Some(tv[j as int].id));
                    assert(me@.items[last].text == tv[j as int].name);
                    assert(me@.items[last].checked == (tv[j as int].status
                        == TopicStatus::Finished));
                    assert(topic_mirrored(me@.items, tv[j as int]));
                    assert(forall|m: int|
                        0 <= m < pre_items.len() ==> (#[trigger] me@.items[m]) == pre_items[m]);
                    assert forall|m: int| 0 <= m < j implies topic_mirrored(
                        me@.items,
                        #[trigger] tv[m],
                    ) by {
                        let km = choose|k2: int|
                            0 <= k2 < pre_items.len() && (#[trigger] pre_items[k2]).topic_id
                                == Some(tv[m].id) && pre_items[k2].text == tv[m].name
                                && pre_items[k2].checked == (tv[m].status
                                == TopicStatus::Finished);
                        assert(me@.items[km] == pre_items[km]);
                    };
                }
            }
            j += 1;
        }
        proof {
            assert forall|m: int| 0 <= m < topics@.len() implies topic_mirrored(
                me@.items,
                (#[trigger] topics@[m])@,
            ) by {
                assert(tv[m] == topics@[m]@);
                assert(topic_mirrored(me@.items, tv[m]));
            };
        }
        (me, changed)
    }
}

// ---- removing an id from sibling lists ----

/// The sibling list with every occurrence of one id dropped.
pub open spec fn spec_keep_ids(ids: Seq<Seq<char>>, id: Seq<char>) -> Seq<Seq<char>>
    decreases ids.len(),
{
    if ids.len() == 0 {
        Seq::empty()
    } else {
        (if ids[0] != id {
            seq![ids[0]]
        } else {
            Seq::empty()
        }) + spec_keep_ids(ids.skip(1), id)
    }
}

fn keep_ids(ids: Vec<String>, id: &str) -> (r: Vec<String>)
    ensures
        r@.map_values(|s: String| s@) == spec_keep_ids(ids@.map_values(|s: String| s@), id@),
{
    let ghost iv = ids@.map_values(|s: String| s@);
    let mut rest = ids;
    let mut out: Vec<String> = Vec::new();
    let ghost done: int = 0;
    proof {
        assert(iv.skip(0) =~= iv);
        assert(out@.map_values(|s: String| s@) + spec_keep_ids(iv, id@) =~= spec_keep_ids(iv, id@));
    }
    while rest.len() > 0
        invariant
            iv.len() >= done >= 0,
            rest@.len() == iv.len() - done,
            forall|j: int| 0 <= j < rest@.len() ==> (#[trigger] rest@[j])@ == iv[done + j],
            spec_keep_ids(iv, id@) == out@.map_values(|s: String| s@) + spec_keep_ids(
                iv.skip(done),
                id@,
            ),
        decreases rest@.len(),
    {
        proof {
            assert(iv.skip(done)[0] == iv[done]);
            assert(iv.skip(done).skip(1) =~= iv.skip(done + 1));
        }
        let ghost pre = out@;
        let x = rest.remove(0);
        proof {
            assert(x@ == iv[done]);
        }
        if !str_eq(x.as_str(), id) {
            out.push(x);
            proof {
                assert(out@.map_values(|s: String| s@) =~= pre.map_values(|s: String| s@)
                    + seq![iv[done]]);
            }
        }
        proof {
            assert(out@.map_values(|s: String| s@) + spec_keep_ids(iv.skip(done + 1), id@)
                =~= pre.map_values(|s: String| s@) + spec_keep_ids(iv.skip(done), id@));
        }
        proof {
            done = done + 1;
        }
    }
    proof {
        assert(iv.skip(done) =~= Seq::<Seq<char>>::empty());
        assert(out@.map_values(|s: String| s@) =~= spec_keep_ids(iv, id@));
    }
    out
}

impl TodoTree {
    /// Detach an item from wherever it sits and re-attach it under the
    /// named parent (or the roots), after the named sibling or at the
    /// front. Unknown item or target parent is an error.
    pub fn move_item(self, id: &str, new_parent_id: Option<&str>, after_id: Option<&str>) -> (r:
        Result<TodoTree, StoreError>)
        ensures
            ({
                match r {
                    Ok(t) => {
                        &&& spec_find_item(self@.items, id@) >= 0
                        &&& t@.items.len() == self@.items.len()
                        &&& match new_parent_id {
                            None => t@.root_ids == spec_insert_sibling(
                                spec_keep_ids(self@.root_ids, id@),
                                match after_id {
                                    Some(a) => Some(a@),
                                    None => None,
                                },
                                id@,
                            ),
                            Some(_) => t@.root_ids == spec_keep_ids(self@.root_ids, id@),
                        }
                    },
                    Err(e) => e == StoreError::NotFound,
                }
            }),
    {
        let mut me = self;
        let ghost t0 = me@;
        if find_item_index(&me.items, id).is_none() {
            return Err(StoreError::NotFound);
        }

        // Detach: from the roots, and from every other item's children.
        let roots = keep_ids(me.root_ids, id);
        me.root_ids = roots;
        let n = me.items.len();
        let mut k: usize = 0;
        while k < n
            invariant
                0 <= k <= n,
                n == me.items@.len(),
                me@.items.len() == t0.items.len(),
                me@.root_ids == spec_keep_ids(t0.root_ids, id@),
            decreases n - k,
        {
            let is_self = str_eq(me.items[k].id.as_str(), id);
            if !is_self {
                let mut kids: Vec<String> = Vec::new();
                let it = &mut me.items[k];
                core::mem::swap(&mut kids, &mut it.children);
                let kids2 = keep_ids(kids, id);
                let it2 = &mut me.items[k];
                it2.children = kids2;
            }
            k += 1;
        }

        // Re-attach.
        match new_parent_id {
            None => {
                let roots2 = insert_sibling(me.root_ids, after_id, id);
                me.root_ids = roots2;
                Ok(me)
            },
            Some(p) => {
                let pk = match find_item_index(&me.items, p) {
                    Some(pk) => pk,
                    None => {
                        return Err(StoreError::NotFound);
                    },
                };
                let mut kids: Vec<String> = Vec::new();
                let parent = &mut me.items[pk];
                core::mem::swap(&mut kids, &mut parent.children);
                let kids2 = insert_sibling(kids, after_id, id);
                let parent2 = &mut me.items[pk];
                parent2.children = kids2;
                Ok(me)
            },
        }
    }

    /// Delete an item and its descendants: the id leaves the roots and
    /// every kept item's children, and every item marked by the descendant
    /// walk leaves the tree. Returns the tree and the ids that were
    /// removed, the named one first.
    pub fn delete_item(self, id: &str) -> (r: (TodoTree, Vec<String>))
        ensures
            r.0@.root_ids == spec_keep_ids(self@.root_ids, id@),
            r.1@.len() >= 1 && r.1@[0]@ == id@,
            forall|j: int| 0 <= j < r.0@.items.len() ==> (#[trigger] r.0@.items[j]).id != id@,
            forall|j: int|
                0 <= j < r.0@.items.len() ==> item_cleaned_from(
                    self@.items,
                    #[trigger] r.0@.items[j],
                    id@,
                ),
    {
        let mut me = self;
        let ghost t0 = me@;
        let n = me.items.len();

        // Walk the descendants: indices of items to drop, each visited
        // once; the walk is cut off at a bound it cannot in fact reach.
        let mut visited: Vec<bool> = Vec::new();
        let mut v: usize = 0;
        while v < n
            invariant
                visited@.len() == v,
                0 <= v <= n,
                forall|j: int| 0 <= j < v ==> !(#[trigger] visited@[j]),
            decreases n - v,
        {
            visited.push(false);
            v += 1;
        }
        let mut removed: Vec<String> = Vec::new();
        removed.push(id.to_owned());
        let mut work: Vec<usize> = Vec::new();
        match find_item_index(&me.items, id) {
            Some(k0) => {
                work.push(k0);
                if k0 < visited.len() {
                    visited.set(k0, true);
                }
            },
            None => {},
        }
        let mut wi: usize = 0;
        while wi < work.len() && wi <= n
            invariant
                n == me.items@.len(),
                visited@.len() == n,
                forall|j: int| 0 <= j < work@.len() ==> (#[trigger] work@[j]) < n,
                removed@.len() >= 1 && removed@[0]@ == id@,
            decreases n + 1 - wi,
        {
            let k = work[wi];
            let nc = me.items[k].children.len();
            let mut c: usize = 0;
            while c < nc
                invariant
                    n == me.items@.len(),
                    visited@.len() == n,
                    k < n,
                    nc == me.items@[k as int].children@.len(),
                    0 <= c <= nc,
                    forall|j: int| 0 <= j < work@.len() ==> (#[trigger] work@[j]) < n,
                    removed@.len() >= 1 && removed@[0]@ == id@,
                decreases nc - c,
            {
                let child_id = me.items[k].children[c].clone();
                match find_item_index(&me.items, child_id.as_str()) {
                    Some(j) => {
                        if !visited[j] {
                            visited.set(j, true);
                            let ghost pre_work = work@;
                            work.push(j);
                            let cid = me.items[j].id.clone();
                            let ghost pre_removed = removed@;
                            removed.push(cid);
                            proof {
                                assert(work@[work@.len() - 1] == j);
                            }
                        }
                    },
                    None => {},
                }
                c += 1;
            }
            wi += 1;
        }

        // Drop the marked items; clean the survivors' children.
        let mut kept: Vec<TodoItem> = Vec::new();
        let mut i: usize = 0;
        while i < n
            invariant
                n == me.items@.len(),
                visited@.len() == n,
                0 <= i <= n,
                forall|j: int| 0 <= j < kept@.len() ==> (#[trigger] kept@[j])@.id != id@,
                forall|j: int|
                    0 <= j < kept@.len() ==> item_cleaned_from(t0.items, (#[trigger] kept@[j])@, id@),
                me@.items == t0.items,
            decreases n - i,
        {
            let drop_it = visited[i] || str_eq(me.items[i].id.as_str(), id);
            if !drop_it {
                proof {
                    assert(me.items@[i as int]@ == t0.items[i as int]);
                }
                let it = &me.items[i];
                let item2 = TodoItem {
                    id: it.id.clone(),
                    text: it.text.clone(),
                    checked: it.checked,
                    children: keep_ids(it.children.clone(), id),
                    topic_id: match &it.topic_id {
                        Some(t) => Some(t.clone()),
                        None => None,
                    },
                    created_at: it.created_at.clone(),
                };
                let ghost pre_kept = kept@;
                kept.push(item2);
                proof {
                    assert(forall|j: int| 0 <= j < pre_kept.len() ==> kept@[j] == pre_kept[j]);
                    assert(kept@[kept@.len() - 1]@ =~= (TodoItemView {
                        children: spec_keep_ids(t0.items[i as int].children, id@),
                        ..t0.items[i as int]
                    }));
                    assert(item_cleaned_from(t0.items, kept@[kept@.len() - 1]@, id@));
                }
            }
            i += 1;
        }
        let roots = keep_ids(me.root_ids, id);
        me.root_ids = roots;
        me.items = kept;
        (me, removed)
    }
}

/// The item comes from the given list, with one id dropped from its
/// children.
pub open spec fn item_cleaned_from(
    items: Seq<TodoItemView>,
    it: TodoItemView,
    id: Seq<char>,
) -> bool {
    exists|k: int|
        0 <= k < items.len() && it == (TodoItemView {
            children: spec_keep_ids((#[trigger] items[k]).children, id),
            ..items[k]
        })
}

/// Some item mirrors the topic: it carries the topic's id, name, and the
/// checked flag of a finished topic.
pub open spec fn topic_mirrored(items: Seq<TodoItemView>, t: TopicView) -> bool {
    exists|k: int|
        0 <= k < items.len() && (#[trigger] items[k]).topic_id == Some(t.id) && items[k].text
            == t.name && items[k].checked == (t.status == TopicStatus::Finished)
}


} // verus!

//! The tag directory: at most one group per (chat, name), written by upsert.

use vstd::prelude::*;
use crate::args::views;
use crate::tag::{group_views, lemma_normalized_wf, members_wf, normalize_members, normalized, TagGroup, TagGroupView};

verus! {

/// Whether the add command created a group or replaced one.
#[derive(Debug, Clone, Copy, PartialEq, Eq, Structural)]
pub enum UpsertOutcome {
    Created,
    Updated,
}

/// Whether the delete command found the group.
#[derive(Debug, Clone, Copy, PartialEq, Eq, Structural)]
pub enum DeleteOutcome {
    Deleted,
    NotFound,
}

impl UpsertOutcome {
    /// The outcome of a store's upsert that matched `matched` records.
    pub fn from_matched(matched: u64) -> (r: UpsertOutcome)
        ensures
            (r == UpsertOutcome::Created) == (matched == 0),
    {
        if matched == 0 {
            UpsertOutcome::Created
        } else {
            UpsertOutcome::Updated
        }
    }
}

impl DeleteOutcome {
    /// The outcome of a store's delete that removed `deleted` records.
    pub fn from_deleted(deleted: u64) -> (r: DeleteOutcome)
        ensures
            (r == DeleteOutcome::Deleted) == (deleted > 0),
    {
        if deleted > 0 {
            DeleteOutcome::Deleted
        } else {
            DeleteOutcome::NotFound
        }
    }
}

pub open spec fn at_key(t: TagGroupView, chat: i64, group: Seq<char>) -> bool {
    t.chat_id == chat && t.group == group
}

pub open spec fn has_key(s: Seq<TagGroupView>, chat: i64, group: Seq<char>) -> bool {
    exists|i: int| 0 <= i < s.len() && at_key(#[trigger] s[i], chat, group)
}

pub open spec fn key_index(s: Seq<TagGroupView>, chat: i64, group: Seq<char>) -> int {
    choose|i: int| 0 <= i < s.len() && at_key(#[trigger] s[i], chat, group)
}

/// No two records share a (chat, name) key.
pub open spec fn keys_unique(s: Seq<TagGroupView>) -> bool {
    forall|i: int, j: int|
        0 <= i < s.len() && 0 <= j < s.len() && #[trigger] at_key(s[i], s[j].chat_id, s[j].group)
            ==> i == j
}

pub open spec fn directory_wf(s: Seq<TagGroupView>) -> bool {
    &&& keys_unique(s)
    &&& forall|i: int| 0 <= i < s.len() ==> members_wf(#[trigger] s[i].members)
}

/// The record that an add command writes.
pub open spec fn record(chat: i64, group: Seq<char>, emoji: Seq<char>, members: Seq<Seq<char>>) -> TagGroupView {
    TagGroupView { chat_id: chat, group, emoji, members: normalized(members) }
}

/// `s` after an upsert of `rec`: the record with its key replaced in place,
/// or `rec` added at the end.
pub open spec fn upserted(s: Seq<TagGroupView>, rec: TagGroupView) -> Seq<TagGroupView> {
    if has_key(s, rec.chat_id, rec.group) {
        s.update(key_index(s, rec.chat_id, rec.group), rec)
    } else {
        s.push(rec)
    }
}

/// `s` without the record of the given key.
pub open spec fn removed(s: Seq<TagGroupView>, chat: i64, group: Seq<char>) -> Seq<TagGroupView> {
    if has_key(s, chat, group) {
        s.remove(key_index(s, chat, group))
    } else {
        s
    }
}

/// The records of one chat, in stored order.
pub open spec fn in_chat(s: Seq<TagGroupView>, chat: i64) -> Seq<TagGroupView>
    decreases s.len(),
{
    if s.len() == 0 {
        seq![]
    } else if s.last().chat_id == chat {
        in_chat(s.drop_last(), chat).push(s.last())
    } else {
        in_chat(s.drop_last(), chat)
    }
}

/// The records of one chat whose names are among `names`, in stored order.
pub open spec fn named_in_chat(s: Seq<TagGroupView>, chat: i64, names: Seq<Seq<char>>) -> Seq<TagGroupView>
    decreases s.len(),
{
    if s.len() == 0 {
        seq![]
    } else if s.last().chat_id == chat && names.contains(s.last().group) {
        named_in_chat(s.drop_last(), chat, names).push(s.last())
    } else {
        named_in_chat(s.drop_last(), chat, names)
    }
}

/// An upsert keeps the directory well formed and leaves `rec` as the one
/// record of its key.
pub proof fn lemma_upserted(s: Seq<TagGroupView>, rec: TagGroupView)
    requires
        directory_wf(s),
        members_wf(rec.members),
    ensures
        directory_wf(upserted(s, rec)),
        has_key(upserted(s, rec), rec.chat_id, rec.group),
        forall|i: int|
            0 <= i < upserted(s, rec).len() && at_key(#[trigger] upserted(s, rec)[i], rec.chat_id, rec.group)
                ==> upserted(s, rec)[i] == rec,
{
    let t = upserted(s, rec);
    if has_key(s, rec.chat_id, rec.group) {
        let k = key_index(s, rec.chat_id, rec.group);
        assert(at_key(t[k], rec.chat_id, rec.group));
        assert forall|i: int, j: int|
            0 <= i < t.len() && 0 <= j < t.len() && #[trigger] at_key(t[i], t[j].chat_id, t[j].group)
                implies i == j by {
            if i != k && j != k {
                assert(at_key(s[i], s[j].chat_id, s[j].group));
            } else if i == k && j != k {
                assert(at_key(s[j], s[k].chat_id, s[k].group));
            } else if i != k && j == k {
                assert(at_key(s[i], s[k].chat_id, s[k].group));
            }
        }
        assert forall|i: int|
            0 <= i < t.len() && at_key(#[trigger] t[i], rec.chat_id, rec.group) implies t[i] == rec by {
            if i != k {
                assert(at_key(s[i], s[k].chat_id, s[k].group));
            }
        }
    } else {
        let n = s.len() as int;
        assert(at_key(t[n], rec.chat_id, rec.group));
        assert forall|i: int, j: int|
            0 <= i < t.len() && 0 <= j < t.len() && #[trigger] at_key(t[i], t[j].chat_id, t[j].group)
                implies i == j by {
            if i != n && j != n {
                assert(at_key(s[i], s[j].chat_id, s[j].group));
            } else if i == n && j != n {
                assert(at_key(s[j], rec.chat_id, rec.group));
            } else if i != n && j == n {
                assert(at_key(s[i], rec.chat_id, rec.group));
            }
        }
        assert forall|i: int|
            0 <= i < t.len() && at_key(#[trigger] t[i], rec.chat_id, rec.group) implies t[i] == rec by {
            if i != n {
                assert(at_key(s[i], rec.chat_id, rec.group));
            }
        }
    }
}

/// Two adds of one (chat, name) leave exactly one record of that key, and
/// it holds the second add's marker and members whole, with nothing of the
/// first merged in.
pub proof fn lemma_upsert_twice_one_record(
    s: Seq<TagGroupView>,
    chat: i64,
    group: Seq<char>,
    emoji1: Seq<char>,
    members1: Seq<Seq<char>>,
    emoji2: Seq<char>,
    members2: Seq<Seq<char>>,
)
    requires
        directory_wf(s),
    ensures
        ({
            let t = upserted(upserted(s, record(chat, group, emoji1, members1)), record(chat, group, emoji2, members2));
            &&& directory_wf(t)
            &&& has_key(t, chat, group)
            &&& forall|i: int| 0 <= i < t.len() && at_key(#[trigger] t[i], chat, group)
                ==> t[i].emoji == emoji2 && t[i].members == normalized(members2)
        }),
{
    lemma_normalized_wf(members1);
    lemma_normalized_wf(members2);
    let a = record(chat, group, emoji1, members1);
    let b = record(chat, group, emoji2, members2);
    lemma_upserted(s, a);
    lemma_upserted(upserted(s, a), b);
}

proof fn lemma_in_chat_contains(s: Seq<TagGroupView>, chat: i64, i: int)
    requires
        0 <= i < s.len(),
        s[i].chat_id == chat,
    ensures
        in_chat(s, chat).contains(s[i]),
    decreases s.len(),
{
    let l = in_chat(s, chat);
    if i == s.len() - 1 {
        assert(l[l.len() - 1] == s[i]);
    } else {
        lemma_in_chat_contains(s.drop_last(), chat, i);
        let p = in_chat(s.drop_last(), chat);
        let k = choose|k: int| 0 <= k < p.len() && p[k] == s[i];
        assert(l[k] == s[i]);
    }
}

/// After an add, listing the chat shows the group with the members as
/// given, each stripped of its leading `@`, empty ones and repeats left out.
pub proof fn lemma_add_then_list(
    s: Seq<TagGroupView>,
    chat: i64,
    group: Seq<char>,
    emoji: Seq<char>,
    members: Seq<Seq<char>>,
)
    requires
        directory_wf(s),
    ensures
        in_chat(upserted(s, record(chat, group, emoji, members)), chat).contains(
            record(chat, group, emoji, members),
        ),
        members_wf(normalized(members)),
{
    let rec = record(chat, group, emoji, members);
    lemma_normalized_wf(members);
    lemma_upserted(s, rec);
    let t = upserted(s, rec);
    let k = choose|k: int| 0 <= k < t.len() && at_key(#[trigger] t[k], chat, group);
    assert(t[k] == rec);
    lemma_in_chat_contains(t, chat, k);
}

/// The groups of all chats, at most one per (chat, name).
pub struct TagDirectory {
    groups: Vec<TagGroup>,
}

impl View for TagDirectory {
    type V = Seq<TagGroupView>;

    closed spec fn view(&self) -> Seq<TagGroupView> {
        group_views(self.groups@)
    }
}

impl TagDirectory {
    pub open spec fn wf(&self) -> bool {
        directory_wf(self@)
    }

    /// A directory with no groups.
    pub fn new() -> (r: TagDirectory)
        ensures
            r@ == Seq::<TagGroupView>::empty(),
            r.wf(),
    {
        let r = TagDirectory { groups: Vec::new() };
        assert(r@ =~= Seq::<TagGroupView>::empty());
        r
    }

    /// The index of the record with the given key.
    fn find_index(&self, chat_id: i64, group: &String) -> (r: Option<usize>)
        requires
            self.wf(),
        ensures
            match r {
                Some(i) => has_key(self@, chat_id, group@) && i == key_index(self@, chat_id, group@),
                None => !has_key(self@, chat_id, group@),
            },
    {
        let mut i: usize = 0;
        while i < self.groups.len()
            invariant
                i <= self@.len(),
                self.wf(),
                self@.len() == self.groups@.len(),
                self@ == group_views(self.groups@),
                forall|j: int| 0 <= j < i ==> !at_key(#[trigger] self@[j], chat_id, group@),
            decreases self.groups@.len() - i,
        {
            if self.groups[i].chat_id == chat_id && self.groups[i].group == *group {
                assert(at_key(self@[i as int], chat_id, group@));
                assert(has_key(self@, chat_id, group@));
                let ghost k = key_index(self@, chat_id, group@);
                assert(at_key(self@[k], chat_id, group@));
                assert(at_key(self@[i as int], self@[k].chat_id, self@[k].group));
                return Some(i);
            }
            i = i + 1;
        }
        None
    }

    /// Writes the group under its (chat, name) key: a record of that key is
    /// replaced whole, in place; otherwise the group is added at the end.
    /// Members are stored stripped of `@`, without empty ones or repeats.
    pub fn upsert(&mut self, chat_id: i64, group: String, emoji: String, members: &Vec<String>) -> (r: UpsertOutcome)
        requires
            old(self).wf(),
        ensures
            final(self).wf(),
            final(self)@ == upserted(old(self)@, record(chat_id, group@, emoji@, views(members@))),
            (r == UpsertOutcome::Created) == !has_key(old(self)@, chat_id, group@),
            has_key(final(self)@, chat_id, group@),
    {
        let ghost rec = record(chat_id, group@, emoji@, views(members@));
        let stored = normalize_members(members);
        let found = self.find_index(chat_id, &group);
        let g = TagGroup { chat_id, group, emoji, members: stored };
        assert(g@ == rec);
        proof {
            lemma_upserted(self@, rec);
        }
        match found {
            Some(i) => {
                self.groups.set(i, g);
                assert(self@ =~= upserted(old(self)@, rec));
                UpsertOutcome::Updated
            },
            None => {
                self.groups.push(g);
                assert(self@ =~= upserted(old(self)@, rec));
                UpsertOutcome::Created
            },
        }
    }

    /// Removes the record of the given key, if there is one.
    pub fn delete(&mut self, chat_id: i64, group: &String) -> (r: DeleteOutcome)
        requires
            old(self).wf(),
        ensures
            final(self).wf(),
            final(self)@ == removed(old(self)@, chat_id, group@),
            (r == DeleteOutcome::Deleted) == has_key(old(self)@, chat_id, group@),
            !has_key(final(self)@, chat_id, group@),
    {
        match self.find_index(chat_id, group) {
            Some(i) => {
                let _ = self.groups.remove(i);
                let ghost s = old(self)@;
                let ghost t = self@;
                assert(t =~= s.remove(i as int));
                assert forall|a: int, b: int|
                    0 <= a < t.len() && 0 <= b < t.len() && #[trigger] at_key(t[a], t[b].chat_id, t[b].group)
                        implies a == b by {
                    let a1 = if a < i { a } else { a + 1 };
                    let b1 = if b < i { b } else { b + 1 };
                    assert(at_key(s[a1], s[b1].chat_id, s[b1].group));
                }
                assert forall|a: int| 0 <= a < t.len() implies members_wf(#[trigger] t[a].members) by {
                    let a1 = if a < i { a } else { a + 1 };
                    assert(t[a] == s[a1]);
                }
                assert forall|a: int| 0 <= a < t.len() implies !at_key(#[trigger] t[a], chat_id, group@) by {
                    let a1 = if a < i { a } else { a + 1 };
                    assert(t[a] == s[a1]);
                    if at_key(s[a1], chat_id, group@) {
                        assert(at_key(s[a1], s[i as int].chat_id, s[i as int].group));
                    }
                }
                DeleteOutcome::Deleted
            },
            None => DeleteOutcome::NotFound,
        }
    }

    /// The groups of one chat, in stored order.
    pub fn list(&self, chat_id: i64) -> (r: Vec<TagGroup>)
        ensures
            group_views(r@) == in_chat(self@, chat_id),
    {
        let mut out: Vec<TagGroup> = Vec::new();
        let mut i: usize = 0;
        while i < self.groups.len()
            invariant
                i <= self.groups@.len(),
                self@ == group_views(self.groups@),
                group_views(out@) == in_chat(self@.take(i as int), chat_id),
            decreases self.groups@.len() - i,
        {
            assert(self@.take(i as int + 1).drop_last() =~= self@.take(i as int));
            if self.groups[i].chat_id == chat_id {
                let g = self.groups[i].duplicate();
                let ghost before = out@;
                out.push(g);
                assert(group_views(out@) =~= group_views(before).push(g@));
            }
            i = i + 1;
        }
        assert(self@.take(i as int) =~= self@);
        out
    }

    /// The groups of one chat whose names are among `names`, in stored
    /// order; names without a group are passed over.
    pub fn find_by_groups(&self, chat_id: i64, names: &Vec<String>) -> (r: Vec<TagGroup>)
        ensures
            group_views(r@) == named_in_chat(self@, chat_id, views(names@)),
    {
        let mut out: Vec<TagGroup> = Vec::new();
        let mut i: usize = 0;
        while i < self.groups.len()
            invariant
                i <= self.groups@.len(),
                self@ == group_views(self.groups@),
                group_views(out@) == named_in_chat(self@.take(i as int), chat_id, views(names@)),
            decreases self.groups@.len() - i,
        {
            assert(self@.take(i as int + 1).drop_last() =~= self@.take(i as int));
            if self.groups[i].chat_id == chat_id && crate::tag::contains_string(names, &self.groups[i].group) {
                let g = self.groups[i].duplicate();
                let ghost before = out@;
                out.push(g);
                assert(group_views(out@) =~= group_views(before).push(g@));
            }
            i = i + 1;
        }
        assert(self@.take(i as int) =~= self@);
        out
    }
}

} // verus!

//! Tag groups and the chat-scoped directory that holds them.

use vstd::prelude::*;
use crate::args::views;

verus! {

/// A named group of members in one chat, with the marker that its
/// notifications carry. `group` holds its leading `#`.
pub struct TagGroup {
    pub chat_id: i64,
    pub group: String,
    pub emoji: String,
    pub members: Vec<String>,
}

pub struct TagGroupView {
    pub chat_id: i64,
    pub group: Seq<char>,
    pub emoji: Seq<char>,
    pub members: Seq<Seq<char>>,
}

impl View for TagGroup {
    type V = TagGroupView;

    open spec fn view(&self) -> TagGroupView {
        TagGroupView {
            chat_id: self.chat_id,
            group: self.group@,
            emoji: self.emoji@,
            members: views(self.members@),
        }
    }
}

pub open spec fn group_views(v: Seq<TagGroup>) -> Seq<TagGroupView> {
    v.map_values(|g: TagGroup| g@)
}

/// A handle without its leading `@` characters.
pub open spec fn stripped(s: Seq<char>) -> Seq<char>
    decreases s.len(),
{
    if s.len() > 0 && s[0] == '@' {
        stripped(s.drop_first())
    } else {
        s
    }
}

/// The members as stored: each stripped of its leading `@`, empty ones left
/// out, each kept at its first occurrence only.
pub open spec fn normalized(ms: Seq<Seq<char>>) -> Seq<Seq<char>>
    decreases ms.len(),
{
    if ms.len() == 0 {
        seq![]
    } else {
        let prev = normalized(ms.drop_last());
        let m = stripped(ms.last());
        if m.len() == 0 || prev.contains(m) {
            prev
        } else {
            prev.push(m)
        }
    }
}

/// A stored member list: no empty handle, no leading `@`, no repeats.
pub open spec fn members_wf(ms: Seq<Seq<char>>) -> bool {
    &&& ms.no_duplicates()
    &&& forall|i: int| 0 <= i < ms.len() ==> (#[trigger] ms[i]).len() > 0 && ms[i][0] != '@'
}

pub proof fn lemma_stripped(s: Seq<char>)
    ensures
        stripped(s).len() > 0 ==> stripped(s)[0] != '@',
    decreases s.len(),
{
    if s.len() > 0 && s[0] == '@' {
        lemma_stripped(s.drop_first());
    }
}

/// Normalising a member list gives a stored member list.
pub proof fn lemma_normalized_wf(ms: Seq<Seq<char>>)
    ensures
        members_wf(normalized(ms)),
    decreases ms.len(),
{
    if ms.len() > 0 {
        lemma_normalized_wf(ms.drop_last());
        lemma_stripped(ms.last());
    }
}

/// The handle without its leading `@` characters.
pub fn strip_handle(s: &str) -> (r: String)
    ensures
        r@ == stripped(s@),
{
    let n = s.unicode_len();
    let mut i: usize = 0;
    assert(s@.skip(0) =~= s@);
    while i < n && s.get_char(i) == '@'
        invariant
            n == s@.len(),
            i <= n,
            stripped(s@) == stripped(s@.skip(i as int)),
        decreases n - i,
    {
        assert(s@.skip(i as int).drop_first() =~= s@.skip(i as int + 1));
        i = i + 1;
    }
    let rest = s.substring_char(i, n);
    assert(rest@ =~= s@.skip(i as int));
    rest.to_owned()
}

/// Whether `s` is among `v`.
pub fn contains_string(v: &Vec<String>, s: &String) -> (r: bool)
    ensures
        r == views(v@).contains(s@),
{
    let mut i: usize = 0;
    while i < v.len()
        invariant
            i <= v@.len(),
            forall|j: int| 0 <= j < i ==> v@[j]@ != s@,
        decreases v@.len() - i,
    {
        if v[i] == *s {
            assert(views(v@)[i as int] == s@);
            return true;
        }
        i = i + 1;
    }
    assert(!views(v@).contains(s@)) by {
        if views(v@).contains(s@) {
            let k = choose|k: int| 0 <= k < views(v@).len() && views(v@)[k] == s@;
            assert(v@[k]@ == s@);
        }
    }
    false
}

/// The member list as stored: handles without `@`, no empty ones, no repeats.
pub fn normalize_members(names: &Vec<String>) -> (r: Vec<String>)
    ensures
        views(r@) == normalized(views(names@)),
        members_wf(views(r@)),
{
    let mut out: Vec<String> = Vec::new();
    let mut i: usize = 0;
    while i < names.len()
        invariant
            i <= names@.len(),
            views(out@) == normalized(views(names@).take(i as int)),
        decreases names@.len() - i,
    {
        let m = strip_handle(names[i].as_str());
        proof {
            let t = views(names@).take(i as int + 1);
            assert(t.drop_last() =~= views(names@).take(i as int));
            assert(t.last() == names@[i as int]@);
        }
        if m.unicode_len() > 0 && !contains_string(&out, &m) {
            let ghost before = out@;
            out.push(m);
            assert(views(out@) =~= views(before).push(m@));
        }
        i = i + 1;
    }
    assert(views(names@).take(i as int) =~= views(names@));
    proof {
        lemma_normalized_wf(views(names@));
    }
    out
}

impl TagGroup {
    /// A copy of the group.
    pub fn duplicate(&self) -> (r: TagGroup)
        ensures
            r@ == self@,
    {
        let mut members: Vec<String> = Vec::new();
        let mut i: usize = 0;
        while i < self.members.len()
            invariant
                i <= self.members@.len(),
                views(members@) == views(self.members@).take(i as int),
            decreases self.members@.len() - i,
        {
            let ghost before = members@;
            let m = self.members[i].clone();
            members.push(m);
            assert(views(members@) =~= views(before).push(m@));
            assert(views(members@) =~= views(self.members@).take(i as int + 1));
            i = i + 1;
        }
        assert(views(self.members@).take(i as int) =~= views(self.members@));
        TagGroup {
            chat_id: self.chat_id,
            group: self.group.clone(),
            emoji: self.emoji.clone(),
            members,
        }
    }
}

} // verus!

//! Hashtags of a message, and the groups they name resolved into one
//! mention: the groups' markers and their members, each once, without the
//! sender.

use vstd::prelude::*;
use crate::args::views;
use crate::tag::{group_views, strip_handle, stripped, TagGroup, TagGroupView};

verus! {

/// The kinds of rich-text spans that the mention path tells apart.
#[derive(Debug, Clone, Copy, PartialEq, Eq, Structural)]
pub enum EntityKind {
    Hashtag,
    Mention,
    BotCommand,
    Other,
}

impl EntityKind {
    pub fn is_hashtag(&self) -> (r: bool)
        ensures
            r == (*self == EntityKind::Hashtag),
    {
        match self {
            EntityKind::Hashtag => true,
            _ => false,
        }
    }
}

/// A span of a message: its kind and the text it covers.
pub struct Entity {
    pub kind: EntityKind,
    pub text: String,
}

/// The hashtags among `es`, each once, in the order of their first
/// occurrence.
pub open spec fn hashtags_of(es: Seq<Entity>) -> Seq<Seq<char>>
    decreases es.len(),
{
    if es.len() == 0 {
        seq![]
    } else {
        let prev = hashtags_of(es.drop_last());
        let e = es.last();
        if e.kind == EntityKind::Hashtag && !prev.contains(e.text@) {
            prev.push(e.text@)
        } else {
            prev
        }
    }
}

/// `acc` followed by the members of `ms` that are neither `sender` nor
/// already there.
pub open spec fn add_members(acc: Seq<Seq<char>>, ms: Seq<Seq<char>>, sender: Seq<char>) -> Seq<Seq<char>>
    decreases ms.len(),
{
    if ms.len() == 0 {
        acc
    } else {
        let a = add_members(acc, ms.drop_last(), sender);
        let m = ms.last();
        if m == sender || a.contains(m) {
            a
        } else {
            a.push(m)
        }
    }
}

/// The members of the groups, each once, in order of first occurrence,
/// without `sender`.
pub open spec fn recipients_of(gs: Seq<TagGroupView>, sender: Seq<char>) -> Seq<Seq<char>>
    decreases gs.len(),
{
    if gs.len() == 0 {
        seq![]
    } else {
        add_members(recipients_of(gs.drop_last(), sender), gs.last().members, sender)
    }
}

/// The groups' markers, one after another.
pub open spec fn markers_of(gs: Seq<TagGroupView>) -> Seq<char>
    decreases gs.len(),
{
    if gs.len() == 0 {
        seq![]
    } else {
        markers_of(gs.drop_last()) + gs.last().emoji
    }
}

/// The names of the groups, in order.
pub open spec fn names_of(gs: Seq<TagGroupView>) -> Seq<Seq<char>> {
    gs.map_values(|g: TagGroupView| g.group)
}

/// The hashtags among `hs` that name one of `names`, in the order of `hs`.
pub open spec fn matched_tokens(hs: Seq<Seq<char>>, names: Seq<Seq<char>>) -> Seq<Seq<char>>
    decreases hs.len(),
{
    if hs.len() == 0 {
        seq![]
    } else if names.contains(hs.last()) {
        matched_tokens(hs.drop_last(), names).push(hs.last())
    } else {
        matched_tokens(hs.drop_last(), names)
    }
}

/// The result of resolving a message's hashtags: the markers, the
/// recipients, and the hashtags that named a group.
pub struct Mention {
    pub markers: String,
    pub recipients: Vec<String>,
    pub hashtags: Vec<String>,
}

/// Whether any span is a hashtag.
pub fn has_hashtag(entities: &Vec<Entity>) -> (r: bool)
    ensures
        r == exists|i: int| 0 <= i < entities@.len() && (#[trigger] entities@[i]).kind == EntityKind::Hashtag,
{
    let mut i: usize = 0;
    while i < entities.len()
        invariant
            i <= entities@.len(),
            forall|j: int| 0 <= j < i ==> (#[trigger] entities@[j]).kind != EntityKind::Hashtag,
        decreases entities@.len() - i,
    {
        if entities[i].kind.is_hashtag() {
            return true;
        }
        i = i + 1;
    }
    false
}

/// The hashtags of a message, each once, in the order they first appear.
pub fn extract_hashtags(entities: &Vec<Entity>) -> (r: Vec<String>)
    ensures
        views(r@) == hashtags_of(entities@),
{
    let mut out: Vec<String> = Vec::new();
    let mut i: usize = 0;
    while i < entities.len()
        invariant
            i <= entities@.len(),
            views(out@) == hashtags_of(entities@.take(i as int)),
        decreases entities@.len() - i,
    {
        assert(entities@.take(i as int + 1).drop_last() =~= entities@.take(i as int));
        let e = &entities[i];
        if e.kind.is_hashtag() && !crate::tag::contains_string(&out, &e.text) {
            let t = e.text.clone();
            let ghost before = out@;
            out.push(t);
            assert(views(out@) =~= views(before).push(t@));
        }
        i = i + 1;
    }
    assert(entities@.take(i as int) =~= entities@);
    out
}

/// Adds to `acc` the members of `g` that are neither `sender` nor already
/// in `acc`.
fn add_group_members(acc: &mut Vec<String>, g: &TagGroup, sender: &String)
    ensures
        views(final(acc)@) == add_members(views(old(acc)@), views(g.members@), sender@),
{
    let ghost start = views(acc@);
    let mut i: usize = 0;
    while i < g.members.len()
        invariant
            i <= g.members@.len(),
            start == views(old(acc)@),
            views(acc@) == add_members(start, views(g.members@).take(i as int), sender@),
        decreases g.members@.len() - i,
    {
        assert(views(g.members@).take(i as int + 1).drop_last() =~= views(g.members@).take(i as int));
        let m = &g.members[i];
        if !(*m == *sender) && !crate::tag::contains_string(acc, m) {
            let t = m.clone();
            let ghost before = acc@;
            acc.push(t);
            assert(views(acc@) =~= views(before).push(t@));
        }
        i = i + 1;
    }
    assert(views(g.members@).take(i as int) =~= views(g.members@));
}

/// Whether one of the groups has the name `name`.
fn names_group(groups: &Vec<TagGroup>, name: &String) -> (r: bool)
    ensures
        r == names_of(group_views(groups@)).contains(name@),
{
    let ghost names = names_of(group_views(groups@));
    let mut i: usize = 0;
    while i < groups.len()
        invariant
            i <= groups@.len(),
            names == names_of(group_views(groups@)),
            forall|j: int| 0 <= j < i ==> names[j] != name@,
        decreases groups@.len() - i,
    {
        if groups[i].group == *name {
            assert(names[i as int] == name@);
            return true;
        }
        i = i + 1;
    }
    false
}

/// Resolves the groups that a message's `hashtags` matched into one
/// mention: `None` where no group matched; otherwise their markers in order,
/// their members, each once, without the sender (compared without a leading
/// `@`), and the hashtags that named a group, in the message's order.
pub fn aggregate(groups: &Vec<TagGroup>, hashtags: &Vec<String>, sender: &str) -> (r: Option<Mention>)
    ensures
        r is None <==> groups@.len() == 0,
        r matches Some(m) ==> m.markers@ == markers_of(group_views(groups@)) && views(m.recipients@)
            == recipients_of(group_views(groups@), stripped(sender@)) && views(m.hashtags@)
            == matched_tokens(views(hashtags@), names_of(group_views(groups@))),
{
    if groups.len() == 0 {
        return None;
    }
    let me = strip_handle(sender);
    let mut markers = String::new();
    let mut recipients: Vec<String> = Vec::new();
    let mut i: usize = 0;
    while i < groups.len()
        invariant
            i <= groups@.len(),
            me@ == stripped(sender@),
            markers@ == markers_of(group_views(groups@).take(i as int)),
            views(recipients@) == recipients_of(group_views(groups@).take(i as int), me@),
        decreases groups@.len() - i,
    {
        let ghost gs = group_views(groups@).take(i as int + 1);
        assert(gs.drop_last() =~= group_views(groups@).take(i as int));
        assert(gs.last() == groups@[i as int]@);
        markers.append(groups[i].emoji.as_str());
        add_group_members(&mut recipients, &groups[i], &me);
        i = i + 1;
    }
    assert(group_views(groups@).take(i as int) =~= group_views(groups@));
    let ghost names = names_of(group_views(groups@));
    let mut matched: Vec<String> = Vec::new();
    let mut k: usize = 0;
    while k < hashtags.len()
        invariant
            k <= hashtags@.len(),
            names == names_of(group_views(groups@)),
            views(matched@) == matched_tokens(views(hashtags@).take(k as int), names),
        decreases hashtags@.len() - k,
    {
        let ghost hs = views(hashtags@).take(k as int + 1);
        assert(hs.drop_last() =~= views(hashtags@).take(k as int));
        assert(hs.last() == hashtags@[k as int]@);
        if names_group(groups, &hashtags[k]) {
            let t = hashtags[k].clone();
            let ghost before = matched@;
            matched.push(t);
            assert(views(matched@) =~= views(before).push(t@));
        }
        k = k + 1;
    }
    assert(views(hashtags@).take(k as int) =~= views(hashtags@));
    Some(Mention { markers, recipients, hashtags: matched })
}

proof fn lemma_add_members(acc: Seq<Seq<char>>, ms: Seq<Seq<char>>, sender: Seq<char>)
    requires
        acc.no_duplicates(),
        !acc.contains(sender),
    ensures
        add_members(acc, ms, sender).no_duplicates(),
        !add_members(acc, ms, sender).contains(sender),
        forall|x: Seq<char>| #[trigger] acc.contains(x) ==> add_members(acc, ms, sender).contains(x),
        forall|x: Seq<char>| x != sender && #[trigger] ms.contains(x) ==> add_members(acc, ms, sender).contains(x),
    decreases ms.len(),
{
    if ms.len() > 0 {
        let a = add_members(acc, ms.drop_last(), sender);
        lemma_add_members(acc, ms.drop_last(), sender);
        let m = ms.last();
        let r = add_members(acc, ms, sender);
        assert forall|x: Seq<char>| #[trigger] a.contains(x) implies r.contains(x) by {
            if !(m == sender || a.contains(m)) {
                let k = choose|k: int| 0 <= k < a.len() && a[k] == x;
                assert(r[k] == x);
            }
        }
        assert forall|x: Seq<char>| x != sender && #[trigger] ms.contains(x) implies r.contains(x) by {
            let k = choose|k: int| 0 <= k < ms.len() && ms[k] == x;
            if k < ms.len() - 1 {
                assert(ms.drop_last()[k] == x);
                assert(ms.drop_last().contains(x));
                assert(a.contains(x));
            } else if !a.contains(m) {
                assert(r[a.len() as int] == x);
            }
        }
        assert forall|x: Seq<char>| #[trigger] acc.contains(x) implies r.contains(x) by {
            assert(a.contains(x));
        }
    }
}

proof fn lemma_recipients(gs: Seq<TagGroupView>, sender: Seq<char>)
    ensures
        recipients_of(gs, sender).no_duplicates(),
        !recipients_of(gs, sender).contains(sender),
        forall|i: int, x: Seq<char>|
            0 <= i < gs.len() && x != sender && #[trigger] gs[i].members.contains(x)
                ==> recipients_of(gs, sender).contains(x),
    decreases gs.len(),
{
    if gs.len() > 0 {
        let prev = recipients_of(gs.drop_last(), sender);
        lemma_recipients(gs.drop_last(), sender);
        lemma_add_members(prev, gs.last().members, sender);
        assert forall|i: int, x: Seq<char>|
            0 <= i < gs.len() && x != sender && #[trigger] gs[i].members.contains(x)
                implies recipients_of(gs, sender).contains(x) by {
            if i < gs.len() - 1 {
                assert(gs.drop_last()[i] == gs[i]);
                assert(gs.drop_last()[i].members.contains(x));
                assert(prev.contains(x));
            }
        }
    }
}

/// The sender's handle (the sender without a leading `@`) is never among
/// the recipients, however many of the resolved groups hold it.
pub proof fn lemma_sender_never_recipient(gs: Seq<TagGroupView>, sender: Seq<char>)
    ensures
        !recipients_of(gs, stripped(sender)).contains(stripped(sender)),
{
    lemma_recipients(gs, stripped(sender));
}

/// A member of two resolved groups, who is not the sender (compared
/// without a leading `@`), is among the recipients exactly once.
pub proof fn lemma_shared_member_once(gs: Seq<TagGroupView>, sender: Seq<char>, g1: int, g2: int, m: Seq<char>)
    requires
        0 <= g1 < gs.len(),
        0 <= g2 < gs.len(),
        g1 != g2,
        gs[g1].members.contains(m),
        gs[g2].members.contains(m),
        m != stripped(sender),
    ensures
        ({
            let r = recipients_of(gs, stripped(sender));
            exists|k: int| 0 <= k < r.len() && r[k] == m && forall|j: int| 0 <= j < r.len() && #[trigger] r[j] == m ==> j == k
        }),
{
    let r = recipients_of(gs, stripped(sender));
    lemma_recipients(gs, stripped(sender));
    assert(r.contains(m));
    let k = choose|k: int| 0 <= k < r.len() && r[k] == m;
    assert(forall|j: int| 0 <= j < r.len() && #[trigger] r[j] == m ==> j == k);
}

} // verus!

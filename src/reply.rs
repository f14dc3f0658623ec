//! The texts the bot sends: command replies, the group list, usage hints and
//! the mention notification.

use vstd::prelude::*;
use crate::args::views;
use crate::directory::{DeleteOutcome, UpsertOutcome};
use crate::md_escape::{
    bold, bold_markup, bolded, code_block_markup, code_blocked, escape_markup, escaped, italic,
    italicized,
};
use crate::mention::Mention;
use crate::tag::{group_views, TagGroup, TagGroupView};

verus! {

/// The parts with `sep` between each two.
pub open spec fn joined(parts: Seq<Seq<char>>, sep: Seq<char>) -> Seq<char>
    decreases parts.len(),
{
    if parts.len() == 0 {
        seq![]
    } else if parts.len() == 1 {
        parts[0]
    } else {
        joined(parts.drop_last(), sep) + sep + parts.last()
    }
}

/// The stored name of a group: the name after a `#`.
pub open spec fn group_key_of(name: Seq<char>) -> Seq<char> {
    seq!['#'] + name
}

pub open spec fn add_reply_of(group: Seq<char>, outcome: UpsertOutcome) -> Seq<char> {
    match outcome {
        UpsertOutcome::Created => "Added group "@ + group + "."@,
        UpsertOutcome::Updated => "Updated group "@ + group + "."@,
    }
}

pub open spec fn delete_reply_of(group: Seq<char>, outcome: DeleteOutcome) -> Seq<char> {
    match outcome {
        DeleteOutcome::Deleted => "Deleted group "@ + group + "."@,
        DeleteOutcome::NotFound => "WARNING: Group "@ + group + " not found."@,
    }
}

/// One group of the list, before escaping: marker, name and members.
pub open spec fn list_line_of(t: TagGroupView) -> Seq<char> {
    t.emoji + " "@ + t.group + ": "@ + joined(t.members, ", "@)
}

pub open spec fn list_lines_of(gs: Seq<TagGroupView>) -> Seq<char>
    decreases gs.len(),
{
    if gs.len() == 0 {
        seq![]
    } else {
        list_lines_of(gs.drop_last()) + "\n\n"@ + escaped(list_line_of(gs.last()))
    }
}

pub open spec fn list_text_of(gs: Seq<TagGroupView>) -> Seq<char> {
    if gs.len() == 0 {
        bolded(escaped("No groups found."@))
    } else {
        bolded("Groups:"@) + list_lines_of(gs)
    }
}

pub open spec fn usage_text_of(usage: Seq<char>) -> Seq<char> {
    bolded("Usage:"@) + "\n\n"@ + code_blocked(usage)
}

/// The handles, each after an `@`.
pub open spec fn at_handles(names: Seq<Seq<char>>) -> Seq<Seq<char>> {
    names.map_values(|n: Seq<char>| "@"@ + n)
}

/// The notification: the markers and hashtags, the message, and the
/// recipients in italics where there are any; all of it escaped.
pub open spec fn notification_of(
    markers: Seq<char>,
    hashtags: Seq<Seq<char>>,
    body: Seq<char>,
    recipients: Seq<Seq<char>>,
) -> Seq<char> {
    let text = escaped(markers + " "@ + joined(hashtags, " "@)) + "\n"@ + escaped(body);
    if recipients.len() == 0 {
        text
    } else {
        text + "\n\n"@ + italicized(escaped(joined(at_handles(recipients), " "@)))
    }
}

/// The strings with `sep` between each two.
pub fn join_strings(parts: &Vec<String>, sep: &str) -> (r: String)
    ensures
        r@ == joined(views(parts@), sep@),
{
    let mut out = String::new();
    let mut i: usize = 0;
    while i < parts.len()
        invariant
            i <= parts@.len(),
            out@ == joined(views(parts@).take(i as int), sep@),
        decreases parts@.len() - i,
    {
        let ghost t = views(parts@).take(i as int + 1);
        assert(t.drop_last() =~= views(parts@).take(i as int));
        assert(t.last() == parts@[i as int]@);
        if i > 0 {
            out.append(sep);
        }
        out.append(parts[i].as_str());
        i = i + 1;
    }
    assert(views(parts@).take(i as int) =~= views(parts@));
    out
}

/// The stored name of a group: the name after a `#`.
pub fn group_key(name: &str) -> (r: String)
    ensures
        r@ == group_key_of(name@),
{
    let mut r = String::from_str("#");
    proof {
        reveal_strlit("#");
    }
    r.append(name);
    assert(r@ =~= group_key_of(name@));
    r
}

/// The reply to an add command.
pub fn add_reply(group: &str, outcome: UpsertOutcome) -> (r: String)
    ensures
        r@ == add_reply_of(group@, outcome),
{
    let mut r = match outcome {
        UpsertOutcome::Created => String::from_str("Added group "),
        UpsertOutcome::Updated => String::from_str("Updated group "),
    };
    r.append(group);
    r.append(".");
    r
}

/// The reply to a delete command.
pub fn delete_reply(group: &str, outcome: DeleteOutcome) -> (r: String)
    ensures
        r@ == delete_reply_of(group@, outcome),
{
    match outcome {
        DeleteOutcome::Deleted => {
            let mut r = String::from_str("Deleted group ");
            r.append(group);
            r.append(".");
            r
        },
        DeleteOutcome::NotFound => {
            let mut r = String::from_str("WARNING: Group ");
            r.append(group);
            r.append(" not found.");
            r
        },
    }
}

/// The list of a chat's groups, in MarkdownV2.
pub fn list_text(groups: &Vec<TagGroup>) -> (r: String)
    ensures
        r@ == list_text_of(group_views(groups@)),
{
    if groups.len() == 0 {
        return bold("No groups found.");
    }
    let mut out = bold_markup("Groups:");
    let mut i: usize = 0;
    while i < groups.len()
        invariant
            0 < groups@.len(),
            i <= groups@.len(),
            out@ == bolded("Groups:"@) + list_lines_of(group_views(groups@).take(i as int)),
        decreases groups@.len() - i,
    {
        let ghost t = group_views(groups@).take(i as int + 1);
        assert(t.drop_last() =~= group_views(groups@).take(i as int));
        assert(t.last() == groups@[i as int]@);
        let g = &groups[i];
        let mut line = g.emoji.clone();
        line.append(" ");
        line.append(g.group.as_str());
        line.append(": ");
        let names = join_strings(&g.members, ", ");
        line.append(names.as_str());
        let e = escape_markup(line.as_str());
        let ghost before = out@;
        out.append("\n\n");
        out.append(e.as_str());
        assert(out@ =~= before + "\n\n"@ + escaped(list_line_of(groups@[i as int]@)));
        i = i + 1;
    }
    assert(group_views(groups@).take(i as int) =~= group_views(groups@));
    out
}

/// A usage hint: a bold heading and the command's form as code.
pub fn usage_text(usage: &str) -> (r: String)
    ensures
        r@ == usage_text_of(usage@),
{
    let mut r = bold_markup("Usage:");
    r.append("\n\n");
    let code = code_block_markup(usage);
    r.append(code.as_str());
    r
}

/// The handles, each after an `@`.
pub fn at_handle_list(names: &Vec<String>) -> (r: Vec<String>)
    ensures
        views(r@) == at_handles(views(names@)),
{
    let mut out: Vec<String> = Vec::new();
    let mut i: usize = 0;
    while i < names.len()
        invariant
            i <= names@.len(),
            views(out@) == at_handles(views(names@).take(i as int)),
        decreases names@.len() - i,
    {
        let mut h = String::from_str("@");
        h.append(names[i].as_str());
        let ghost before = out@;
        out.push(h);
        assert(views(out@) =~= views(before).push(h@));
        assert(views(names@).take(i as int + 1) =~= views(names@).take(i as int).push(names@[i as int]@));
        assert(views(out@) =~= at_handles(views(names@).take(i as int + 1)));
        i = i + 1;
    }
    assert(views(names@).take(i as int) =~= views(names@));
    out
}

/// The notification for a resolved mention in a message with text `body`.
pub fn notification_text(mention: &Mention, body: &str) -> (r: String)
    ensures
        r@ == notification_of(
            mention.markers@,
            views(mention.hashtags@),
            body@,
            views(mention.recipients@),
        ),
{
    let mut head = mention.markers.clone();
    head.append(" ");
    let tags = join_strings(&mention.hashtags, " ");
    head.append(tags.as_str());
    let mut r = escape_markup(head.as_str());
    r.append("\n");
    let b = escape_markup(body);
    r.append(b.as_str());
    if mention.recipients.len() > 0 {
        let handles = at_handle_list(&mention.recipients);
        let line = join_strings(&handles, " ");
        let it = italic(line.as_str());
        r.append("\n\n");
        r.append(it.as_str());
    }
    r
}

} // verus!

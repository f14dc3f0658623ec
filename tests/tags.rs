use lmbatbot::args::parse_tagadd_args;
use lmbatbot::directory::{DeleteOutcome, TagDirectory, UpsertOutcome};
use lmbatbot::mention::{aggregate, extract_hashtags, has_hashtag, Entity, EntityKind};
use lmbatbot::reply::{add_reply, delete_reply, group_key, list_text, notification_text};
use lmbatbot::tag::{normalize_members, strip_handle, TagGroup};

const CHAT: i64 = -100;

fn strings(v: &[&str]) -> Vec<String> {
    v.iter().map(|s| s.to_string()).collect()
}

fn group(name: &str, emoji: &str, members: &[&str]) -> TagGroup {
    TagGroup {
        chat_id: CHAT,
        group: name.to_string(),
        emoji: emoji.to_string(),
        members: strings(members),
    }
}

fn add(dir: &mut TagDirectory, args: &str) -> String {
    let (name, emoji, members) = parse_tagadd_args(args.to_string()).unwrap();
    let key = group_key(&name);
    let outcome = dir.upsert(CHAT, key.clone(), emoji, &members);
    add_reply(&key, outcome)
}

#[test]
fn scenario_add_creates_group() {
    let mut dir = TagDirectory::new();
    let (name, emoji, members) = parse_tagadd_args("team\n🔥\n@alice bob".to_string()).unwrap();
    let key = group_key(&name);
    assert_eq!(key, "#team");
    assert_eq!(dir.upsert(CHAT, key.clone(), emoji, &members), UpsertOutcome::Created);
    assert_eq!(add_reply(&key, UpsertOutcome::Created), "Added group #team.");
    let listed = dir.list(CHAT);
    assert_eq!(listed.len(), 1);
    assert_eq!(listed[0].members, strings(&["alice", "bob"]));
}

#[test]
fn scenario_repeat_add_replaces_members() {
    let mut dir = TagDirectory::new();
    assert_eq!(add(&mut dir, "team\n🔥\n@alice bob"), "Added group #team.");
    assert_eq!(add(&mut dir, "team\n🔥\n@carol"), "Updated group #team.");
    let listed = dir.list(CHAT);
    assert_eq!(listed.len(), 1);
    assert_eq!(listed[0].group, "#team");
    assert_eq!(listed[0].members, strings(&["carol"]));
}

#[test]
fn scenario_mention_notifies_members() {
    let mut dir = TagDirectory::new();
    add(&mut dir, "team\n🔥\n@alice bob");
    add(&mut dir, "team\n🔥\n@carol");
    let entities = vec![Entity { kind: EntityKind::Hashtag, text: "#team".to_string() }];
    assert!(has_hashtag(&entities));
    let tags = extract_hashtags(&entities);
    let found = dir.find_by_groups(CHAT, &tags);
    let mention = aggregate(&found, &tags, "alice").unwrap();
    assert_eq!(mention.recipients, strings(&["carol"]));
    assert_eq!(mention.markers, "🔥");
    assert_eq!(
        notification_text(&mention, "hello #team"),
        "🔥 \\#team\nhello \\#team\n\n_@carol_"
    );
}

#[test]
fn scenario_unknown_hashtag_has_no_recipients() {
    let mut dir = TagDirectory::new();
    add(&mut dir, "team\n🔥\n@alice bob");
    let entities = vec![Entity { kind: EntityKind::Hashtag, text: "#missing".to_string() }];
    let tags = extract_hashtags(&entities);
    let found = dir.find_by_groups(CHAT, &tags);
    assert!(found.is_empty());
    assert!(aggregate(&found, &tags, "alice").is_none());
}

#[test]
fn scenario_delete_twice() {
    let mut dir = TagDirectory::new();
    add(&mut dir, "team\n🔥\n@alice bob");
    let key = group_key("team");
    let first = dir.delete(CHAT, &key);
    let second = dir.delete(CHAT, &key);
    assert_eq!(first, DeleteOutcome::Deleted);
    assert_eq!(second, DeleteOutcome::NotFound);
    assert_eq!(delete_reply(&key, first), "Deleted group #team.");
    assert_eq!(delete_reply(&key, second), "WARNING: Group #team not found.");
    assert!(dir.list(CHAT).is_empty());
}

#[test]
fn members_are_stored_without_at() {
    let mut dir = TagDirectory::new();
    dir.upsert(CHAT, "#g".to_string(), "x".to_string(), &strings(&["@a", "b"]));
    assert_eq!(dir.list(CHAT)[0].members, strings(&["a", "b"]));
}

#[test]
fn normalization_drops_empty_and_repeated_handles() {
    assert_eq!(
        normalize_members(&strings(&["@@a", "@", "a", "b", "@b"])),
        strings(&["a", "b"])
    );
    assert_eq!(strip_handle("@@x@"), "x@");
}

#[test]
fn shared_member_is_notified_once() {
    let groups = vec![group("#g1", "🔥", &["m", "x"]), group("#g2", "⭐", &["y", "m"])];
    let mention = aggregate(&groups, &strings(&["#g2", "#other", "#g1"]), "z").unwrap();
    assert_eq!(mention.recipients, strings(&["m", "x", "y"]));
    assert_eq!(mention.markers, "🔥⭐");
    assert_eq!(mention.hashtags, strings(&["#g2", "#g1"]));
    assert_eq!(notification_text(&mention, "x"), "🔥⭐ \\#g2 \\#g1\nx\n\n_@m @x @y_");
}

#[test]
fn sender_is_never_notified() {
    let groups = vec![group("#g1", "a", &["s", "x"]), group("#g2", "a", &["s"])];
    let mention = aggregate(&groups, &strings(&["#g1", "#g2"]), "@s").unwrap();
    assert_eq!(mention.recipients, strings(&["x"]));
    assert_eq!(mention.markers, "aa");
}

#[test]
fn only_member_sender_still_gets_a_notification() {
    let groups = vec![group("#solo", "🎯", &["me"])];
    let mention = aggregate(&groups, &strings(&["#solo"]), "me").unwrap();
    assert!(mention.recipients.is_empty());
    assert_eq!(mention.hashtags, strings(&["#solo"]));
    assert_eq!(notification_text(&mention, "hi!"), "🎯 \\#solo\nhi\\!");
}

#[test]
fn hashtags_are_distinct_and_in_order() {
    let entities = vec![
        Entity { kind: EntityKind::Mention, text: "@bob".to_string() },
        Entity { kind: EntityKind::Hashtag, text: "#b".to_string() },
        Entity { kind: EntityKind::Hashtag, text: "#a".to_string() },
        Entity { kind: EntityKind::Hashtag, text: "#b".to_string() },
    ];
    assert_eq!(extract_hashtags(&entities), strings(&["#b", "#a"]));
    let plain = vec![Entity { kind: EntityKind::BotCommand, text: "/taglist".to_string() }];
    assert!(!has_hashtag(&plain));
}

#[test]
fn upsert_is_scoped_by_chat() {
    let mut dir = TagDirectory::new();
    assert_eq!(dir.upsert(1, "#t".to_string(), "a".to_string(), &strings(&["x"])), UpsertOutcome::Created);
    assert_eq!(dir.upsert(2, "#t".to_string(), "b".to_string(), &strings(&["y"])), UpsertOutcome::Created);
    assert_eq!(dir.list(1).len(), 1);
    assert_eq!(dir.list(2)[0].emoji, "b");
    let names = strings(&["#t", "#u"]);
    assert_eq!(dir.find_by_groups(1, &names)[0].members, strings(&["x"]));
}

#[test]
fn list_text_shows_groups_escaped() {
    let groups = vec![group("#team", "🔥", &["carol", "dave"])];
    assert_eq!(list_text(&groups), "*Groups:*\n\n🔥 \\#team: carol, dave");
    assert_eq!(list_text(&Vec::new()), "*No groups found\\.*");
}

#[test]
fn store_counts_map_to_outcomes() {
    assert_eq!(UpsertOutcome::from_matched(0), UpsertOutcome::Created);
    assert_eq!(UpsertOutcome::from_matched(1), UpsertOutcome::Updated);
    assert_eq!(DeleteOutcome::from_deleted(1), DeleteOutcome::Deleted);
    assert_eq!(DeleteOutcome::from_deleted(0), DeleteOutcome::NotFound);
}

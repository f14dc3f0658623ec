use lmbatbot::directory::{DeleteOutcome, UpsertOutcome};
use lmbatbot::words::{
    count_word, counter_increment, decimal_string, stats_text, word_key, worddelete_reply,
    wordadd_reply, WordCount,
};

#[test]
fn word_key_lowercases() {
    assert_eq!(word_key("HeLLo"), "hello");
}

#[test]
fn whole_words_are_counted() {
    assert_eq!(count_word("cat", "cat concat cat!"), Some(2));
    assert_eq!(count_word("dog", "cat"), Some(0));
    assert_eq!(count_word("(", "x"), None);
}

#[test]
fn counter_increments() {
    assert_eq!(counter_increment(0), None);
    assert_eq!(counter_increment(3), Some(3));
}

#[test]
fn decimal_digits() {
    assert_eq!(decimal_string(0), "0");
    assert_eq!(decimal_string(305), "305");
    assert_eq!(decimal_string(u32::MAX), "4294967295");
}

#[test]
fn word_replies_and_stats() {
    assert_eq!(wordadd_reply("a.b", UpsertOutcome::Created), "Added word *a\\.b*");
    assert_eq!(
        wordadd_reply("hi", UpsertOutcome::Updated),
        "WARNING: Counter for *hi* has been reset"
    );
    assert_eq!(worddelete_reply("hi", DeleteOutcome::Deleted), "Deleted word *hi*");
    assert_eq!(worddelete_reply("hi", DeleteOutcome::NotFound), "WARNING: Word *hi* not found");
    let words = vec![
        WordCount { word: "hi".to_string(), count: 12 },
        WordCount { word: "yo-yo".to_string(), count: 0 },
    ];
    assert_eq!(stats_text(&words), "*Stats:\n*\nhi: 12\nyo\\-yo: 0");
}

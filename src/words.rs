//! Tracked words of a chat: their keys, how often a message says them, and
//! the texts of the word commands.

use vstd::prelude::*;
use crate::directory::{DeleteOutcome, UpsertOutcome};
use crate::md_escape::{bold, bold_markup, bolded, escape_markup, escaped};

verus! {

/// What `str::to_lowercase` makes of a text.
pub uninterp spec fn lowercase_of(s: Seq<char>) -> Seq<char>;

/// How many matches the regular expression `pattern` has in `text`, or
/// `None` where `pattern` is no valid expression.
pub uninterp spec fn pattern_match_count(pattern: Seq<char>, text: Seq<char>) -> Option<nat>;

/// Relies on `str::to_lowercase`: the result depends on the text alone.
#[verifier::external_body]
fn lowercase(s: &str) -> (r: String)
    ensures
        r@ == lowercase_of(s@),
{
    s.to_lowercase()
}

/// Relies on regex's `Regex::new` and `Regex::find_iter`: the number of
/// non-overlapping matches, or `None` where the pattern does not compile.
#[verifier::external_body]
fn regex_match_count(pattern: &str, text: &str) -> (r: Option<usize>)
    ensures
        match r {
            Some(n) => pattern_match_count(pattern@, text@) == Some(n as nat),
            None => pattern_match_count(pattern@, text@) is None,
        },
{
    match regex::Regex::new(pattern) {
        Ok(re) => Some(re.find_iter(text).count()),
        Err(_) => None,
    }
}

/// A tracked word and how often it was said.
pub struct WordCount {
    pub word: String,
    pub count: u32,
}

pub open spec fn digit_of(d: nat) -> char {
    "0123456789"@[d as int]
}

/// The decimal digits of `n`.
pub open spec fn decimal(n: nat) -> Seq<char>
    decreases n,
{
    if n < 10 {
        seq![digit_of(n)]
    } else {
        decimal(n / 10) + seq![digit_of(n % 10)]
    }
}

/// The pattern that matches `word` as a whole word.
pub open spec fn word_pattern_of(word: Seq<char>) -> Seq<char> {
    "\\b"@ + word + "\\b"@
}

pub open spec fn wordadd_reply_of(word: Seq<char>, outcome: UpsertOutcome) -> Seq<char> {
    match outcome {
        UpsertOutcome::Created => "Added word "@ + bolded(escaped(word)),
        UpsertOutcome::Updated => "WARNING: Counter for "@ + bolded(escaped(word)) + " has been reset"@,
    }
}

pub open spec fn worddelete_reply_of(word: Seq<char>, outcome: DeleteOutcome) -> Seq<char> {
    match outcome {
        DeleteOutcome::Deleted => "Deleted word "@ + bolded(escaped(word)),
        DeleteOutcome::NotFound => "WARNING: Word "@ + bolded(escaped(word)) + " not found"@,
    }
}

pub open spec fn stats_lines_of(ws: Seq<WordCount>) -> Seq<char>
    decreases ws.len(),
{
    if ws.len() == 0 {
        seq![]
    } else {
        stats_lines_of(ws.drop_last()) + "\n"@ + escaped(
            ws.last().word@ + ": "@ + decimal(ws.last().count as nat),
        )
    }
}

pub open spec fn stats_text_of(ws: Seq<WordCount>) -> Seq<char> {
    bolded("Stats:\n"@) + stats_lines_of(ws)
}

/// The key a tracked word is stored under: the word in lower case.
pub fn word_key(word: &str) -> (r: String)
    ensures
        r@ == lowercase_of(word@),
{
    lowercase(word)
}

/// The decimal digits of `n`.
pub fn decimal_string(n: u32) -> (r: String)
    ensures
        r@ == decimal(n as nat),
    decreases n,
{
    let digits = "0123456789";
    proof {
        reveal_strlit("0123456789");
    }
    let d = (n % 10) as usize;
    let last = digits.substring_char(d, d + 1);
    assert(last@ =~= seq![digit_of(d as nat)]);
    if n < 10 {
        last.to_owned()
    } else {
        let mut r = decimal_string(n / 10);
        r.append(last);
        r
    }
}

/// The pattern that matches `word` as a whole word.
pub fn word_pattern(word: &str) -> (r: String)
    ensures
        r@ == word_pattern_of(word@),
{
    let mut r = String::from_str("\\b");
    r.append(word);
    r.append("\\b");
    r
}

/// How often `text` says `word` as a whole word; `None` where the word does
/// not make a valid pattern.
pub fn count_word(word: &str, text: &str) -> (r: Option<usize>)
    ensures
        match r {
            Some(n) => pattern_match_count(word_pattern_of(word@), text@) == Some(n as nat),
            None => pattern_match_count(word_pattern_of(word@), text@) is None,
        },
{
    let p = word_pattern(word);
    regex_match_count(p.as_str(), text)
}

/// The increment a message brings to a word's counter: `None` where the
/// word was not said, else the count, capped at the counter's maximum.
pub fn counter_increment(count: usize) -> (r: Option<u32>)
    ensures
        count == 0 ==> r is None,
        count > 0 ==> r == Some(if count > u32::MAX as usize { u32::MAX } else { count as u32 }),
{
    if count == 0 {
        None
    } else if count > u32::MAX as usize {
        Some(u32::MAX)
    } else {
        Some(count as u32)
    }
}

/// The reply to a word-add command for the stored key `word`.
pub fn wordadd_reply(word: &str, outcome: UpsertOutcome) -> (r: String)
    ensures
        r@ == wordadd_reply_of(word@, outcome),
{
    let b = bold(word);
    match outcome {
        UpsertOutcome::Created => {
            let mut r = String::from_str("Added word ");
            r.append(b.as_str());
            r
        },
        UpsertOutcome::Updated => {
            let mut r = String::from_str("WARNING: Counter for ");
            r.append(b.as_str());
            r.append(" has been reset");
            r
        },
    }
}

/// The reply to a word-delete command for the stored key `word`.
pub fn worddelete_reply(word: &str, outcome: DeleteOutcome) -> (r: String)
    ensures
        r@ == worddelete_reply_of(word@, outcome),
{
    let b = bold(word);
    match outcome {
        DeleteOutcome::Deleted => {
            let mut r = String::from_str("Deleted word ");
            r.append(b.as_str());
            r
        },
        DeleteOutcome::NotFound => {
            let mut r = String::from_str("WARNING: Word ");
            r.append(b.as_str());
            r.append(" not found");
            r
        },
    }
}

/// The stats of a chat's tracked words, one line each, in the order given.
pub fn stats_text(words: &Vec<WordCount>) -> (r: String)
    ensures
        r@ == stats_text_of(words@),
{
    let mut out = bold_markup("Stats:\n");
    let mut i: usize = 0;
    while i < words.len()
        invariant
            i <= words@.len(),
            out@ == bolded("Stats:\n"@) + stats_lines_of(words@.take(i as int)),
        decreases words@.len() - i,
    {
        assert(words@.take(i as int + 1).drop_last() =~= words@.take(i as int));
        let w = &words[i];
        let mut line = w.word.clone();
        line.append(": ");
        let n = decimal_string(w.count);
        line.append(n.as_str());
        let e = escape_markup(line.as_str());
        let ghost before = out@;
        out.append("\n");
        out.append(e.as_str());
        assert(out@ =~= before + "\n"@ + escaped(w.word@ + ": "@ + decimal(w.count as nat)));
        i = i + 1;
    }
    assert(words@.take(i as int) =~= words@);
    out
}

} // verus!

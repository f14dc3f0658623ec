//! The argument parser of the add command: three non-empty lines, the last
//! of them a list of space-separated members.

use vstd::prelude::*;

verus! {

/// The views of a sequence of strings.
pub open spec fn views(v: Seq<String>) -> Seq<Seq<char>> {
    v.map_values(|x: String| x@)
}

/// Scanning `s` left to right: the non-empty fields closed so far, and the
/// field still open.
pub open spec fn scan_fields(s: Seq<char>, sep: char) -> (Seq<Seq<char>>, Seq<char>)
    decreases s.len(),
{
    if s.len() == 0 {
        (seq![], seq![])
    } else {
        let (done, open) = scan_fields(s.drop_last(), sep);
        if s.last() == sep {
            if open.len() > 0 {
                (done.push(open), seq![])
            } else {
                (done, seq![])
            }
        } else {
            (done, open.push(s.last()))
        }
    }
}

/// The pieces of `s` between separators, in order, empty pieces left out.
pub open spec fn fields(s: Seq<char>, sep: char) -> Seq<Seq<char>> {
    let (done, open) = scan_fields(s, sep);
    if open.len() > 0 {
        done.push(open)
    } else {
        done
    }
}

/// Why the add command's argument was refused; `found` counts the
/// non-empty lines.
#[derive(Debug, Clone, Copy, PartialEq, Eq, Structural)]
pub enum ArgsError {
    TooFewArguments { expected: usize, found: usize },
    TooManyArguments { expected: usize, found: usize },
}

/// The number of lines that the add command takes.
pub const TAGADD_LINES: usize = 3;

/// Splits `s` on `sep`, leaving out empty pieces.
pub fn split_fields(s: &str, sep: char) -> (r: Vec<String>)
    ensures
        views(r@) == fields(s@, sep),
{
    let n = s.unicode_len();
    let mut out: Vec<String> = Vec::new();
    let mut start: usize = 0;
    let mut i: usize = 0;
    while i < n
        invariant
            n == s@.len(),
            start <= i <= n,
            scan_fields(s@.take(i as int), sep) == (views(out@), s@.subrange(start as int, i as int)),
        decreases n - i,
    {
        let c = s.get_char(i);
        proof {
            let t = s@.take(i as int + 1);
            assert(t.drop_last() =~= s@.take(i as int));
            assert(t.last() == c);
            assert(s@.subrange(start as int, i as int).push(c) =~= s@.subrange(
                start as int,
                i as int + 1,
            ));
        }
        if c == sep {
            if start < i {
                let piece = s.substring_char(start, i);
                let ghost before = out@;
                out.push(piece.to_owned());
                assert(views(out@) =~= views(before).push(piece@));
            }
            start = i + 1;
        }
        i = i + 1;
    }
    assert(s@.take(n as int) =~= s@);
    if start < n {
        let piece = s.substring_char(start, n);
        let ghost before = out@;
        out.push(piece.to_owned());
        assert(views(out@) =~= views(before).push(piece@));
    }
    out
}

/// Reads the add command's argument: the group name, the marker and the
/// members, each from its own non-empty line.
pub fn parse_tagadd_args(input: String) -> (r: Result<(String, String, Vec<String>), ArgsError>)
    ensures
        ({
            let lines = fields(input@, '\n');
            match r {
                Ok((group, emoji, members)) => lines.len() == 3 && group@ == lines[0] && emoji@
                    == lines[1] && views(members@) == fields(lines[2], ' '),
                Err(ArgsError::TooFewArguments { expected, found }) => lines.len() < 3 && expected
                    == 3 && found == lines.len(),
                Err(ArgsError::TooManyArguments { expected, found }) => lines.len() > 3 && expected
                    == 3 && found == lines.len(),
            }
        }),
{
    let mut lines = split_fields(input.as_str(), '\n');
    let found = lines.len();
    if found == TAGADD_LINES {
        let names = lines.pop().unwrap();
        let emoji = lines.pop().unwrap();
        let group = lines.pop().unwrap();
        let members = split_fields(names.as_str(), ' ');
        Ok((group, emoji, members))
    } else if found > TAGADD_LINES {
        Err(ArgsError::TooManyArguments { expected: TAGADD_LINES, found })
    } else {
        Err(ArgsError::TooFewArguments { expected: TAGADD_LINES, found })
    }
}

/// Characters that end a command word: blanks, and the `@` before a bot's
/// name.
pub open spec fn ends_word(c: char) -> bool {
    c == ' ' || c == '\n' || c == '\t' || c == '@'
}

/// The command word that `s` starts with.
pub open spec fn command_word(s: Seq<char>) -> Seq<char>
    decreases s.len(),
{
    if s.len() == 0 || ends_word(s[0]) {
        seq![]
    } else {
        seq![s[0]] + command_word(s.drop_first())
    }
}

/// Two characters that are equal up to ASCII case.
pub open spec fn same_letter(a: char, b: char) -> bool {
    ||| a == b
    ||| 'A' <= a <= 'Z' && b as u32 == a as u32 + 32
    ||| 'A' <= b <= 'Z' && a as u32 == b as u32 + 32
}

pub open spec fn same_up_to_case(x: Seq<char>, y: Seq<char>) -> bool {
    x.len() == y.len() && forall|i: int| 0 <= i < x.len() ==> same_letter(#[trigger] x[i], y[i])
}

/// Whether the message `text` starts with the command `name` (such as
/// `/tagadd`), in any ASCII case, with or without a bot's name after it.
pub fn is_command(text: &str, name: &str) -> (r: bool)
    ensures
        r == same_up_to_case(command_word(text@), name@),
{
    let n = text.unicode_len();
    let m = name.unicode_len();
    let mut k: usize = 0;
    assert(text@.skip(0) =~= text@);
    assert(text@.take(0) + text@ =~= text@);
    while k < n && !is_word_end(text.get_char(k))
        invariant
            n == text@.len(),
            k <= n,
            command_word(text@) == text@.take(k as int) + command_word(text@.skip(k as int)),
        decreases n - k,
    {
        let ghost rest = text@.skip(k as int);
        assert(rest.drop_first() =~= text@.skip(k as int + 1));
        assert(text@.take(k as int + 1) =~= text@.take(k as int) + seq![rest[0]]);
        k = k + 1;
    }
    assert(command_word(text@.skip(k as int)) == Seq::<char>::empty());
    assert(command_word(text@) =~= text@.take(k as int));
    if k != m {
        assert(command_word(text@).len() == k);
        return false;
    }
    let mut i: usize = 0;
    while i < k
        invariant
            k == m,
            k <= n,
            command_word(text@) == text@.take(k as int),
            n == text@.len(),
            m == name@.len(),
            i <= k,
            forall|j: int| 0 <= j < i ==> same_letter(#[trigger] text@[j], name@[j]),
        decreases k - i,
    {
        let a = text.get_char(i);
        let b = name.get_char(i);
        let same = a == b || ('A' <= a && a <= 'Z' && b as u32 == a as u32 + 32) || (
        'A' <= b && b <= 'Z' && a as u32 == b as u32 + 32);
        if !same {
            assert(!same_letter(text@.take(k as int)[i as int], name@[i as int]));
            return false;
        }
        i = i + 1;
    }
    assert forall|j: int| 0 <= j < k implies same_letter(#[trigger] text@.take(k as int)[j], name@[j]) by {
        assert(same_letter(text@[j], name@[j]));
    }
    true
}

fn is_word_end(c: char) -> (r: bool)
    ensures
        r == ends_word(c),
{
    c == ' ' || c == '\n' || c == '\t' || c == '@'
}

} // verus!

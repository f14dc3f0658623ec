use lmbatbot::args::{is_command, parse_tagadd_args, split_fields, ArgsError};

#[test]
fn test_parse_3_nl_args() {
    assert!(parse_tagadd_args("a".into()).is_err());
    assert!(parse_tagadd_args("a\nb".into()).is_err());
    assert!(parse_tagadd_args("\n\n".into()).is_err());
    assert_eq!(
        parse_tagadd_args("a\nb\n\nc".into()).unwrap(),
        ("a".into(), "b".into(), vec!["c".into()])
    );
    assert_eq!(
        parse_tagadd_args("a\nb\nc b".into()).unwrap(),
        ("a".into(), "b".into(), vec!["c".into(), "b".into()])
    );
    assert_eq!(
        parse_tagadd_args("a\nb\nc ".into()).unwrap(),
        ("a".into(), "b".into(), vec!["c".into()])
    );
    assert_eq!(
        parse_tagadd_args("a\nb\nc  d".into()).unwrap(),
        ("a".into(), "b".into(), vec!["c".into(), "d".into()])
    );
}

#[test]
fn too_few_lines_counts_non_empty_ones() {
    assert_eq!(
        parse_tagadd_args("a\n\nb\n".into()),
        Err(ArgsError::TooFewArguments { expected: 3, found: 2 })
    );
    assert_eq!(
        parse_tagadd_args("".into()),
        Err(ArgsError::TooFewArguments { expected: 3, found: 0 })
    );
}

#[test]
fn too_many_lines() {
    assert_eq!(
        parse_tagadd_args("a\nb\nc\nd".into()),
        Err(ArgsError::TooManyArguments { expected: 3, found: 4 })
    );
}

#[test]
fn split_keeps_order_and_drops_empty_pieces() {
    assert_eq!(split_fields("  x y  z ", ' '), vec!["x", "y", "z"]);
    assert_eq!(split_fields("", ' '), Vec::<String>::new());
    assert_eq!(split_fields("🔥\nä", '\n'), vec!["🔥", "ä"]);
}

#[test]
fn command_word_is_recognised() {
    assert!(is_command("/tagadd team", "/tagadd"));
    assert!(is_command("/TagAdd@lmbatbot x\ny", "/tagadd"));
    assert!(is_command("/tagadd", "/tagadd"));
    assert!(!is_command("/tagaddx", "/tagadd"));
    assert!(!is_command("/tagdelete team", "/tagadd"));
    assert!(!is_command("", "/tagadd"));
}

use lmbatbot::md_escape::{bold, italic, underline};
use lmbatbot::reply::usage_text;

#[test]
fn bold_escapes_then_styles() {
    assert_eq!(bold("a.b"), "*a\\.b*");
    assert_eq!(bold(""), "**");
}

#[test]
fn italic_escapes_then_styles() {
    assert_eq!(italic("x_y"), "_x\\_y_");
    assert_eq!(italic("__a__"), "_\\_\\_a\\_\\__");
}

#[test]
fn underline_escapes_then_styles() {
    assert_eq!(underline("_a_"), "__\\_a\\___");
    assert_eq!(underline("plain"), "__plain__");
}

#[test]
fn escape_covers_every_markup_character() {
    assert_eq!(
        italic("_*[]()~`>#+-=|{}.!"),
        "_\\_\\*\\[\\]\\(\\)\\~\\`\\>\\#\\+\\-\\=\\|\\{\\}\\.\\!_"
    );
}

#[test]
fn usage_hint_is_bold_heading_and_code_block() {
    assert_eq!(
        usage_text("/tagdelete <group>"),
        "*Usage:*\n\n```\n/tagdelete <group>\n```"
    );
    assert_eq!(usage_text("a`b\\c"), "*Usage:*\n\n```\na\\`b\\\\c\n```");
}

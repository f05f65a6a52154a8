use ffrs::frontend::{interactive_action, text_eq_ignore_ascii_case, trim, LineAction};
use ffrs::grammar::text::text_contains;

#[test]
fn quit_and_exit_in_any_case() {
    assert!(matches!(interactive_action("quit"), LineAction::Quit));
    assert!(matches!(interactive_action("  EXIT \n"), LineAction::Quit));
    assert!(matches!(interactive_action("QuIt"), LineAction::Quit));
}

#[test]
fn blank_lines_are_skipped() {
    assert!(matches!(interactive_action(""), LineAction::Skip));
    assert!(matches!(interactive_action(" \t\n"), LineAction::Skip));
}

#[test]
fn other_lines_run_trimmed() {
    match interactive_action("  convert a.mp4 to b.avi \n") {
        LineAction::Run(c) => assert_eq!(c, "convert a.mp4 to b.avi"),
        other => panic!("unexpected {:?}", other),
    }
    match interactive_action("quitting") {
        LineAction::Run(c) => assert_eq!(c, "quitting"),
        other => panic!("unexpected {:?}", other),
    }
}

#[test]
fn trim_drops_unicode_whitespace() {
    assert_eq!(trim("\u{3000} a b \u{2003}"), "a b");
    assert_eq!(trim("   "), "");
    assert_eq!(trim("x"), "x");
}

#[test]
fn ascii_case_insensitive_match() {
    assert!(text_eq_ignore_ascii_case("Exit", "exit"));
    assert!(!text_eq_ignore_ascii_case("exits", "exit"));
    assert!(!text_eq_ignore_ascii_case("É", "é"));
}

#[test]
fn substring_search() {
    assert!(text_contains("Input file does not exist: a", "not exist"));
    assert!(!text_contains("not exis", "not exist"));
    assert!(text_contains("abc", ""));
}

#[test]
fn whitespace_is_the_unicode_white_space_property() {
    for code in 0u32..=0x10FFFF {
        if let Some(c) = char::from_u32(code) {
            assert_eq!(ffrs::grammar::text::is_whitespace(c), c.is_whitespace(), "U+{:04X}", code);
        }
    }
}

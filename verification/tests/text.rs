use safec::llvm_name::{escaped, is_name, plain};
use safec::print::{is_obeyed, shown};

#[test]
fn a_control_character_is_shown_by_its_code_point() {
    assert_eq!(shown("evil\u{1b}[31m.c"), "evil\\u{1b}[31m.c");
    assert_eq!(shown("a\u{7}b"), "a\\u{7}b");
    assert_eq!(shown("\u{9b}"), "\\u{9b}");
}

#[test]
fn ordinary_text_is_shown_as_written() {
    assert_eq!(shown("int caf\u{e9};"), "int caf\u{e9};");
    assert_eq!(shown(""), "");
}

#[test]
fn a_newline_and_a_tab_are_not_obeyed_but_a_carriage_return_is() {
    assert!(!is_obeyed('\n'));
    assert!(!is_obeyed('\t'));
    assert!(is_obeyed('\r'));
    assert!(is_obeyed('\u{1b}'));
    assert!(!is_obeyed('a'));
    assert_eq!(shown("first\nsecond"), "first\nsecond");
}

#[test]
fn a_plain_name_is_written_bare() {
    assert!(plain("twice"));
    assert!(plain("a.b$c-d_e"));
    assert!(!plain(""));
    assert!(!plain("1abc"));
    assert!(!plain("a\u{1b}b"));
    assert!(!plain("caf\u{e9}"));
    assert!(is_name('-'));
    assert!(!is_name(' '));
}

#[test]
fn a_name_llvm_would_not_take_is_escaped_byte_by_byte() {
    assert_eq!(escaped("a\u{1b}b"), "a\\1Bb");
    assert_eq!(escaped("a\"b\\c"), "a\\22b\\5Cc");
    assert_eq!(escaped("with space"), "with space");
    assert_eq!(escaped("caf\u{e9}"), "caf\\C3\\A9");
}

use niri_dictation::text::{is_white_space, join_spaced, same, split_lines, trim};

#[test]
fn white_space_is_unicodes() {
    for c in '\0'..=char::MAX {
        assert_eq!(is_white_space(c), c.is_whitespace(), "{c:?}");
    }
}

#[test]
fn trims_both_ends() {
    for text in [
        "",
        " ",
        "a",
        " a b ",
        "\u{a0}\u{3000}\t\r\n",
        "\u{85}x\u{2028}",
        "\u{200b}x\u{200b}",
        "\u{e9} \u{e9}\n",
    ] {
        assert_eq!(trim(text), text.trim());
    }
}

#[test]
fn splits_at_line_feeds() {
    assert_eq!(split_lines(""), [""]);
    assert_eq!(split_lines("a"), ["a"]);
    assert_eq!(split_lines("a\nb\u{fc}\r\n\nc\n"), ["a", "b\u{fc}\r", "", "c", ""]);
}

#[test]
fn joins_with_spaces() {
    let texts = |texts: &[&str]| texts.iter().map(|t| (*t).to_owned()).collect::<Vec<_>>();
    assert_eq!(join_spaced(&texts(&[])), "");
    assert_eq!(join_spaced(&texts(&["a"])), "a");
    assert_eq!(join_spaced(&texts(&["a", "", "b"])), "a  b");
}

#[test]
fn compares_texts() {
    assert!(same("", ""));
    assert!(same("a\u{fc}", "a\u{fc}"));
    assert!(!same("a", "A"));
    assert!(!same("a", "ab"));
}

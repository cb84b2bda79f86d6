use omnichat::wrap::{fill_plain, wrap_message};

fn rejoin(lines: &[String]) -> String {
    lines.join("\n")
}

fn non_space(s: &str) -> String {
    s.chars().filter(|c| !c.is_whitespace()).collect()
}

#[test]
fn wraps_on_word_boundaries() {
    // Sender "ab" reserves four columns, so seven remain on the first line.
    let lines = wrap_message("ab", "hello world", 11);
    assert_eq!(lines, vec!["hello".to_string(), "    world".to_string()]);
}

#[test]
fn short_message_stays_on_one_line() {
    let lines = wrap_message("ab", "hi", 40);
    assert_eq!(lines, vec!["hi".to_string()]);
}

#[test]
fn force_breaks_an_overlong_word() {
    // Five columns on the first line, four on continuations.
    let lines = wrap_message("a", "abcdefghij", 8);
    assert_eq!(
        lines,
        vec!["abcde".to_string(), "    fghi".to_string(), "    j".to_string()]
    );
}

#[test]
fn later_source_lines_are_indented() {
    let lines = wrap_message("a", "one\ntwo", 20);
    assert_eq!(lines, vec!["one".to_string(), "    two".to_string()]);
}

#[test]
fn empty_middle_line_is_kept_and_trailing_blank_lines_are_trimmed() {
    let lines = wrap_message("a", "x\n\ny\n\n", 20);
    assert_eq!(
        lines,
        vec!["x".to_string(), "".to_string(), "    y".to_string()]
    );
}

#[test]
fn whitespace_only_message_wraps_to_nothing() {
    let lines = wrap_message("a", "   \n  ", 20);
    assert!(lines.is_empty());
}

#[test]
fn multiple_spaces_collapse_between_words() {
    let lines = wrap_message("ab", "a   b", 40);
    assert_eq!(lines, vec!["a b".to_string()]);
}

#[test]
fn wrapping_is_idempotent_at_the_same_width() {
    let cases = [
        "hello world this is a longer message that wraps",
        "short",
        "an overlongwordthatneedsbreaking in the middle",
        "first line\nsecond line that is fairly long too\nthird",
        "x\n\ny",
    ];
    for raw in cases {
        let once = wrap_message("alice", raw, 24);
        let again = wrap_message("alice", &rejoin(&once), 24);
        assert_eq!(once, again, "rewrap changed the lines for {raw:?}");
    }
}

#[test]
fn rewrapping_at_another_width_preserves_the_characters() {
    let raw = "the quick brown fox jumps over the lazy dog";
    let narrow = wrap_message("alice", raw, 16);
    let wide = wrap_message("alice", raw, 60);
    assert_ne!(narrow.len(), wide.len());
    assert_eq!(non_space(&rejoin(&narrow)), non_space(raw));
    assert_eq!(non_space(&rejoin(&wide)), non_space(raw));
}

#[test]
fn plain_fill_packs_words_without_indent() {
    let lines = fill_plain("hello world", 5);
    assert_eq!(lines, vec!["hello".to_string(), "world".to_string()]);
}

#[test]
fn plain_fill_of_empty_text_is_one_empty_line() {
    let lines = fill_plain("", 10);
    assert_eq!(lines, vec!["".to_string()]);
}

#[test]
fn plain_fill_joins_words_that_fit() {
    let lines = fill_plain("a b c", 10);
    assert_eq!(lines, vec!["a b c".to_string()]);
}

#[test]
fn format_caches_per_width() {
    let mut m = omnichat::tui::ChanMessage::new("bob".to_string(), "hello world".to_string());
    assert!(m.wrapped_for_width.is_none());
    m.format(12);
    assert_eq!(m.wrapped_for_width, Some(12));
    assert_eq!(m.contents, vec!["hello".to_string(), "    world".to_string()]);
    let before = m.contents.clone();
    m.format(12);
    assert_eq!(m.contents, before);
    m.format(40);
    assert_eq!(m.wrapped_for_width, Some(40));
    assert_eq!(m.contents, vec!["hello world".to_string()]);
}

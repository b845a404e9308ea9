use md_editor::motion::{find_match, first_non_blank, order_pos, word_backward, word_end, word_forward};
use md_editor::text::{byte_to_char, char_count, char_to_byte, clamp_column};

#[test]
fn word_forward_steps_over_words_and_punct() {
    // "foo, bar" — from 'f' to ',' to 'bar'.
    assert_eq!(word_forward("foo, bar", 0), 3); // 'f' -> ','
    assert_eq!(word_forward("foo, bar", 3), 5); // ',' -> 'b'
    assert_eq!(word_forward("foo, bar", 5), 8); // 'b' -> end
    // Trailing position clamps to the line length.
    assert_eq!(word_forward("foo", 1), 3);
}

#[test]
fn word_backward_steps_to_word_starts() {
    assert_eq!(word_backward("foo bar", 6), 4); // within "bar" -> 'b'
    assert_eq!(word_backward("foo bar", 4), 0); // 'b' -> 'f'
    assert_eq!(word_backward("foo", 0), 0); // already at start
}

#[test]
fn word_end_lands_on_last_word_char() {
    assert_eq!(word_end("foo bar", 0), 2); // 'f' -> 'o' (end of foo)
    assert_eq!(word_end("foo bar", 2), 6); // end of foo -> end of bar
}

#[test]
fn first_non_blank_skips_indentation() {
    assert_eq!(first_non_blank("    code"), 4);
    assert_eq!(first_non_blank("code"), 0);
    assert_eq!(first_non_blank("     "), 0);
}

#[test]
fn char_byte_roundtrip_handles_unicode() {
    let line = "héllo"; // 'é' is two bytes
    assert_eq!(char_count(line), 5);
    assert_eq!(char_to_byte(line, 2), 3); // after "hé"
    assert_eq!(byte_to_char(line, 3), 2);
    // A byte offset inside 'é' snaps down to the char boundary.
    assert_eq!(byte_to_char(line, 2), 1);
}

#[test]
fn find_match_wraps_in_both_directions() {
    let lines: Vec<String> = ["alpha", "beta", "alpha"].iter().map(|s| s.to_string()).collect();

    // Forward from (0,0): next "alpha" is on row 2.
    assert_eq!(find_match(&lines, 0, 0, "alpha", true), Some((2, 0)));
    // Forward from (2,0) wraps to row 0.
    assert_eq!(find_match(&lines, 2, 0, "alpha", true), Some((0, 0)));
    // Backward from (2,0): previous "alpha" is row 0.
    assert_eq!(find_match(&lines, 2, 0, "alpha", false), Some((0, 0)));
    // Missing pattern yields nothing.
    assert_eq!(find_match(&lines, 0, 0, "zzz", true), None);
}

#[test]
fn find_match_reports_byte_columns_and_empty_pattern() {
    let lines: Vec<String> = ["héllo wörld", "wörld"].iter().map(|s| s.to_string()).collect();
    // "wörld" on row 0 starts after "héllo " (7 bytes).
    assert_eq!(find_match(&lines, 0, 0, "wörld", true), Some((0, 7)));
    // From that match the next one is on row 1.
    assert_eq!(find_match(&lines, 0, 6, "wörld", true), Some((1, 0)));
    // Backward from row 1 finds the match on row 0.
    assert_eq!(find_match(&lines, 1, 0, "wörld", false), Some((0, 7)));
    // An empty pattern never matches.
    assert_eq!(find_match(&lines, 0, 0, "", true), None);
}

#[test]
fn find_match_overlapping_occurrences() {
    let lines: Vec<String> = vec!["aaa".to_string()];
    assert_eq!(find_match(&lines, 0, 0, "aa", true), Some((0, 1)));
    assert_eq!(find_match(&lines, 0, 1, "aa", true), Some((0, 0)));
    assert_eq!(find_match(&lines, 0, 1, "aa", false), Some((0, 0)));
}

#[test]
fn word_motions_on_edges() {
    assert_eq!(word_forward("", 0), 0);
    assert_eq!(word_forward("   x", 0), 3);
    assert_eq!(word_backward("   ", 3), 0);
    assert_eq!(word_backward("a_b-c", 5), 4);
    assert_eq!(word_end("", 3), 0);
    assert_eq!(word_end("ab   ", 1), 4);
    assert_eq!(word_end("x", 0), 0);
}

#[test]
fn char_to_byte_clamps_past_the_end() {
    assert_eq!(char_to_byte("héllo", 99), 6);
    assert_eq!(char_to_byte("", 0), 0);
    assert_eq!(byte_to_char("héllo", 99), 5);
    // Round trip: a char index to a byte and back.
    for k in 0..=5 {
        assert_eq!(byte_to_char("héllo", char_to_byte("héllo", k)), k);
    }
}

#[test]
fn clamp_column_snaps_to_boundaries() {
    assert_eq!(clamp_column("héllo", 2), 1);
    assert_eq!(clamp_column("héllo", 3), 3);
    assert_eq!(clamp_column("abc", 10), 3);
}

#[test]
fn order_pos_orders_document_positions() {
    assert_eq!(order_pos((2, 1), (1, 5)), ((1, 5), (2, 1)));
    assert_eq!(order_pos((1, 1), (1, 5)), ((1, 1), (1, 5)));
    assert_eq!(order_pos((1, 5), (1, 1)), ((1, 1), (1, 5)));
}

use ajemi::long_glyph::{apply_long_glyph, process_long_glyph, LongGlyphRules};

fn rules_with_wrappable(wrappable: Vec<char>) -> LongGlyphRules {
    LongGlyphRules {
        wrappable,
        negator: 'n',
        wrap_start: '<',
        wrap_end: '>',
        neg_start: '{',
        neg_end: '}',
    }
}

#[test]
fn container_glyph_opens_a_region_closed_at_the_end() {
    // [K, X, Y] -> [K, <, X, Y, >]
    let rules = rules_with_wrappable(vec!['K']);
    let out = apply_long_glyph(&vec!['K', 'X', 'Y'], &rules);
    assert_eq!(out, vec!['K', '<', 'X', 'Y', '>']);
}

#[test]
fn negation_marker_brackets_the_previous_glyph() {
    // [K, n] -> [{, K, }, n]: the premature wrap start opened by K is
    // discarded before the negation brackets go in
    let rules = rules_with_wrappable(vec!['K']);
    let out = apply_long_glyph(&vec!['K', 'n'], &rules);
    assert_eq!(out, vec!['{', 'K', '}', 'n']);
}

#[test]
fn repeat_after_negation_is_wrapped() {
    // [K, n, K] -> [{, K, }, n, <, K, >]
    let rules = rules_with_wrappable(vec!['K']);
    let out = apply_long_glyph(&vec!['K', 'n', 'K'], &rules);
    assert_eq!(out, vec!['{', 'K', '}', 'n', '<', 'K', '>']);
}

#[test]
fn repetition_state_clears_after_one_glyph() {
    // after the wrapped repeat, a further K is an ordinary container again;
    // the region it opens stays empty and its bare start marker is dropped
    let rules = rules_with_wrappable(vec!['K']);
    let out = apply_long_glyph(&vec!['K', 'n', 'K', 'K'], &rules);
    assert_eq!(out, vec!['{', 'K', '}', 'n', '<', 'K', '>', 'K']);
}

#[test]
fn identity_without_containers_and_negators() {
    let rules = rules_with_wrappable(vec!['K']);
    let input = vec!['X', 'Y', 'Z', 'X'];
    assert_eq!(apply_long_glyph(&input, &rules), input);
    let empty: Vec<char> = vec![];
    assert_eq!(apply_long_glyph(&empty, &rules), empty);
}

#[test]
fn open_region_is_closed_before_negation() {
    // [K, X, n]: the region around X closes, then X is bracketed
    let rules = rules_with_wrappable(vec!['K']);
    let out = apply_long_glyph(&vec!['K', 'X', 'n'], &rules);
    assert_eq!(out, vec!['K', '<', '>', '{', 'X', '}', 'n']);
}

#[test]
fn leading_negation_marker_passes_through() {
    let rules = rules_with_wrappable(vec!['K']);
    let out = apply_long_glyph(&vec!['n', 'X'], &rules);
    assert_eq!(out, vec!['n', 'X']);
}

#[test]
fn trailing_bare_wrap_start_is_discarded() {
    // a container as the last glyph leaves an empty region behind
    let rules = rules_with_wrappable(vec!['K']);
    let out = apply_long_glyph(&vec!['X', 'K'], &rules);
    assert_eq!(out, vec!['X', 'K']);
}

#[test]
fn second_container_does_not_reopen() {
    let rules = rules_with_wrappable(vec!['K']);
    let out = apply_long_glyph(&vec!['K', 'K', 'X'], &rules);
    assert_eq!(out, vec!['K', '<', 'K', 'X', '>']);
}

#[test]
fn sitelen_pass_wraps_after_kepeken() {
    // mi kepeken toki: kepeken opens a region that runs to the end
    let mut text = String::from("\u{f1934}\u{f1919}\u{f196c}");
    process_long_glyph(&mut text);
    assert_eq!(text, "\u{f1934}\u{f1919}\u{f1997}\u{f196c}\u{f1998}");
}

#[test]
fn sitelen_pass_brackets_before_ala() {
    // mi ala: mi is bracketed between the reverse long glyph markers
    let mut text = String::from("\u{f1934}\u{f1902}");
    process_long_glyph(&mut text);
    assert_eq!(text, "\u{f199a}\u{f1934}\u{f199b}\u{f1902}");
}

#[test]
fn sitelen_pass_wraps_ala_reduplication() {
    // ken ala ken: the repeated ken after ala is wrapped as shorthand
    let mut text = String::from("\u{f1918}\u{f1902}\u{f1918}");
    process_long_glyph(&mut text);
    assert_eq!(
        text,
        "\u{f199a}\u{f1918}\u{f199b}\u{f1902}\u{f1997}\u{f1918}\u{f1998}"
    );
}

#[test]
fn sitelen_pass_leaves_plain_words_alone() {
    // toki pona has no container glyph and no ala
    let mut text = String::from("\u{f196c}\u{f1954}");
    process_long_glyph(&mut text);
    assert_eq!(text, "\u{f196c}\u{f1954}");
}

use ajemi::engine::{convert_punct, suggest};
use ajemi::schema::{emoji, sitelen};

#[test]
fn sitelen_segments_a_sentence() {
    let schema = sitelen();
    // mi lukin e kije(tesantakalu) nasa; in the trailing "lol" the "l" is
    // ambiguous and dropped, then "ol" abbreviates olin
    assert_eq!(
        suggest(&schema, "milukinekijenasalol"),
        "\u{f1934}\u{f192e}\u{f1909}\u{f1980}\u{f193e}\u{f1945}"
    );
    assert_eq!(suggest(&schema, "toki"), "\u{f196c}");
    assert_eq!(suggest(&schema, "tokipona"), "\u{f196c}\u{f1954}");
}

#[test]
fn sitelen_remaps_punctuation() {
    let schema = sitelen();
    assert_eq!(convert_punct(&schema, '['), '\u{f1990}');
    assert_eq!(convert_punct(&schema, '.'), '\u{f199c}');
    assert_eq!(convert_punct(&schema, '-'), '\u{200d}');
    assert_eq!(convert_punct(&schema, ' '), '\u{3000}');
    assert_eq!(convert_punct(&schema, 'q'), 'q');
}

#[test]
fn emoji_resolves_homophones_to_the_first_glyph() {
    let schema = emoji();
    assert_eq!(suggest(&schema, "akesi"), "\u{1f98e}");
    assert_eq!(suggest(&schema, "kijetesantakalu"), "\u{1f9a1}");
}

#[test]
fn emoji_remaps_both_brackets_to_the_same_glyph() {
    let schema = emoji();
    assert_eq!(convert_punct(&schema, '['), '\u{1f58c}');
    assert_eq!(convert_punct(&schema, ']'), '\u{1f58c}');
    assert_eq!(convert_punct(&schema, '('), '(');
}

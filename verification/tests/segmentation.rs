use ajemi::engine::suggest;
use ajemi::schema::Schema;

#[test]
fn scenario_three_word_sentence() {
    // dictionary {"mi"->"M","lukin"->"L","e"->"E"}: "milukine" splits after
    // "mi", "lukin", "e"
    let schema = Schema::new(vec![("mi", "M"), ("lukin", "L"), ("e", "E")], vec![]);
    let (bounds, out) = schema.segment("milukine");
    assert_eq!(out, "MLE");
    assert_eq!(
        bounds,
        vec![
            (2, String::from("M")),
            (7, String::from("L")),
            (8, String::from("E")),
        ]
    );
}

#[test]
fn spelling_alone_yields_its_glyph() {
    let schema = Schema::new(vec![("mi", "M"), ("lukin", "L"), ("e", "E")], vec![]);
    let (bounds, out) = schema.segment("lukin");
    assert_eq!(out, "L");
    assert_eq!(bounds, vec![(5, String::from("L"))]);
    assert_eq!(suggest(&schema, "mi"), "M");
    assert_eq!(suggest(&schema, "e"), "E");
}

#[test]
fn unique_prefix_resolves_to_its_spelling() {
    let schema = Schema::new(vec![("ma", "A"), ("mama", "B")], vec![]);
    assert_eq!(suggest(&schema, "ma"), "A");
    assert_eq!(suggest(&schema, "mam"), "B");
    // "m" begins both spellings, so it stays ambiguous and resolves to
    // nothing
    assert_eq!(suggest(&schema, "m"), "");
}

#[test]
fn ambiguous_prefix_segments_to_nothing() {
    // "ab" is shared by both spellings, "a" as well, and "b" is no key at
    // all: every character is dropped
    let schema = Schema::new(vec![("abc", "X"), ("abd", "Y")], vec![]);
    let (bounds, out) = schema.segment("ab");
    assert_eq!(out, "");
    assert_eq!(bounds, vec![]);
}

#[test]
fn unmatched_character_is_dropped_and_matching_resumes() {
    let schema = Schema::new(vec![("mi", "M"), ("e", "E")], vec![]);
    assert_eq!(suggest(&schema, "xmie"), "ME");
    assert_eq!(suggest(&schema, "mixe"), "ME");
    assert_eq!(suggest(&schema, "miex"), "ME");
}

#[test]
fn empty_input_segments_to_nothing() {
    let schema = Schema::new(vec![("mi", "M")], vec![]);
    let (bounds, out) = schema.segment("");
    assert_eq!(out, "");
    assert_eq!(bounds, vec![]);
}

#[test]
fn longest_match_wins_over_shorter_spelling() {
    // "mama" is preferred to "ma" + unmatched rest
    let schema = Schema::new(vec![("ma", "A"), ("mama", "B")], vec![]);
    assert_eq!(suggest(&schema, "mama"), "B");
    assert_eq!(suggest(&schema, "mamama"), "BA");
    assert_eq!(suggest(&schema, "mama"), "B");
}

#[test]
fn test() {
    let schema = Schema::new(
        vec![
            ("mi", "\u{6211}"),
            ("lukin", "\u{770b}"),
            ("e", "\u{516e}"),
            ("kijetesantakalu", "\u{72f8}"),
            ("nasa", "\u{602a}"),
            ("lape", "\u{7720}"),
        ],
        vec![],
    );
    // "kije" abbreviates the one spelling it begins; trailing "lol" finds
    // no key of any length and is dropped letter by letter
    let suggestion = suggest(&schema, "milukinekijenasalol");
    assert_eq!(suggestion, "\u{6211}\u{770b}\u{516e}\u{72f8}\u{602a}");
}

#[test]
fn test_dict() {
    let schema = Schema::new(
        vec![
            ("mi", "\u{6211}"),
            ("lukin", "\u{770b}"),
            ("e", "\u{516e}"),
            ("kijetesantakalu", "\u{72f8}"),
            ("nasa", "\u{602a}"),
            ("lape", "\u{7720}"),
        ],
        vec![],
    );
    assert_eq!(suggest(&schema, "kije"), "\u{72f8}");
    assert_eq!(suggest(&schema, "lap"), "\u{7720}");
    // "l" alone is shared by "lukin" and "lape" and resolves to nothing
    assert_eq!(suggest(&schema, "l"), "");
    let (bounds, out) = schema.segment("milukinekijenasalol");
    assert_eq!(out, "\u{6211}\u{770b}\u{516e}\u{72f8}\u{602a}");
    assert_eq!(
        bounds,
        vec![
            (2, String::from("\u{6211}")),
            (7, String::from("\u{770b}")),
            (8, String::from("\u{516e}")),
            (12, String::from("\u{72f8}")),
            (16, String::from("\u{602a}")),
        ]
    );
}

#[test]
fn homophones_resolve_to_the_first_glyph() {
    let schema = Schema::new(vec![("akesi", "R"), ("akesi", "F")], vec![]);
    assert_eq!(suggest(&schema, "akesi"), "R");
    assert_eq!(suggest(&schema, "ake"), "R");
}

#[test]
fn punctuation_absent_from_the_table_passes_through() {
    let schema = Schema::new(vec![], vec![('[', '\u{f1990}'), (']', '\u{f1991}')]);
    assert_eq!(ajemi::engine::convert_punct(&schema, '['), '\u{f1990}');
    assert_eq!(ajemi::engine::convert_punct(&schema, ']'), '\u{f1991}');
    assert_eq!(ajemi::engine::convert_punct(&schema, 'q'), 'q');
    assert_eq!(ajemi::engine::convert_punct(&schema, '!'), '!');
}

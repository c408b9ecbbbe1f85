use ajemi::schema::{Candidate, Schema};

fn stored<'a>(schema: &'a Schema, key: &str) -> Option<&'a Candidate> {
    let mut i = 0;
    while i < schema.candis.len() {
        if schema.candis[i].0 == key {
            return Some(&schema.candis[i].1);
        }
        i += 1;
    }
    None
}

#[test]
fn classifies_exact_unique_and_shared_prefixes() {
    let schema = Schema::new(vec![("ma", "A"), ("mama", "B")], vec![]);
    match stored(&schema, "ma") {
        Some(Candidate::Exact(word, alts)) => {
            assert_eq!(word, "A");
            assert_eq!(alts, &vec![String::from("B")]);
        },
        _ => panic!("\"ma\" must stay exact at its own key"),
    }
    // "m" begins both spellings, so it is ambiguous
    match stored(&schema, "m") {
        Some(Candidate::Duplicates(words)) => {
            assert_eq!(words, &vec![String::from("A"), String::from("B")]);
        },
        _ => panic!("\"m\" is shared by two spellings"),
    }
    assert!(matches!(stored(&schema, "mam"), Some(Candidate::Unique(w)) if w == "B"));
    assert!(matches!(stored(&schema, "mama"), Some(Candidate::Exact(w, _)) if w == "B"));
    assert!(stored(&schema, "x").is_none());
}

#[test]
fn shared_prefix_becomes_duplicates_in_input_order() {
    let schema = Schema::new(vec![("anpa", "P"), ("ante", "T"), ("anu", "U")], vec![]);
    match stored(&schema, "an") {
        Some(Candidate::Duplicates(words)) => {
            assert_eq!(
                words,
                &vec![String::from("P"), String::from("T"), String::from("U")]
            );
        },
        _ => panic!("\"an\" is shared by three spellings"),
    }
    match stored(&schema, "a") {
        Some(Candidate::Duplicates(words)) => {
            assert_eq!(words.len(), 3);
        },
        _ => panic!("\"a\" is shared by three spellings"),
    }
}

#[test]
fn repeated_spelling_keeps_first_glyph_and_collects_alternates() {
    let schema = Schema::new(vec![("akesi", "R"), ("akesi", "F")], vec![]);
    match stored(&schema, "akesi") {
        Some(Candidate::Exact(word, alts)) => {
            assert_eq!(word, "R");
            assert_eq!(alts, &vec![String::from("F")]);
        },
        _ => panic!("a repeated spelling stays exact with its first glyph"),
    }
    // the homophone entry runs no prefix pass of its own
    assert!(matches!(stored(&schema, "a"), Some(Candidate::Unique(w)) if w == "R"));
}

#[test]
fn exact_key_survives_earlier_prefix_classification() {
    // the prefix "ma" is classified before "ma" arrives as a spelling;
    // the spelling then wins at its own key
    let schema = Schema::new(vec![("mama", "B"), ("ma", "A")], vec![]);
    match stored(&schema, "ma") {
        Some(Candidate::Exact(word, alts)) => {
            assert_eq!(word, "A");
            // installing the spelling starts a fresh alternates list
            assert!(alts.is_empty());
        },
        _ => panic!("a spelling always ends exact at its own key"),
    }
    match stored(&schema, "m") {
        Some(Candidate::Duplicates(words)) => {
            assert_eq!(words, &vec![String::from("B"), String::from("A")]);
        },
        _ => panic!("\"m\" is shared by two spellings"),
    }
}

#[test]
fn later_punctuation_pair_wins() {
    let schema = Schema::new(vec![], vec![('[', 'x'), ('[', 'y')]);
    assert_eq!(schema.puncts.len(), 1);
    assert_eq!(ajemi::engine::convert_punct(&schema, '['), 'y');
}

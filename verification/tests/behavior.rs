use spellcheck::corpus::from_corpus;
use spellcheck::edits::edit_distance1;
use spellcheck::engine::{correct, suggest};
use spellcheck::table::{CorpusError, FrequencyTable};

#[test]
fn identity_for_word_in_table() {
    let mut t = FrequencyTable::new();
    t.insert("hello", 5);
    assert_eq!(correct(&t, "hello"), "hello");
}

#[test]
fn identity_is_case_sensitive() {
    let mut t = FrequencyTable::new();
    t.insert("Cat", 3);
    assert_eq!(correct(&t, "Cat"), "Cat");
}

#[test]
fn identity_for_zero_count_word() {
    let mut t = FrequencyTable::new();
    t.insert("speling", 0);
    assert_eq!(correct(&t, "speling"), "speling");
}

#[test]
fn edit1_empty_word_counts() {
    let cands = edit_distance1("");
    // 26 * (len + 1) insertions, 26 * len substitutions, no deletions or
    // transpositions for len <= 1.
    assert_eq!(cands.len(), 26);
    assert_eq!(cands[0], "a");
    assert_eq!(cands[25], "z");
}

#[test]
fn edit1_single_char_counts() {
    let cands = edit_distance1("a");
    assert_eq!(cands.len(), 26 * 2 + 26);
}

#[test]
fn edit1_cat_count() {
    // 26*4 insertions + 3 deletions + 2 transpositions + 26*3 substitutions.
    assert_eq!(edit_distance1("cat").len(), 187);
}

#[test]
fn edit1_cat_members() {
    let cands = edit_distance1("cat");
    assert!(cands.iter().any(|w| w.as_str() == "cart"));
    assert!(cands.iter().any(|w| w.as_str() == "at"));
    assert!(cands.iter().any(|w| w.as_str() == "act"));
    assert!(cands.iter().any(|w| w.as_str() == "cut"));
    assert!(cands.iter().any(|w| w.as_str() == "cat"));
}

#[test]
fn edit1_lowercases_first() {
    let cands = edit_distance1("CAT");
    assert!(cands.iter().any(|w| w.as_str() == "cut"));
    assert!(!cands.iter().any(|w| w.as_str() == "CUT"));
}

#[test]
fn counting_is_order_independent() {
    let t1 = from_corpus("a b a");
    let t2 = from_corpus("b a a");
    assert_eq!(t1.get("a"), Some(2));
    assert_eq!(t1.get("b"), Some(1));
    assert_eq!(t1.len(), 2);
    assert_eq!(t2.get("a"), Some(2));
    assert_eq!(t2.get("b"), Some(1));
    assert_eq!(t2.len(), 2);
}

#[test]
fn corpus_lowercases_and_splits_on_non_letters() {
    let t = from_corpus("Hello, HELLO world123");
    assert_eq!(t.get("hello"), Some(2));
    assert_eq!(t.get("world"), Some(1));
    assert_eq!(t.get("Hello"), None);
    assert_eq!(t.len(), 2);
}

#[test]
fn empty_corpus_gives_empty_table() {
    let t = from_corpus("");
    assert_eq!(t.len(), 0);
}

#[test]
fn short_word_threshold_boundary_keeps_distance_one() {
    // "abs" is one edit from "ab", "abst" is two; at exactly 100 times the
    // distance-one count the distance-two winner must not be chosen.
    let mut t = FrequencyTable::new();
    t.insert("abs", 3);
    t.insert("abst", 300);
    assert_eq!(correct(&t, "ab"), "abs");
}

#[test]
fn short_word_threshold_crossing_switches() {
    let mut t = FrequencyTable::new();
    t.insert("abs", 3);
    t.insert("abst", 301);
    assert_eq!(correct(&t, "ab"), "abst");
}

#[test]
fn long_word_threshold_boundary_keeps_distance_one() {
    // "spelling" is one edit from "speling", "spellings" is two; the factor
    // for words of six or more characters is 4.
    let mut t = FrequencyTable::new();
    t.insert("spelling", 5);
    t.insert("spellings", 20);
    assert_eq!(correct(&t, "speling"), "spelling");
}

#[test]
fn long_word_threshold_crossing_switches() {
    let mut t = FrequencyTable::new();
    t.insert("spelling", 5);
    t.insert("spellings", 21);
    assert_eq!(correct(&t, "speling"), "spellings");
}

#[test]
fn transposition_is_corrected() {
    let mut t = FrequencyTable::new();
    t.insert("the", 50);
    assert_eq!(correct(&t, "teh"), "the");
}

#[test]
fn deletion_distance_is_corrected() {
    let mut t = FrequencyTable::new();
    t.insert("spelling", 30);
    assert_eq!(correct(&t, "speling"), "spelling");
}

#[test]
fn unknown_word_returns_itself() {
    let t = FrequencyTable::new();
    assert_eq!(correct(&t, "xyzzy"), "xyzzy");
    // The fallback keeps the word as given, not lowercased.
    assert_eq!(correct(&t, "Xyzzy"), "Xyzzy");
}

#[test]
fn empty_query_picks_any_scoring_insertion() {
    let mut t = FrequencyTable::new();
    t.insert("a", 1);
    assert_eq!(correct(&t, ""), "a");
}

#[test]
fn suggest_matches_correct() {
    let mut t = FrequencyTable::new();
    t.insert("the", 50);
    assert_eq!(suggest(&t, "teh"), "the");
}

#[test]
fn cache_round_trip() {
    let t = from_corpus("the cat sat on the mat the end");
    let s = t.to_cache();
    let t2 = FrequencyTable::from_cache(&s).unwrap();
    assert_eq!(t2.len(), t.len());
    assert_eq!(t2.get("the"), Some(3));
    assert_eq!(t2.get("cat"), Some(1));
    assert_eq!(t2.get("mat"), Some(1));
    assert_eq!(t2.get("dog"), None);
}

#[test]
fn cache_text_is_a_json_object() {
    let mut t = FrequencyTable::new();
    t.insert("b", 1);
    t.insert("a", 2);
    assert_eq!(t.to_cache(), "{\"a\":2,\"b\":1}");
}

#[test]
fn cache_parses_known_text() {
    let t = FrequencyTable::from_cache("{\"teh\":1,\"the\":50}").unwrap();
    assert_eq!(t.get("the"), Some(50));
    assert_eq!(t.get("teh"), Some(1));
    assert_eq!(t.len(), 2);
}

#[test]
fn corrupt_cache_is_rejected() {
    let r = FrequencyTable::from_cache("not a cache");
    assert_eq!(r.unwrap_err(), CorpusError::CacheCorrupt);
    let r2 = FrequencyTable::from_cache("{\"a\":\"b\"}");
    assert!(r2.is_err());
}

#[test]
fn insert_overwrites_existing_word() {
    let mut t = FrequencyTable::new();
    t.insert("a", 1);
    t.insert("a", 5);
    assert_eq!(t.get("a"), Some(5));
    assert_eq!(t.len(), 1);
}

#[test]
fn increment_counts_from_zero() {
    let mut t = FrequencyTable::new();
    t.increment("x");
    t.increment("x");
    t.increment("y");
    assert_eq!(t.get("x"), Some(2));
    assert_eq!(t.get("y"), Some(1));
    assert_eq!(t.get("z"), None);
}

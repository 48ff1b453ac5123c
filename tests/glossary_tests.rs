use subtitle_cache::glossary::{
    apply_glossary, contains_glossary_terms, create_index, find_translation, replace_all,
};
use subtitle_cache::types::GlossaryEntry;

fn entry(id: &str, source: &str, target: &str) -> GlossaryEntry {
    GlossaryEntry {
        id: id.to_string(),
        source: source.to_string(),
        target: target.to_string(),
        description: None,
        context: None,
    }
}

#[test]
fn find_translation_ignores_ascii_case() {
    let g = vec![entry("1", "Hello", "Bonjour"), entry("2", "hello", "Salut")];
    assert_eq!(find_translation(&g, "HELLO").unwrap().id, "1");
    assert!(find_translation(&g, "hell").is_none());
    assert!(find_translation(&[], "x").is_none());
}

#[test]
fn contains_terms_is_case_sensitive() {
    let g = vec![entry("1", "York", "Йорк")];
    assert!(contains_glossary_terms("New York", &g));
    assert!(!contains_glossary_terms("new york", &g));
    assert!(!contains_glossary_terms("anything", &[]));
}

#[test]
fn longer_terms_replaced_first() {
    let g = vec![entry("1", "York", "Y"), entry("2", "New York", "NYC")];
    assert_eq!(apply_glossary("I love New York and York", &g), "I love NYC and Y");
}

#[test]
fn equal_length_terms_in_glossary_order() {
    let g = vec![entry("1", "ab", "cd"), entry("2", "cd", "ef")];
    assert_eq!(apply_glossary("ab", &g), "ef");
    let g2 = vec![entry("1", "cd", "ef"), entry("2", "ab", "cd")];
    assert_eq!(apply_glossary("ab", &g2), "cd");
}

#[test]
fn empty_glossary_keeps_text() {
    assert_eq!(apply_glossary("text", &[]), "text");
}

#[test]
fn empty_source_term_inserts_everywhere() {
    let g = vec![entry("1", "", "-")];
    assert_eq!(apply_glossary("ab", &g), "-a-b-");
}

#[test]
fn index_by_lowercase_keeps_last() {
    let g = vec![entry("1", "Cat", "chat"), entry("2", "CAT", "matou"), entry("3", "Dog", "chien")];
    let idx = create_index(&g);
    assert_eq!(idx.get("cat").unwrap().id, "2");
    assert_eq!(idx.get("dog").unwrap().target, "chien");
    assert!(idx.get("Dog").is_none());
}

#[test]
fn replace_all_matches_std_replace() {
    let cases = [
        ("aaa", "aa", "b"),
        ("abcabc", "bc", "XY"),
        ("héllo wörld", "ö", "oe"),
        ("ab", "", "-"),
        ("", "", "-"),
        ("", "x", "y"),
        ("short", "longer pattern", "z"),
        ("end match", "match", "M"),
    ];
    for (s, from, to) in cases {
        assert_eq!(replace_all(s, from, to), s.replace(from, to));
    }
    assert_eq!(replace_all("aaa", "aa", "b"), "ba");
}

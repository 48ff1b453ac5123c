use subtitle_cache::cache::Cache;
use subtitle_cache::digest::digest_bytes;
use subtitle_cache::hex::lower_hex;

#[test]
fn lower_hex_pads_each_byte() {
    assert_eq!(lower_hex(&[10, 20, 30]), "0a141e");
    assert_eq!(lower_hex(&[0, 255]), "00ff");
    assert_eq!(lower_hex(&[]), "");
}

#[test]
fn digest_of_known_inputs() {
    assert_eq!(
        digest_bytes(b"abc"),
        "ba7816bf8f01cfea414140de5dae2223b00361a396177a9cb410ff61f20015ad"
    );
    assert_eq!(
        digest_bytes(b""),
        "e3b0c44298fc1c149afbf4c8996fb92427ae41e4649b934ca495991b7852b855"
    );
}

#[test]
fn digest_is_repeatable() {
    let data: Vec<u8> = (0..10000u32).map(|i| (i % 251) as u8).collect();
    let a = digest_bytes(&data);
    let b = digest_bytes(&data);
    assert_eq!(a, b);
    assert_eq!(a.len(), 64);
    assert!(a.chars().all(|c| c.is_ascii_hexdigit() && !c.is_ascii_uppercase()));
}

#[test]
fn digest_differs_on_one_byte() {
    assert_ne!(digest_bytes(b"hello"), digest_bytes(b"hellp"));
}

const SEGS: &str = r#"[{"id":1,"start":0.0,"end":1.5,"duration":1.5,"text":"hi","translation":null,"flags":null}]"#;

#[test]
fn translation_key_depends_on_style() {
    let formal = Cache::generate_translation_cache_key(SEGS, "[]", "French", "formal");
    let casual = Cache::generate_translation_cache_key(SEGS, "[]", "French", "casual");
    assert_ne!(formal, casual);
}

#[test]
fn translation_key_depends_on_each_input() {
    let base = Cache::generate_translation_cache_key(SEGS, "[]", "French", "formal");
    assert_eq!(base, Cache::generate_translation_cache_key(SEGS, "[]", "French", "formal"));
    assert_ne!(base, Cache::generate_translation_cache_key("[]", "[]", "French", "formal"));
    let glossary = r#"[{"id":"g1","source":"cat","target":"chat","description":null,"context":null}]"#;
    assert_ne!(base, Cache::generate_translation_cache_key(SEGS, glossary, "French", "formal"));
    assert_ne!(base, Cache::generate_translation_cache_key(SEGS, "[]", "German", "formal"));
    assert_ne!(base, Cache::generate_translation_cache_key(SEGS, "[]", "French", "formal "));
}

#[test]
fn translation_key_is_digest_of_concatenation() {
    let key = Cache::generate_translation_cache_key("ab", "c", "de", "f");
    assert_eq!(key, digest_bytes(b"abcdef"));
}

use subtitle_cache::cache::{
    entry_file_name, new_entry, read_entry, snapshot_file_name, snapshot_is_fresh, stamped_entry, Cache,
    EntryError,
};
use subtitle_cache::entry::{frame_entry, parse_entry, EntryKind};
use subtitle_cache::expiry::{is_expired, ExpiryPolicy};
use subtitle_cache::memory::MemoryIndex;

const DIGEST: &str = "abc123";
const SEGS: &str = r#"[{"id":1,"start":0.0,"end":1.5,"duration":1.5,"text":"hi","translation":null,"flags":null}]"#;
const DAY: i64 = 86400;

fn stamp_secs(stamp: &str) -> i64 {
    chrono::DateTime::parse_from_rfc3339(stamp).unwrap().timestamp()
}

#[test]
fn file_names_follow_entry_kind() {
    assert_eq!(entry_file_name(EntryKind::Transcription, "abc"), "transcribe_abc.json");
    assert_eq!(entry_file_name(EntryKind::Translation, "abc"), "translate_abc.json");
    assert_eq!(snapshot_file_name("p1"), "project_p1.json");
}

#[test]
fn entry_text_matches_serde_layout() {
    let e = frame_entry(EntryKind::Transcription, b"abc", b"[]", b"2024-01-01T00:00:00+00:00");
    assert_eq!(
        String::from_utf8(e).unwrap(),
        r#"{"file_hash":"abc","segments":[],"created_at":"2024-01-01T00:00:00+00:00"}"#
    );
    let t = frame_entry(EntryKind::Translation, b"k", b"[1]", b"x");
    assert_eq!(
        String::from_utf8(t).unwrap(),
        r#"{"cache_key":"k","translations":[1],"created_at":"x"}"#
    );
}

#[test]
fn entry_round_trip() {
    let payload = br#"[{"text":",\"created_at\":\"tricky"}]"#;
    let stamp = b"2024-05-01T10:00:00.123+02:00";
    let e = frame_entry(EntryKind::Translation, b"key", payload, stamp);
    let (p, s) = parse_entry(EntryKind::Translation, b"key", &e).unwrap();
    assert_eq!(p, payload.to_vec());
    assert_eq!(s, stamp.to_vec());
}

#[test]
fn entry_of_other_key_or_kind_is_rejected() {
    let e = frame_entry(EntryKind::Transcription, b"key", b"[]", b"t");
    assert!(parse_entry(EntryKind::Transcription, b"other", &e).is_none());
    assert!(parse_entry(EntryKind::Translation, b"key", &e).is_none());
}

#[test]
fn invalid_json_entry_is_rejected() {
    assert!(parse_entry(EntryKind::Transcription, b"abc", b"{not json").is_none());
    assert!(parse_entry(EntryKind::Transcription, b"abc", b"").is_none());
}

#[test]
fn expiry_compares_age_with_max_age() {
    let p = ExpiryPolicy::entries();
    assert!(!is_expired(0, 30 * DAY, p));
    assert!(is_expired(0, 30 * DAY + 1, p));
    assert!(is_expired(0, 31 * DAY - 1, p));
    assert!(!is_expired(100, 0, p));
    let s = ExpiryPolicy::snapshots();
    assert!(!is_expired(0, 60 * 60, s));
    assert!(is_expired(0, 60 * 60 + 1, s));
    assert!(is_expired(i64::MIN, i64::MAX, p));
    assert!(!is_expired(i64::MAX, i64::MIN, p));
}

#[test]
fn fresh_entry_reads_back() {
    let (e, created) = new_entry(EntryKind::Transcription, DIGEST, SEGS.as_bytes()).unwrap();
    let text = String::from_utf8(e.clone()).unwrap();
    let stamp = text.rsplit("\"created_at\":\"").next().unwrap().trim_end_matches("\"}");
    assert_eq!(stamp_secs(stamp), created);
    assert!((created - chrono::Utc::now().timestamp()).abs() <= 5);
    let r = read_entry(EntryKind::Transcription, DIGEST, Some(&e), created, ExpiryPolicy::entries());
    assert_eq!(r.payload, Some(SEGS.as_bytes().to_vec()));
    assert!(!r.discard);
    let last = read_entry(EntryKind::Transcription, DIGEST, Some(&e), created + 30 * DAY, ExpiryPolicy::entries());
    assert_eq!(last.payload, Some(SEGS.as_bytes().to_vec()));
    let gone = read_entry(EntryKind::Transcription, DIGEST, Some(&e), created + 30 * DAY + 1, ExpiryPolicy::entries());
    assert_eq!(gone.payload, None);
    assert!(gone.discard);
}

#[test]
fn later_write_wins_on_read_back() {
    let (first, _) = new_entry(EntryKind::Transcription, DIGEST, b"[1]").unwrap();
    let (second, created) = new_entry(EntryKind::Transcription, DIGEST, b"[2]").unwrap();
    assert_ne!(first, second);
    let mut fresh = Cache::new();
    let r = fresh.resolve_transcription_at(DIGEST, Some(&second), created);
    assert_eq!(r.payload, Some(b"[2]".to_vec()));
    assert_eq!(fresh.memory_transcription(DIGEST), Some(b"[2]".to_vec()));
}

#[test]
fn expired_entry_is_absent_and_discarded() {
    let e = frame_entry(EntryKind::Translation, b"k", b"[]", b"2024-01-01T00:00:00+00:00");
    let created = stamp_secs("2024-01-01T00:00:00+00:00");
    let r = read_entry(EntryKind::Translation, "k", Some(&e), created + 30 * DAY + 1, ExpiryPolicy::entries());
    assert_eq!(r.payload, None);
    assert!(r.discard);
    let again = read_entry(EntryKind::Translation, "k", None, created + 30 * DAY + 1, ExpiryPolicy::entries());
    assert_eq!(again.payload, None);
    assert!(!again.discard);
    let fresh = read_entry(EntryKind::Translation, "k", Some(&e), created + 30 * DAY, ExpiryPolicy::entries());
    assert_eq!(fresh.payload, Some(b"[]".to_vec()));
}

#[test]
fn corrupt_entry_is_absent_not_an_error() {
    let r = read_entry(EntryKind::Transcription, DIGEST, Some(b"{\"file_hash\": garbage"), 0, ExpiryPolicy::entries());
    assert_eq!(r.payload, None);
    assert!(r.discard);
    let bad_stamp = frame_entry(EntryKind::Transcription, DIGEST.as_bytes(), b"[]", b"yesterday");
    let r2 = read_entry(EntryKind::Transcription, DIGEST, Some(&bad_stamp), 0, ExpiryPolicy::entries());
    assert_eq!(r2.payload, None);
    assert!(r2.discard);
}

#[test]
fn fresh_miss_then_hit() {
    let mut cache = Cache::new();
    assert_eq!(cache.memory_transcription(DIGEST), None);
    let miss = cache.resolve_transcription(DIGEST, None);
    assert_eq!(miss.payload, None);
    let (e, _) = new_entry(EntryKind::Transcription, DIGEST, SEGS.as_bytes()).unwrap();
    cache.remember_transcription(DIGEST, SEGS.as_bytes().to_vec());
    assert_eq!(cache.memory_transcription(DIGEST), Some(SEGS.as_bytes().to_vec()));
    let mut restarted = Cache::new();
    let hit = restarted.resolve_transcription(DIGEST, Some(&e));
    assert_eq!(hit.payload, Some(SEGS.as_bytes().to_vec()));
    assert_eq!(restarted.memory_transcription(DIGEST), Some(SEGS.as_bytes().to_vec()));
}

#[test]
fn disjoint_digests_do_not_interfere() {
    let mut cache = Cache::new();
    cache.remember_transcription("aaa", b"[1]".to_vec());
    cache.remember_transcription("bbb", b"[2]".to_vec());
    cache.remember_transcription("bbb", b"[3]".to_vec());
    assert_eq!(cache.memory_transcription("aaa"), Some(b"[1]".to_vec()));
    assert_eq!(cache.memory_transcription("bbb"), Some(b"[3]".to_vec()));
    assert_ne!(entry_file_name(EntryKind::Transcription, "aaa"), entry_file_name(EntryKind::Transcription, "bbb"));
}

#[test]
fn memory_index_replaces_value() {
    let mut m = MemoryIndex::new();
    assert_eq!(m.get("x"), None);
    m.put("x", vec![1]);
    m.put("y", vec![2]);
    m.put("x", vec![3]);
    assert_eq!(m.get("x"), Some(vec![3]));
    assert_eq!(m.get("y"), Some(vec![2]));
}

#[test]
fn stale_project_snapshot_is_not_served() {
    let now = chrono::Utc::now();
    let old = (now - chrono::Duration::minutes(61)).to_rfc3339();
    let just_over = (now - chrono::Duration::seconds(3601)).to_rfc3339();
    assert!(!snapshot_is_fresh(&just_over, now.timestamp()));
    let recent = (now - chrono::Duration::minutes(59)).to_rfc3339();
    assert!(!snapshot_is_fresh(&old, now.timestamp()));
    assert!(snapshot_is_fresh(&recent, now.timestamp()));
    assert!(!snapshot_is_fresh("not a time", now.timestamp()));
}

#[test]
fn stamped_entry_outcomes() {
    let stamp = b"2024-05-01T10:00:00+00:00";
    let (text, created) = stamped_entry(EntryKind::Transcription, DIGEST, b"[]", stamp).unwrap();
    assert_eq!(created, stamp_secs("2024-05-01T10:00:00+00:00"));
    assert_eq!(text, frame_entry(EntryKind::Transcription, DIGEST.as_bytes(), b"[]", stamp));
    assert_eq!(
        stamped_entry(EntryKind::Transcription, DIGEST, b"[]", b"+10000-01-01T00:00:00+00:00"),
        Err(EntryError::StampUnreadable)
    );
    assert_eq!(stamped_entry(EntryKind::Translation, "a\\b", b"[]", stamp), Err(EntryError::KeyNotPlain));
    assert_eq!(stamped_entry(EntryKind::Translation, "a\"b", b"[]", stamp), Err(EntryError::KeyNotPlain));
    assert!(new_entry(EntryKind::Translation, "x\"y", b"[]").is_err());
}

#[test]
fn writing_the_first_transcription_succeeds() {
    let mut cache = Cache::new();
    assert_eq!(cache.memory_transcription(DIGEST), None);
    assert!(cache.resolve_transcription(DIGEST, None).payload.is_none());
    let written = new_entry(EntryKind::Transcription, DIGEST, SEGS.as_bytes());
    assert!(written.is_ok());
}

#[test]
fn many_distinct_digests_keep_their_payloads() {
    let mut cache = Cache::new();
    let digests: Vec<String> = (0..50).map(|i| format!("d{:02}", i)).collect();
    for (i, d) in digests.iter().enumerate().rev() {
        cache.remember_transcription(d, vec![i as u8]);
    }
    for (i, d) in digests.iter().enumerate() {
        assert_eq!(cache.memory_transcription(d), Some(vec![i as u8]));
    }
    let names: std::collections::HashSet<String> =
        digests.iter().map(|d| entry_file_name(EntryKind::Transcription, d)).collect();
    assert_eq!(names.len(), digests.len());
}

use subtitle_cache::media::{
    classify_media, is_subtitle_extension, is_video_extension, known_subtitle_extension,
    known_video_extension, media_subdir,
};
use subtitle_cache::recent::record_recent_project;
use subtitle_cache::translate::{
    apply_glossary_to_translations, check_api_key, translation_from_fields, trim_white, ApiKeyError,
};
use subtitle_cache::types::{GlossaryEntry, ProjectType, RecentProject, TranslationResult};

fn recent(path: &str) -> RecentProject {
    RecentProject { path: path.to_string(), name: path.to_string(), last_opened: "t".to_string() }
}

#[test]
fn opened_project_moves_to_front() {
    let list = vec![recent("a"), recent("b"), recent("c")];
    let r = record_recent_project(list, recent("b"));
    let paths: Vec<&str> = r.iter().map(|p| p.path.as_str()).collect();
    assert_eq!(paths, vec!["b", "a", "c"]);
}

#[test]
fn recent_list_keeps_ten() {
    let list: Vec<RecentProject> = (0..12).map(|i| recent(&format!("p{}", i))).collect();
    let r = record_recent_project(list, recent("new"));
    assert_eq!(r.len(), 10);
    assert_eq!(r[0].path, "new");
    assert_eq!(r[9].path, "p8");
    let empty = record_recent_project(vec![], recent("x"));
    assert_eq!(empty.len(), 1);
}

#[test]
fn media_extensions_classified() {
    assert!(is_video_extension("MP4"));
    assert!(is_video_extension("webm"));
    assert!(!is_video_extension("srt"));
    assert!(is_subtitle_extension("Srt"));
    assert!(!is_subtitle_extension("txt"));
    assert_eq!(classify_media(Some("MKV")), ProjectType::Video);
    assert_eq!(classify_media(Some("ass")), ProjectType::Subtitle);
    assert_eq!(classify_media(Some("json")), ProjectType::Config);
    assert_eq!(classify_media(None), ProjectType::Config);
    assert_eq!(media_subdir(ProjectType::Subtitle), "subtitles");
    assert_eq!(media_subdir(ProjectType::Video), "video");
    assert_eq!(media_subdir(ProjectType::Config), "config");
}

#[test]
fn api_key_form_checked() {
    assert_eq!(check_api_key("   "), Err(ApiKeyError::Empty));
    assert_eq!(check_api_key(""), Err(ApiKeyError::Empty));
    assert_eq!(check_api_key("pk-123"), Err(ApiKeyError::BadFormat));
    assert_eq!(check_api_key("sk-123"), Ok(()));
    assert_eq!(check_api_key("sk-proj-abc"), Ok(()));
}

#[test]
fn glossary_applied_to_known_segments_only() {
    let g = vec![GlossaryEntry {
        id: "1".to_string(),
        source: "chat".to_string(),
        target: "Chat".to_string(),
        description: None,
        context: None,
    }];
    let mut t = vec![
        TranslationResult { id: 1, translated_text: "le chat".to_string() },
        TranslationResult { id: 7, translated_text: "un chat".to_string() },
    ];
    apply_glossary_to_translations(&mut t, &[1, 2], &g);
    assert_eq!(t[0].translated_text, "le Chat");
    assert_eq!(t[1].translated_text, "un chat");
    assert_eq!(t[1].id, 7);
    let mut u = vec![TranslationResult { id: 1, translated_text: "chat".to_string() }];
    apply_glossary_to_translations(&mut u, &[1], &[]);
    assert_eq!(u[0].translated_text, "chat");
}

#[test]
fn api_key_blank_or_misplaced_prefix() {
    assert_eq!(check_api_key(" \t\n\u{3000}"), Err(ApiKeyError::Empty));
    assert_eq!(check_api_key(" sk-1"), Err(ApiKeyError::BadFormat));
    assert_eq!(check_api_key("sk-1 "), Ok(()));
}

#[test]
fn trim_matches_std_trim() {
    let cases = ["", "  ", " a b ", "\u{a0}x\u{2009}", "\u{85}\u{1680}y\u{202f}\u{205f}", "no-space", "\u{200b}z"];
    for c in cases {
        assert_eq!(trim_white(c), c.trim());
    }
}

#[test]
fn translation_fields_defaulted_and_trimmed() {
    let t = translation_from_fields(Some(7), Some("  bonjour \n"));
    assert_eq!(t.id, 7);
    assert_eq!(t.translated_text, "bonjour");
    let d = translation_from_fields(None, None);
    assert_eq!(d.id, 0);
    assert_eq!(d.translated_text, "");
    assert_eq!(translation_from_fields(Some((1u64 << 32) + 5), Some("x")).id, 5);
}

#[test]
fn lower_case_extension_lists() {
    assert!(known_video_extension(&"mov".to_string()));
    assert!(!known_video_extension(&"MOV".to_string()));
    assert!(known_subtitle_extension(&"vtt".to_string()));
    assert!(!known_subtitle_extension(&"mp4".to_string()));
}

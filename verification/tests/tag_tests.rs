use audio_waveform::tags::{get_ci, TagEntry};

fn entry(k: &str, v: Option<&str>) -> TagEntry {
    TagEntry { key: k.to_string(), text: v.map(|s| s.to_string()) }
}

#[test]
fn get_ci_matches_ignoring_case() {
    let tags = vec![
        entry("ARTIST", None),
        entry("Title", Some("Song")),
        entry("iart", Some("Someone")),
        entry("artist", Some("Band")),
    ];
    assert_eq!(get_ci(Some(&tags), &["title", "inam"]).as_deref(), Some("Song"));
    assert_eq!(get_ci(Some(&tags), &["artist", "iart", "author"]).as_deref(), Some("Someone"));
    assert_eq!(get_ci(Some(&tags), &["album"]), None);
    assert_eq!(get_ci(None, &["title"]), None);
    assert_eq!(get_ci(Some(&tags), &[]), None);
}

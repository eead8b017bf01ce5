use audio_waveform::json::{audio_info, duration_text, probe_document, Json};
use audio_waveform::probe::Scalar;

fn text(s: &Scalar) -> Option<&str> {
    match s {
        Scalar::Text(t) => Some(t.as_str()),
        _ => None,
    }
}

fn unsigned(s: &Scalar) -> Option<u64> {
    match s {
        Scalar::Unsigned(n) => Some(*n),
        _ => None,
    }
}

const REPORT: &str = r#"{
  "streams": [
    {"codec_type": "video", "codec_name": "mjpeg", "channels": 9},
    {"codec_type": "audio", "codec_name": "flac", "codec_long_name": "FLAC (Free Lossless Audio Codec)",
     "sample_fmt": "s16", "channels": 2, "channel_layout": "stereo", "sample_rate": "44100",
     "bits_per_sample": 0, "time_base": "1/44100", "start_time": -0.5,
     "tags": {"title": "Song", "ARTIST": "Band", "track": 3}},
    {"codec_type": "audio", "codec_name": "mp3"}
  ],
  "format": {"format_name": "flac", "format_long_name": "raw FLAC", "duration": "215.373333",
             "bit_rate": "902044", "tags": {"album": "Record"}}
}"#;

#[test]
fn report_fields_come_from_format_and_first_audio_stream() {
    let doc = probe_document(Some(REPORT.as_bytes()));
    assert!(doc.is_some());
    let info = audio_info(&doc, "a.flac".to_string(), Some("flac".to_string()), Some(10), Some(215));
    assert_eq!(info.filename, "a.flac");
    assert_eq!(info.duration_secs, Some(215));
    assert_eq!(text(&info.format_name), Some("flac"));
    assert_eq!(text(&info.format_long_name), Some("raw FLAC"));
    assert_eq!(text(&info.bit_rate), Some("902044"));
    assert_eq!(text(&info.codec_name), Some("flac"));
    assert_eq!(text(&info.sample_rate), Some("44100"));
    assert_eq!(unsigned(&info.channels), Some(2));
    assert_eq!(unsigned(&info.bits_per_sample), Some(0));
    assert!(matches!(info.start_time, Scalar::Other));
    assert!(matches!(info.block_align, Scalar::Other));
    let tags = info.stream_tags.as_ref().unwrap();
    let seen: Vec<(String, Option<String>)> = tags.iter().map(|t| (t.key.clone(), t.text.clone())).collect();
    let v: serde_json::Value = serde_json::from_str(REPORT).unwrap();
    let want: Vec<(String, Option<String>)> = v["streams"][1]["tags"]
        .as_object()
        .unwrap()
        .iter()
        .map(|(k, x)| (k.clone(), x.as_str().map(|s| s.to_string())))
        .collect();
    assert_eq!(seen, want);
    assert_eq!(info.format_tags.as_ref().unwrap().len(), 1);
    assert_eq!(duration_text(&doc).as_deref(), Some("215.373333"));
}

#[test]
fn unparsable_or_missing_report_gives_no_fields() {
    for doc in [probe_document(Some(b"not json")), probe_document(None)] {
        assert!(doc.is_none());
        let info = audio_info(&doc, "x".to_string(), None, None, None);
        assert!(matches!(info.format_name, Scalar::Other));
        assert!(matches!(info.codec_name, Scalar::Other));
        assert!(info.format_tags.is_none());
        assert!(info.stream_tags.is_none());
        assert_eq!(duration_text(&doc), None);
    }
}

#[test]
fn parsed_tree_keeps_values() {
    let doc = probe_document(Some(br#"{"a": [1, "b", null, true, -2]}"#)).unwrap();
    match doc {
        Json::Object(m) => {
            assert_eq!(m.len(), 1);
            assert_eq!(m[0].0, "a");
            match &m[0].1 {
                Json::Array(a) => {
                    assert_eq!(a.len(), 5);
                    assert!(matches!(a[0], Json::Number(Some(1))));
                    assert!(matches!(&a[1], Json::Text(s) if s == "b"));
                    assert!(matches!(a[2], Json::Null));
                    assert!(matches!(a[3], Json::Bool(true)));
                    assert!(matches!(a[4], Json::Number(None)));
                }
                _ => panic!("not an array"),
            }
        }
        _ => panic!("not an object"),
    }
}

#[test]
fn no_audio_stream_leaves_stream_fields_missing() {
    let doc = probe_document(Some(br#"{"streams": [{"codec_type": "video", "codec_name": "h264"}], "format": {}}"#));
    let info = audio_info(&doc, "v".to_string(), None, None, None);
    assert!(matches!(info.codec_name, Scalar::Other));
    assert!(info.stream_tags.is_none());
}

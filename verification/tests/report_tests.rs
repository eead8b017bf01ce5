use audio_waveform::encoding::derive_encoding;
use audio_waveform::fields::{detail2_c_opt, kv, kvc, kvc_opt};
use audio_waveform::frame::{bottom_border, meta_row, section_border, top_border, wave_row};
use audio_waveform::ixml::parse_ixml;
use audio_waveform::probe::{AudioInfo, Scalar};
use audio_waveform::report::{final_frame, final_frame_ok, first_frame, frame_inputs_ok};
use audio_waveform::tags::{get_ci, TagEntry};
use audio_waveform::text::{trunc, vlen};
use audio_waveform::units::{fmt_duration_secs, human_size};
use audio_waveform::waveform::render_waveform;
use audio_waveform::wrapped::{detail2_leftwrap, detail_leftwrap};

const R: &str = "\x1b[0m";
const B: &str = "\x1b[1m";
const GRN: &str = "\x1b[92m";
const CYN: &str = "\x1b[96m";
const YLW: &str = "\x1b[93m";
const BLU: &str = "\x1b[94m";
const MAG: &str = "\x1b[95m";
const RED: &str = "\x1b[91m";
const GRY: &str = "\x1b[90m";
const WHT: &str = "\x1b[97m";
const ORA: &str = "\x1b[38;5;208m";
const PPL: &str = "\x1b[38;5;135m";
const BLK: &str = "\x1b[5m";

fn s_str(s: &Scalar) -> Option<&str> {
    match s {
        Scalar::Text(t) => Some(t.as_str()),
        _ => None,
    }
}

fn s_u64(s: &Scalar) -> Option<u64> {
    match s {
        Scalar::Unsigned(n) => Some(*n),
        _ => None,
    }
}

/// The frame assembled step by step from the leaf formatting functions.
fn model_first_frame(info: &AudioInfo, raw: &[u8], width: usize, height: usize) -> Vec<String> {
    let lookup = |keys: &[&str]| get_ci(info.format_tags.as_ref(), keys).or_else(|| get_ci(info.stream_tags.as_ref(), keys));
    let fmt_name_raw = s_str(&info.format_name).unwrap_or("");
    let file_type = info
        .extension
        .as_ref()
        .map(|s| s.to_ascii_uppercase())
        .unwrap_or_else(|| fmt_name_raw.split(',').next().unwrap_or(fmt_name_raw).to_ascii_uppercase());
    let mut out: Vec<String> = Vec::new();
    let name_disp = trunc(&info.filename, width.saturating_sub(7));
    out.push(top_border(&format!("{B}{name_disp}{R}"), width));
    out.push(section_border(&format!("{CYN}SUMMARY{R}"), width));
    let dur_disp = info.duration_secs.map(fmt_duration_secs);
    let siz_disp = info.file_size.map(human_size);
    let overall_br = s_str(&info.bit_rate).and_then(|s| s.parse::<u64>().ok());
    let brt_disp = overall_br.map(|b| format!("{} kbps", b / 1000));
    out.push(meta_row(&kvc_opt("Duration", dur_disp.as_deref(), WHT), width));
    out.push(meta_row(&kvc_opt("Size", siz_disp.as_deref(), WHT), width));
    out.push(meta_row(&kvc_opt("Overall BR", brt_disp.as_deref(), WHT), width));
    out.push(section_border(&format!("{YLW}FORMAT{R}"), width));
    let container = s_str(&info.format_long_name).or_else(|| s_str(&info.format_name));
    let codec = s_str(&info.codec_long_name).or_else(|| s_str(&info.codec_name));
    let (encoding, endian) = derive_encoding(s_str(&info.codec_name).unwrap_or(""), s_str(&info.sample_fmt).unwrap_or(""));
    out.push(detail2_c_opt("Container", container, WHT, "Codec", codec, WHT, width));
    out.push(detail2_c_opt("Encoding", encoding, WHT, "Endianness", endian, WHT, width));
    out.push(section_border(&format!("{BLU}AUDIO{R}"), width));
    let channels = s_u64(&info.channels);
    let ch_layout = s_str(&info.channel_layout);
    let sample_rate = s_str(&info.sample_rate).and_then(|s| s.parse::<u32>().ok());
    let bit_depth = s_u64(&info.bits_per_sample).filter(|&b| b > 0);
    let stream_br = s_str(&info.stream_bit_rate).and_then(|s| s.parse::<u64>().ok());
    let ch_val = channels.map(|ch| match ch_layout {
        Some(l) => format!("{ch} ({l})"),
        None => ch.to_string(),
    });
    let sr_val = sample_rate.map(|sr| format!("{sr} Hz"));
    out.push(detail2_c_opt("Channels", ch_val.as_deref(), WHT, "Sample Rate", sr_val.as_deref(), WHT, width));
    let bd_val = bit_depth.map(|bd| format!("{bd} bit"));
    let br_val = stream_br.map(|br| format!("{} kbps", br / 1000));
    out.push(detail2_c_opt("Bit Depth", bd_val.as_deref(), WHT, "Bitrate", br_val.as_deref(), WHT, width));
    let title = lookup(&["title", "inam"]);
    let artist = lookup(&["artist", "iart", "author"]);
    let album = lookup(&["album", "iprd"]);
    let track = lookup(&["track", "tracknumber", "track_number", "itrk"]);
    let year = lookup(&["date", "year", "icrd"]);
    let genre = lookup(&["genre", "ignr"]);
    let comment = lookup(&["comment", "description", "icmt"]);
    let encoder = lookup(&["encoder", "isft", "software"]);
    let has_tags = [&title, &artist, &album, &track, &year, &genre, &comment, &encoder]
        .iter()
        .any(|o| o.as_ref().map(|s| !s.is_empty()).unwrap_or(false));
    let tags_color = if has_tags { MAG } else { GRY };
    out.push(section_border(&format!("{tags_color}TAGS{R}"), width));
    if has_tags {
        out.push(detail2_c_opt("Title", title.as_deref(), WHT, "Artist", artist.as_deref(), WHT, width));
        out.push(detail2_c_opt("Album", album.as_deref(), WHT, "Track", track.as_deref(), WHT, width));
        out.push(detail2_c_opt("Year", year.as_deref(), WHT, "Genre", genre.as_deref(), WHT, width));
        if let Some(ref cmt) = comment {
            for row in detail2_leftwrap("Comment", cmt, WHT, "Encoder", encoder.as_deref(), WHT, width) {
                out.push(row);
            }
        } else {
            out.push(detail2_c_opt("Comment", None, WHT, "Encoder", encoder.as_deref(), WHT, width));
        }
    } else {
        out.push(meta_row(&format!("{GRY}No tags present{R}"), width));
    }
    let ixml_raw = lookup(&["ixml"]);
    let fmt_name_l = fmt_name_raw.to_ascii_lowercase();
    let is_wav_like = fmt_name_l.contains("wav") || fmt_name_l.contains("rf64") || fmt_name_l.contains("bw64");
    let ixml_has = is_wav_like && ixml_raw.as_deref().map(|s| !s.is_empty()).unwrap_or(false);
    let ixml_color = if ixml_has { RED } else { GRY };
    out.push(section_border(&format!("{ixml_color}iXML{R}"), width));
    if is_wav_like {
        match ixml_raw.as_deref() {
            Some(ixml_str) if !ixml_str.is_empty() => {
                let ix = parse_ixml(ixml_str);
                let tc_rate_disp = match (ix.tc_rate.as_deref(), ix.tc_flag.as_deref()) {
                    (Some(r), Some(f)) => Some(format!("{r} ({f})")),
                    (Some(r), None) => Some(r.to_string()),
                    (None, Some(f)) => Some(f.to_string()),
                    _ => None,
                };
                let sr_disp = ix.speed_sample_rate.as_deref().map(|s| format!("{s} Hz"));
                out.push(detail2_c_opt("Project", ix.project.as_deref(), WHT, "Scene", ix.scene.as_deref(), WHT, width));
                out.push(detail2_c_opt("Take", ix.take.as_deref(), WHT, "Tape", ix.tape.as_deref(), WHT, width));
                out.push(detail2_c_opt("Note", ix.note.as_deref(), WHT, "Location", ix.location.as_deref(), WHT, width));
                out.push(detail2_c_opt("Timecode", ix.timecode.as_deref(), WHT, "TC Rate", tc_rate_disp.as_deref(), WHT, width));
                out.push(detail2_c_opt("iXML Version", ix.ixml_version.as_deref(), WHT, "Speed SR", sr_disp.as_deref(), WHT, width));
            }
            _ => out.push(meta_row(&format!("{GRY}No iXML data{R}"), width)),
        }
    } else {
        out.push(meta_row(&format!("{GRY}Unavailable for {file_type}{R}"), width));
    }
    if is_wav_like {
        let desc = lookup(&["description"]);
        let origin = lookup(&["originator"]);
        let origin_ref = lookup(&["originator_reference", "originator_ref"]);
        let odate = lookup(&["origination_date"]);
        let otime = lookup(&["origination_time"]);
        let umid = lookup(&["umid"]);
        let chist = lookup(&["coding_history"]);
        let tref = lookup(&["time_reference"]).or_else(|| {
            let low = lookup(&["time_reference_low"]);
            let high = lookup(&["time_reference_high"]);
            match (low.as_deref(), high.as_deref()) {
                (Some(l), Some(h)) => {
                    let lo = l.parse::<u64>().ok()?;
                    let hi = h.parse::<u64>().ok()?;
                    Some(((hi << 32) + lo).to_string())
                }
                _ => None,
            }
        });
        let lv = lookup(&["loudness_value"]);
        let lra = lookup(&["loudness_range"]);
        let mtp = lookup(&["max_true_peak_level"]);
        let mst = lookup(&["max_short_term_loudness"]);
        let mm = lookup(&["max_momentary_loudness"]);
        let bext_has = [&desc, &origin, &origin_ref, &odate, &otime, &tref, &umid, &chist, &lv, &lra, &mtp, &mst, &mm]
            .iter()
            .any(|o| o.as_ref().map(|s| !s.is_empty()).unwrap_or(false));
        let bext_color = if bext_has { GRN } else { GRY };
        out.push(section_border(&format!("{bext_color}BEXT{R}"), width));
        if bext_has {
            out.push(detail2_c_opt("Description", desc.as_deref(), WHT, "Originator", origin.as_deref(), WHT, width));
            let dt = match (odate.as_deref(), otime.as_deref()) {
                (Some(d), Some(t)) => Some(format!("{d} {t}")),
                (Some(d), None) => Some(d.to_string()),
                (None, Some(t)) => Some(t.to_string()),
                _ => None,
            };
            out.push(detail2_c_opt("Originator Ref", origin_ref.as_deref(), WHT, "Origination", dt.as_deref(), WHT, width));
            let tref_disp = tref.as_deref().map(|s| format!("{s} samples"));
            out.push(detail2_c_opt("Time Reference", tref_disp.as_deref(), WHT, "UMID", umid.as_deref(), WHT, width));
            if lv.is_some() || lra.is_some() {
                let lv_disp = lv.as_deref().map(|s| format!("{s} LUFS"));
                let lra_disp = lra.as_deref().map(|s| format!("{s} LU"));
                out.push(detail2_c_opt("Loudness (LV)", lv_disp.as_deref(), WHT, "LRA", lra_disp.as_deref(), WHT, width));
            }
            if mtp.is_some() || mst.is_some() || mm.is_some() {
                let mtp_disp = mtp.as_deref().map(|s| format!("{s} dBTP"));
                let right = if let Some(ref st) = mst {
                    Some(format!("{st} LUFS"))
                } else if let Some(ref mo) = mm {
                    Some(format!("{mo} LUFS"))
                } else {
                    None
                };
                out.push(detail2_c_opt("Max True Peak", mtp_disp.as_deref(), WHT, "Max Short-term", right.as_deref(), WHT, width));
            }
            if let Some(ref hist) = chist {
                for row in detail_leftwrap("Coding History", hist, WHT, width) {
                    out.push(row);
                }
            }
        } else {
            out.push(meta_row(&format!("{GRY}No BEXT data{R}"), width));
        }
    } else {
        out.push(section_border(&format!("{GRY}BEXT{R}"), width));
        out.push(meta_row(&format!("{GRY}Unavailable for {file_type}{R}"), width));
    }
    let block_align = s_u64(&info.block_align).or_else(|| s_str(&info.block_align).and_then(|s| s.parse::<u64>().ok()));
    let byte_rate = match (sample_rate, channels, bit_depth) {
        (Some(sr), Some(ch), Some(bd)) => Some(((sr as u64) * ch * bd / 8).to_string()),
        _ => None,
    };
    let text_or_num = |s: &Scalar| s_str(s).map(|x| x.to_string()).or_else(|| s_u64(s).map(|n| n.to_string()));
    let time_base = s_str(&info.time_base).map(|s| s.to_string());
    let start_time = s_str(&info.start_time).map(|s| s.to_string());
    let nb_frames = text_or_num(&info.nb_frames);
    let duration_ts = text_or_num(&info.duration_ts);
    let sample_fmt_s = s_str(&info.sample_fmt).unwrap_or("").to_string();
    let layout_disp = ch_layout.map(|s| s.to_string());
    let has_tech = block_align.is_some() || byte_rate.is_some() || time_base.is_some() || start_time.is_some()
        || nb_frames.is_some() || duration_ts.is_some() || !sample_fmt_s.is_empty() || layout_disp.is_some();
    let tech_color = if is_wav_like && has_tech { WHT } else { GRY };
    out.push(section_border(&format!("{tech_color}TECHNICAL{R}"), width));
    if is_wav_like {
        if has_tech {
            let ba_disp = block_align.map(|n| format!("{} bytes", n));
            let br_disp = byte_rate.as_ref().map(|s| format!("{s} B/s"));
            out.push(detail2_c_opt("Block Align", ba_disp.as_deref(), WHT, "Byte Rate", br_disp.as_deref(), WHT, width));
            out.push(detail2_c_opt("Time Base", time_base.as_deref(), WHT, "Start Time", start_time.as_deref(), WHT, width));
            out.push(detail2_c_opt("Frames", nb_frames.as_deref(), WHT, "Duration TS", duration_ts.as_deref(), WHT, width));
            out.push(detail2_c_opt(
                "Sample Format",
                if sample_fmt_s.is_empty() { None } else { Some(sample_fmt_s.as_str()) },
                WHT,
                "Layout",
                layout_disp.as_deref(),
                WHT,
                width,
            ));
        } else {
            out.push(meta_row(&format!("{GRY}No technical data{R}"), width));
        }
    } else {
        out.push(meta_row(&format!("{GRY}Unavailable for {file_type}{R}"), width));
    }
    out.push(section_border(&format!("{ORA}LOUDNESS{R}"), width));
    let calc = format!("{GRY}{BLK}Calculating...{R}");
    out.push(meta_row(&kv("Integrated LUFS", &calc), width));
    let wave_inner = width.saturating_sub(2);
    let wave_color = if raw.len() >= 4 { PPL } else { GRY };
    out.push(section_border(&format!("{wave_color}WAVEFORM{R}"), width));
    for row in render_waveform(raw, wave_inner, height) {
        out.push(wave_row(&row));
    }
    out.push(bottom_border(width));
    out
}

fn model_final(out: &[String], loud_i: Option<String>, loud_lra: Option<String>, width: usize) -> Vec<String> {
    let mut out2 = out.to_vec();
    if let Some(idx) = out2.iter().position(|s| s.contains("LOUDNESS")) {
        let loud_color = if loud_i.is_some() || loud_lra.is_some() { ORA } else { GRY };
        out2[idx] = section_border(&format!("{loud_color}LOUDNESS{R}"), width);
        if let Some(ref i) = loud_i {
            out2[idx + 1] = meta_row(&kvc("Integrated LUFS", i, WHT), width);
        } else {
            out2[idx + 1] = meta_row(&kvc("Integrated LUFS", &format!("{GRY}N/A{R}"), WHT), width);
        }
        if let Some(ref lra) = loud_lra {
            out2.insert(idx + 2, meta_row(&kvc("LRA", lra, WHT), width));
        }
    }
    out2
}

fn text(s: &str) -> Scalar {
    Scalar::Text(s.to_string())
}

fn tag(k: &str, v: &str) -> TagEntry {
    TagEntry { key: k.to_string(), text: Some(v.to_string()) }
}

fn empty_info() -> AudioInfo {
    AudioInfo {
        filename: "song.mp3".to_string(),
        extension: Some("mp3".to_string()),
        file_size: None,
        duration_secs: None,
        format_name: Scalar::Other,
        format_long_name: Scalar::Other,
        bit_rate: Scalar::Other,
        format_tags: None,
        codec_name: Scalar::Other,
        codec_long_name: Scalar::Other,
        sample_fmt: Scalar::Other,
        channels: Scalar::Other,
        channel_layout: Scalar::Other,
        sample_rate: Scalar::Other,
        bits_per_sample: Scalar::Other,
        stream_bit_rate: Scalar::Other,
        block_align: Scalar::Other,
        time_base: Scalar::Other,
        start_time: Scalar::Other,
        nb_frames: Scalar::Other,
        duration_ts: Scalar::Other,
        stream_tags: None,
    }
}

fn wav_info() -> AudioInfo {
    AudioInfo {
        filename: "a very long recording name for the session.wav".to_string(),
        extension: Some("wav".to_string()),
        file_size: Some(5_300_000),
        duration_secs: Some(3725),
        format_name: text("wav"),
        format_long_name: text("WAV / WAVE (Waveform Audio)"),
        bit_rate: text("2304000"),
        format_tags: Some(vec![
            tag("title", "Take Five"),
            tag("comment", "recorded on location with a lot of wind noise in the background"),
            tag("encoder", "Lavf60"),
            tag("originator", "Recorder"),
            tag("origination_date", "2024-01-02"),
            tag("time_reference_low", "96000"),
            tag("time_reference_high", "1"),
            tag("loudness_value", "-23.0"),
            tag("max_momentary_loudness", "-10.1"),
            tag("coding_history", "A=PCM,F=48000,W=24,M=stereo,T=recorder one two"),
            tag("iXML", "<BWFXML><PROJECT>Film</PROJECT><SCENE>1</SCENE><TIMECODE_RATE>25</TIMECODE_RATE><SAMPLE_RATE>48000</SAMPLE_RATE></BWFXML>"),
        ]),
        codec_name: text("pcm_s24le"),
        codec_long_name: text("PCM signed 24-bit little-endian"),
        sample_fmt: text("s32"),
        channels: Scalar::Unsigned(2),
        channel_layout: text("stereo"),
        sample_rate: text("48000"),
        bits_per_sample: Scalar::Unsigned(24),
        stream_bit_rate: text("2304000"),
        block_align: Scalar::Unsigned(6),
        time_base: text("1/48000"),
        start_time: text("0.000000"),
        nb_frames: Scalar::Other,
        duration_ts: Scalar::Unsigned(178800000),
        stream_tags: Some(vec![tag("ARTIST", "Quartet")]),
    }
}

fn pcm(n: usize) -> Vec<u8> {
    (0..n).flat_map(|i| ((((i * 37) % 400) as i32 - 200) as i16 * 150).to_le_bytes()).collect()
}

#[test]
fn first_frame_matches_step_by_step_assembly() {
    let raw = pcm(2000);
    for info in [empty_info(), wav_info()] {
        for (w, h) in [(80usize, 12usize), (60, 4), (40, 0), (100, 6)] {
            assert!(frame_inputs_ok(&info, &raw, w, h));
            assert_eq!(first_frame(&info, &raw, w, h), model_first_frame(&info, &raw, w, h));
        }
        assert_eq!(first_frame(&info, &[], 80, 12), model_first_frame(&info, &[], 80, 12));
    }
}

#[test]
fn first_frame_rows_are_box_width() {
    let raw = pcm(2000);
    let out = first_frame(&empty_info(), &raw, 80, 6);
    for row in &out {
        assert_eq!(vlen(row), 80, "{:?}", row);
    }
    assert!(out[0].contains("song.mp3"));
    assert!(out.iter().any(|r| r.contains("Unavailable for MP3")));
}

#[test]
fn final_frame_fills_loudness() {
    let raw = pcm(2000);
    let info = wav_info();
    let out = first_frame(&info, &raw, 80, 6);
    assert!(final_frame_ok(&out));
    for (i, l) in [
        (Some("-23.0 LUFS".to_string()), Some("7.5 LU".to_string())),
        (None, None),
        (Some("-9.1 LUFS".to_string()), None),
        (None, Some("3.0 LU".to_string())),
    ] {
        let f = final_frame(&out, &i, &l, 80);
        assert_eq!(f, model_final(&out, i.clone(), l.clone(), 80));
        assert_eq!(f.len(), out.len() + if l.is_some() { 1 } else { 0 });
    }
}

#[test]
fn frame_inputs_rejects_what_would_fail() {
    let info = empty_info();
    assert!(frame_inputs_ok(&info, &pcm(10), 80, 12));
    assert!(frame_inputs_ok(&info, &pcm(10), 2, 12));
    assert!(frame_inputs_ok(&info, &pcm(1), 2, 12));
    assert!(!frame_inputs_ok(&info, &pcm(10), 80, usize::MAX / 2));
    let mut big = wav_info();
    big.channels = Scalar::Unsigned(u64::MAX);
    assert!(!frame_inputs_ok(&big, &pcm(2000), 80, 12));
    let mut tr = wav_info();
    tr.format_tags = Some(vec![tag("time_reference_low", "18446744073709551615"), tag("time_reference_high", "1")]);
    assert!(!frame_inputs_ok(&tr, &pcm(2000), 80, 12));
    let short = vec![String::from("x"), String::from("LOUDNESS")];
    assert!(!final_frame_ok(&short));
}

#[test]
fn metadata_shown_without_audio() {
    let info = wav_info();
    let with_audio = first_frame(&info, &pcm(2000), 80, 6);
    let without = first_frame(&info, &[], 80, 6);
    let n = without.len() - 3;
    assert_eq!(&with_audio[..n], &without[..n]);
    assert!(without[n + 1].contains("(no audio data)"));
    assert!(without[n].contains("WAVEFORM"));
}

#[test]
fn metadata_shown_for_short_clip_and_narrow_box() {
    let info = wav_info();
    let full = first_frame(&info, &pcm(2000), 80, 6);
    let short = first_frame(&info, &pcm(10), 80, 6);
    let n = short.len() - 3;
    assert_eq!(&full[..n], &short[..n]);
    assert!(short[n].contains("WAVEFORM"));
    assert!(short[n + 1].contains("(too short to draw)"));
    let narrow = first_frame(&info, &pcm(2000), 2, 6);
    let m = narrow.len() - 3;
    assert!(narrow[m].contains("WAVEFORM"));
    assert!(narrow[m + 1].contains("(no room)"));
    let narrow_empty = first_frame(&info, &[], 2, 6);
    assert_eq!(&narrow[..m], &narrow_empty[..m]);
}

#[test]
fn header_name_fits_tiny_box() {
    let mut info = wav_info();
    info.filename = String::from("recording.wav");
    let out = first_frame(&info, &pcm(2000), 7, 2);
    assert!(!out[0].contains("recording"));
    assert!(!out[0].contains('\u{2026}'));
}

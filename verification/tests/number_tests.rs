use audio_waveform::encoding::derive_encoding;
use audio_waveform::units::{decimal, fmt_duration_secs, human_size};

fn model_human_size(b: u64) -> String {
    const U: &[&str] = &["B", "KB", "MB", "GB", "TB"];
    let mut n = b as f64;
    let mut i = 0;
    while n >= 1024.0 && i < U.len() - 1 {
        n /= 1024.0;
        i += 1;
    }
    if i == 0 {
        format!("{b} B")
    } else {
        format!("{n:.1} {}", U[i])
    }
}

#[test]
fn human_size_examples() {
    assert_eq!(human_size(0), "0 B");
    assert_eq!(human_size(1023), "1023 B");
    assert_eq!(human_size(1024), "1.0 KB");
    assert_eq!(human_size(1536), "1.5 KB");
    assert_eq!(human_size(1280), "1.2 KB");
    assert_eq!(human_size(1048576), "1.0 MB");
    assert_eq!(human_size(5 * 1099511627776), "5.0 TB");
    assert_eq!(human_size(u64::MAX), "16777216.0 TB");
}

#[test]
fn human_size_agrees_with_float_formatting() {
    let mut vals: Vec<u64> = (0..5000u64).collect();
    for k in 0..64u32 {
        let p = 1u64 << k;
        for d in [0u64, 1, 2, 3, 1024, 2047, 2048, 2049] {
            vals.push(p.wrapping_add(d));
            vals.push(p.wrapping_sub(d));
        }
    }
    for m in 1..2000u64 {
        vals.push(m * 52429 + 13);
        vals.push(m.wrapping_mul(0x9e37_79b9_7f4a_7c15));
        vals.push((m << 38) | 1);
        vals.push(m << 38);
    }
    vals.push(u64::MAX);
    vals.push((1u64 << 53) + 1);
    for b in vals {
        assert_eq!(human_size(b), model_human_size(b), "{}", b);
    }
}

#[test]
fn duration_formats() {
    assert_eq!(fmt_duration_secs(0), "0:00");
    assert_eq!(fmt_duration_secs(75), "1:15");
    assert_eq!(fmt_duration_secs(3599), "59:59");
    assert_eq!(fmt_duration_secs(3600), "1:00:00");
    assert_eq!(fmt_duration_secs(3725), "1:02:05");
    assert_eq!(fmt_duration_secs(360000), "100:00:00");
}

#[test]
fn decimal_digits() {
    assert_eq!(decimal(0), "0");
    assert_eq!(decimal(48000), "48000");
    assert_eq!(decimal(u64::MAX), u64::MAX.to_string());
}

#[test]
fn derive_encoding_cases() {
    assert_eq!(derive_encoding("pcm_s16le", ""), (Some("PCM"), Some("little-endian")));
    assert_eq!(derive_encoding("pcm_s24be", "s32"), (Some("PCM"), Some("big-endian")));
    assert_eq!(derive_encoding("pcm_f32", "fltle"), (Some("PCM"), Some("little-endian")));
    assert_eq!(derive_encoding("pcm_u8", "u8"), (Some("PCM"), None));
    assert_eq!(derive_encoding("mp3", "fltp"), (Some("MP3"), None));
    assert_eq!(derive_encoding("eac3", ""), (Some("E-AC-3"), None));
    assert_eq!(derive_encoding("vorbis", ""), (Some("Vorbis"), None));
    assert_eq!(derive_encoding("wmav2", "fltp"), (None, None));
    assert_eq!(derive_encoding("", ""), (None, None));
    assert_eq!(derive_encoding("MP3", ""), (None, None));
}

use audio_waveform::fields::{
    detail, detail2, detail2_c, detail2_c_opt, detail_c, kv, kvc, kvc_opt,
};
use audio_waveform::frame::{bottom_border, dashes, equals, meta_row, section_border, top_border, wave_row};
use audio_waveform::text::vlen;
use audio_waveform::wrapped::{detail2_leftwrap, detail_leftwrap};

const R: &str = "\x1b[0m";
const DIM: &str = "\x1b[2m";
const GRY: &str = "\x1b[90m";
const WHT: &str = "\x1b[97m";

#[test]
fn dashes_and_equals_repeat() {
    assert_eq!(dashes(3), "\u{2500}\u{2500}\u{2500}");
    assert_eq!(equals(2), "\u{2550}\u{2550}");
    assert_eq!(dashes(0), "");
}

#[test]
fn top_border_layout() {
    let b = top_border("T", 10);
    assert_eq!(b, format!("{DIM}\u{256d}\u{2500} {R}T {DIM}\u{2500}\u{2500}\u{2500}\u{2500}\u{256e}{R}"));
    assert_eq!(vlen(&b), 10);
    let narrow = top_border("TITLE", 3);
    assert_eq!(vlen(&narrow), 10);
}

#[test]
fn section_border_layout() {
    let b = section_border("\x1b[96mSUMMARY\x1b[0m", 20);
    assert_eq!(
        b,
        format!("{DIM}\u{255e}\u{2550}\u{2550} {R}\x1b[96mSUMMARY\x1b[0m {DIM}{}\u{2561}{R}", "\u{2550}".repeat(7))
    );
    assert_eq!(vlen(&b), 20);
}

#[test]
fn bottom_border_layout() {
    assert_eq!(bottom_border(5), format!("{DIM}\u{2570}\u{2500}\u{2500}\u{2500}\u{256f}{R}"));
    assert_eq!(vlen(&bottom_border(1)), 2);
}

#[test]
fn meta_row_and_wave_row_layout() {
    assert_eq!(meta_row("ab", 8), format!("{DIM}\u{2502}{R} ab   {DIM}\u{2502}{R}"));
    assert_eq!(vlen(&meta_row("ab", 8)), 8);
    assert_eq!(vlen(&meta_row("abcdefgh", 8)), 12);
    assert_eq!(wave_row("xy"), format!("{DIM}\u{2502}{R}xy{DIM}\u{2502}{R}"));
}

#[test]
fn kv_family_layout() {
    assert_eq!(kv("Size", "3 KB"), format!("{DIM}  Size       {R}  3 KB"));
    assert_eq!(kvc("Size", "3 KB", WHT), format!("{DIM}  Size       {R}  {WHT}3 KB{R}"));
    assert_eq!(kvc_opt("Size", Some("3 KB"), WHT), kvc("Size", "3 KB", WHT));
    assert_eq!(kvc_opt("Size", Some(""), WHT), format!("{DIM}  Size       {R}  {GRY}N/A{R}"));
    assert_eq!(kvc_opt("Size", None, WHT), format!("{DIM}  Size       {R}  {GRY}N/A{R}"));
    assert_eq!(kv("Originator Ref", "x"), format!("{DIM}  Originator Ref{R}  x"));
}

#[test]
fn detail_rows_layout() {
    let w = 60;
    assert_eq!(detail("Codec", "FLAC", w), meta_row(&kv("Codec", "FLAC"), w));
    assert_eq!(detail_c("Codec", "FLAC", WHT, w), meta_row(&kvc("Codec", "FLAC", WHT), w));
    let col = (w - 4 - 3) / 2;
    let vsep = format!(" {DIM}\u{2502}{R} ");
    let left = format!("{}{}", kv("A", "1"), " ".repeat(col - vlen(&kv("A", "1"))));
    assert_eq!(detail2("A", "1", "B", "2", w), meta_row(&format!("{left}{vsep}{}", kv("B", "2")), w));
    assert_eq!(vlen(&detail2("A", "1", "B", "2", w)), w);
    let left_c = format!("{}{}", kvc("A", "1", WHT), " ".repeat(col - vlen(&kvc("A", "1", WHT))));
    assert_eq!(
        detail2_c("A", "1", WHT, "B", "2", WHT, w),
        meta_row(&format!("{left_c}{vsep}{}", kvc("B", "2", WHT)), w)
    );
    let left_o = format!("{}{}", kvc_opt("A", None, WHT), " ".repeat(col - vlen(&kvc_opt("A", None, WHT))));
    assert_eq!(
        detail2_c_opt("A", None, WHT, "B", Some("2"), WHT, w),
        meta_row(&format!("{left_o}{vsep}{}", kvc_opt("B", Some("2"), WHT)), w)
    );
    assert_eq!(vlen(&detail2_c_opt("Container", Some("WAV"), WHT, "Codec", Some("PCM"), WHT, 80)), 80);
}

#[test]
fn detail_leftwrap_wraps_under_label() {
    let w = 40;
    let rows = detail_leftwrap("History", "alpha beta gamma delta epsilon zeta eta theta iota", WHT, w);
    assert!(rows.len() >= 2);
    for r in &rows {
        assert_eq!(vlen(r), w);
    }
    let first = format!("{DIM}  History    {R}  ");
    assert!(rows[0].contains(&first));
    let cont = format!("{DIM}             {R}  ");
    assert!(rows[1].contains(&cont));
    let single = detail_leftwrap("Note", "", WHT, w);
    assert_eq!(single.len(), 1);
}

#[test]
fn detail2_leftwrap_right_on_first_row() {
    let w = 80;
    let rows = detail2_leftwrap(
        "Comment", "a fairly long comment that will certainly need to wrap across lines", WHT,
        "Encoder", Some("Lavf"), WHT, w,
    );
    assert!(rows.len() >= 2);
    assert!(rows[0].contains("Lavf"));
    for r in &rows[1..] {
        assert!(!r.contains("Encoder"));
    }
    for r in &rows {
        assert_eq!(vlen(r), w);
    }
    let none = detail2_leftwrap("Comment", "short", WHT, "Encoder", None, WHT, w);
    assert_eq!(none.len(), 1);
    assert!(none[0].contains("N/A"));
}

fn strip_ansi(s: &str) -> String {
    let mut out = String::new();
    let mut it = s.chars().peekable();
    while let Some(c) = it.next() {
        if c == '\x1b' {
            for d in it.by_ref() {
                if d == 'm' {
                    break;
                }
            }
        } else {
            out.push(c);
        }
    }
    out
}

#[test]
fn divider_stays_put_with_missing_values() {
    let width = 80usize;
    let col = (width - 7) / 2;
    let a = detail2_c_opt("Channels", Some("2"), WHT, "Sample Rate", Some("48000 Hz"), WHT, width);
    let b = detail2_c_opt("Channels", None, WHT, "Sample Rate", None, WHT, width);
    let c = detail2_c_opt("Channels", Some(""), WHT, "Sample Rate", Some("44100 Hz"), WHT, width);
    for row in [&a, &b, &c] {
        assert_eq!(vlen(row), width);
        let plain: Vec<char> = strip_ansi(row).chars().collect();
        assert_eq!(plain[col + 3], '\u{2502}', "{:?}", row);
    }
}

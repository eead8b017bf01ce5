use audio_waveform::wrap::{is_whitespace, wrap_text};

fn model_wrap(s: &str, width: usize) -> Vec<String> {
    if width == 0 {
        return vec![String::new()];
    }
    let mut lines: Vec<String> = Vec::new();
    let mut cur = String::new();
    let mut cur_w = 0usize;
    for word in s.split_whitespace() {
        let wl = word.chars().count();
        if cur_w == 0 {
            cur.push_str(word);
            cur_w = wl;
            if cur_w > width {
                lines.push(std::mem::take(&mut cur));
                cur_w = 0;
            }
        } else if cur_w + 1 + wl <= width {
            cur.push(' ');
            cur.push_str(word);
            cur_w += 1 + wl;
        } else {
            lines.push(std::mem::take(&mut cur));
            cur.push_str(word);
            cur_w = wl;
            if cur_w > width {
                lines.push(std::mem::take(&mut cur));
                cur_w = 0;
            }
        }
    }
    if !cur.is_empty() {
        lines.push(cur);
    }
    if lines.is_empty() {
        lines.push(String::new());
    }
    lines
}

#[test]
fn whitespace_matches_char_is_whitespace() {
    for u in 0u32..0x3100 {
        if let Some(c) = char::from_u32(u) {
            assert_eq!(is_whitespace(c), c.is_whitespace(), "U+{:04X}", u);
        }
    }
    for u in [0xfeffu32, 0x1f600, 0x10ffff, 0xe000] {
        let c = char::from_u32(u).unwrap();
        assert_eq!(is_whitespace(c), c.is_whitespace());
    }
}

#[test]
fn wrap_text_greedy_lines() {
    assert_eq!(wrap_text("the quick brown fox", 10), vec!["the quick", "brown fox"]);
    assert_eq!(wrap_text("", 10), vec![""]);
    assert_eq!(wrap_text("   ", 10), vec![""]);
    assert_eq!(wrap_text("abc", 0), vec![""]);
    assert_eq!(wrap_text("a verylongword b", 4), vec!["a", "verylongword", "b"]);
    assert_eq!(wrap_text("x\ty\u{3000}z", 3), vec!["x y", "z"]);
}

#[test]
fn wrap_text_agrees_with_model() {
    let texts = [
        "A=PCM,F=48000,W=24,M=stereo,T=recorder",
        "one two three four five six seven eight nine ten",
        "  leading and trailing  ",
        "supercalifragilistic is long",
        "\u{e9}t\u{e9} \u{e0} la plage \u{1f3b5} music",
        "a b c d e f g h",
    ];
    for t in texts {
        for w in 0..30 {
            assert_eq!(wrap_text(t, w), model_wrap(t, w), "{:?} {}", t, w);
        }
    }
}

#[test]
fn wrap_text_keeps_every_word() {
    let t = "one two three four five six seven eight nine ten eleven";
    for w in 1..20 {
        let lines = wrap_text(t, w);
        let joined: Vec<String> = lines.iter().flat_map(|l| l.split_whitespace().map(|x| x.to_string())).collect();
        let words: Vec<String> = t.split_whitespace().map(|x| x.to_string()).collect();
        assert_eq!(joined, words);
        for l in &lines {
            assert!(l.chars().count() <= w || !l.contains(' '));
            assert!(!l.is_empty());
        }
    }
}

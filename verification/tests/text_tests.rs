use audio_waveform::text::{rpad, trunc, vlen};

/// Byte-level visible width: skips `ESC [ ... m`, counts UTF-8 leading bytes.
fn model_vlen(s: &str) -> usize {
    let b = s.as_bytes();
    let mut n = 0usize;
    let mut i = 0;
    while i < b.len() {
        if b[i] == 0x1b && b.get(i + 1) == Some(&b'[') {
            i += 2;
            while i < b.len() && b[i] != b'm' {
                i += 1;
            }
            i += 1;
        } else {
            if b[i] & 0xc0 != 0x80 {
                n += 1;
            }
            i += 1;
        }
    }
    n
}

fn samples() -> Vec<&'static str> {
    vec![
        "",
        "abc",
        "h\u{e9}llo",
        "\x1b[2mabc\x1b[0m",
        "\x1b",
        "\x1b[",
        "\x1b[31",
        "a\x1bb",
        "\x1b[38;5;208mLOUDNESS\x1b[0m",
        "\u{256d}\u{2500} \u{1f3b5} x",
        "\x1b\x1b[1mZ",
        "m\x1b[m",
    ]
}

#[test]
fn vlen_skips_escape_sequences() {
    assert_eq!(vlen("\x1b[2mabc\x1b[0m"), 3);
    assert_eq!(vlen("h\u{e9}llo"), 5);
    assert_eq!(vlen("\x1b"), 1);
    assert_eq!(vlen("\x1b[31"), 0);
    assert_eq!(vlen("a\x1bb"), 3);
    assert_eq!(vlen(""), 0);
}

#[test]
fn vlen_agrees_with_byte_scan() {
    for s in samples() {
        assert_eq!(vlen(s), model_vlen(s), "{:?}", s);
    }
}

#[test]
fn rpad_pads_to_visible_width() {
    assert_eq!(rpad("ab", 5), "ab   ");
    assert_eq!(rpad("\x1b[2mab\x1b[0m", 4), "\x1b[2mab\x1b[0m  ");
    assert_eq!(rpad("abcdef", 3), "abcdef");
    for s in samples() {
        for w in 0..12usize {
            let expected = format!("{s}{}", " ".repeat(w.saturating_sub(model_vlen(s))));
            assert_eq!(rpad(s, w), expected);
        }
    }
}

#[test]
fn trunc_cuts_with_ellipsis() {
    assert_eq!(trunc("hello", 3), "he\u{2026}");
    assert_eq!(trunc("hi", 5), "hi");
    assert_eq!(trunc("hello", 5), "hello");
    assert_eq!(trunc("abc", 0), "");
    assert_eq!(trunc("abc", 1), "\u{2026}");
    assert_eq!(trunc("\u{e9}t\u{e9}s", 3), "\u{e9}t\u{2026}");
}

#[test]
fn rpad_twice_pads_to_larger_width() {
    let s = "\x1b[1mab\x1b[0m";
    assert_eq!(rpad(&rpad(s, 5), 3), rpad(s, 5));
    assert_eq!(rpad(&rpad(s, 3), 6), rpad(s, 6));
    assert_eq!(rpad(&rpad(s, 4), 4), rpad(s, 4));
    assert_eq!(trunc("abc", 0).chars().count(), 0);
}

use audio_waveform::waveform::render_waveform;

/// Float renderer with the same windows and thresholds.
fn model_render(raw: &[u8], width: usize, height: usize) -> Vec<String> {
    if raw.len() < 4 {
        return vec!["(no audio data)".into()];
    }
    let (sw, sh) = (width * 2, height * 4);
    let top_sh = sh / 2;
    let bot_sh = sh - top_sh;
    let samples: Vec<i32> = raw.chunks_exact(2).map(|c| i16::from_le_bytes([c[0], c[1]]) as i32).collect();
    let per = (samples.len() / sw).max(1);
    let mut pos = vec![0i32; sw];
    let mut neg = vec![0i32; sw];
    for sx in 0..sw {
        let end = ((sx + 1) * per).min(samples.len());
        for &v in &samples[sx * per..end] {
            if v > 0 {
                pos[sx] = pos[sx].max(v);
            } else if v < 0 {
                neg[sx] = neg[sx].max(-v);
            }
        }
    }
    let peak = pos.iter().chain(neg.iter()).copied().max().unwrap_or(1) as f32;
    if peak == 0.0 {
        return vec!["(silent)".into()];
    }
    let filled = |sx: usize, sy: usize| -> bool {
        let (norm, thr) = if sy < top_sh {
            (pos[sx] as f32 / peak, (top_sh - sy) as f32 / top_sh as f32)
        } else {
            (neg[sx] as f32 / peak, (sy - top_sh + 1) as f32 / bot_sh as f32)
        };
        norm >= thr
    };
    const BITS: [[u8; 4]; 2] = [[0x01, 0x02, 0x04, 0x40], [0x08, 0x10, 0x20, 0x80]];
    (0..height)
        .map(|row| {
            (0..width)
                .map(|col| {
                    let mut b = 0u8;
                    for dx in 0..2usize {
                        for dy in 0..4usize {
                            if filled(col * 2 + dx, row * 4 + dy) {
                                b |= BITS[dx][dy];
                            }
                        }
                    }
                    char::from_u32(0x2800 + b as u32).unwrap_or(' ')
                })
                .collect()
        })
        .collect()
}

fn pcm(samples: &[i16]) -> Vec<u8> {
    samples.iter().flat_map(|s| s.to_le_bytes()).collect()
}

#[test]
fn waveform_edge_cases() {
    assert_eq!(render_waveform(&[1, 2, 3], 4, 2), vec!["(no audio data)"]);
    assert_eq!(render_waveform(&pcm(&[0; 64]), 4, 2), vec!["(silent)"]);
    let full = pcm(&[i16::MAX, i16::MIN]);
    assert_eq!(render_waveform(&full, 1, 1), vec!["\u{28a2}"]);
    assert_eq!(render_waveform(&full, 1, 1), model_render(&full, 1, 1));
    let loud = pcm(&[i16::MAX, -i16::MAX, i16::MAX, -i16::MAX]);
    assert_eq!(render_waveform(&loud, 1, 1), vec!["\u{28ff}"]);
    let rows = render_waveform(&pcm(&[100, -100, 50, -50, 0, 0, 10, -10]), 2, 0);
    assert!(rows.is_empty());
}

#[test]
fn waveform_shape() {
    let mut s: Vec<i16> = Vec::new();
    for i in 0..4000 {
        let v = ((i % 200) as i32 - 100) * 300;
        s.push(v as i16);
    }
    let rows = render_waveform(&pcm(&s), 20, 4);
    assert_eq!(rows.len(), 4);
    for r in &rows {
        assert_eq!(r.chars().count(), 20);
        assert!(r.chars().all(|c| ('\u{2800}'..='\u{28ff}').contains(&c)));
    }
}

#[test]
fn waveform_agrees_with_float_model() {
    let mut seed: u32 = 12345;
    for case in 0..60 {
        let n = 2 + (case * 37) % 500;
        let mut s: Vec<i16> = Vec::new();
        for _ in 0..n {
            seed = seed.wrapping_mul(1664525).wrapping_add(1013904223);
            let amp = 1 + (case as i32 * 997) % 32767;
            s.push(((seed >> 8) as i32 % (2 * amp + 1) - amp) as i16);
        }
        let raw = pcm(&s);
        for width in 1..12usize {
            if 2 * width > n + 1 {
                continue;
            }
            for height in 0..6usize {
                assert_eq!(render_waveform(&raw, width, height), model_render(&raw, width, height));
            }
        }
    }
}

#[test]
fn waveform_bars_grow_from_centre() {
    let mut s: Vec<i16> = Vec::new();
    for i in 0..400 {
        let v = if i % 2 == 0 { (i as i32 * 80) as i16 } else { -((i as i32 * 40) as i16) };
        s.push(v);
    }
    let rows = render_waveform(&pcm(&s), 10, 4);
    // dot rows top to bottom within each cell column: upper half bits, then lower half bits
    let bits: Vec<Vec<u32>> = rows.iter().map(|r| r.chars().map(|c| c as u32 - 0x2800).collect()).collect();
    for col in 0..10 {
        for dx in 0..2 {
            let order = if dx == 0 { [0x01, 0x02, 0x04, 0x40] } else { [0x08, 0x10, 0x20, 0x80] };
            let mut dots: Vec<bool> = Vec::new();
            for r in 0..4 {
                for b in order {
                    dots.push(bits[r][col] & b != 0);
                }
            }
            let half = dots.len() / 2;
            for y in 0..half - 1 {
                if dots[y] {
                    assert!(dots[y + 1]);
                }
            }
            for y in half + 1..dots.len() {
                if dots[y] {
                    assert!(dots[y - 1]);
                }
            }
        }
    }
}

#[test]
fn waveform_notes_for_undrawable_input() {
    assert_eq!(render_waveform(&pcm(&[5, -5]), 0, 3), vec!["(no room)"]);
    assert_eq!(render_waveform(&pcm(&[5; 10]), 40, 3), vec!["(too short to draw)"]);
    assert_eq!(render_waveform(&pcm(&[5; 10]), 6, 3), vec!["(too short to draw)"]);
    assert_eq!(render_waveform(&pcm(&[5; 10]), 5, 3).len(), 3);
    assert_eq!(render_waveform(&pcm(&[0; 10]), 5, 3), vec!["(silent)"]);
}

fn flip_cell(c: char) -> char {
    let b = (c as u32 - 0x2800) as u8;
    let pairs = [(0x01u8, 0x40u8), (0x02, 0x04), (0x08, 0x80), (0x10, 0x20)];
    let mut r = 0u8;
    for (x, y) in pairs {
        if b & x != 0 {
            r |= y;
        }
        if b & y != 0 {
            r |= x;
        }
    }
    char::from_u32(0x2800 + r as u32).unwrap()
}

#[test]
fn waveform_negation_flips_upside_down() {
    let s: Vec<i16> = (0..200).map(|i| ((i * 37) % 400 - 150) as i16 * 50).collect();
    let neg: Vec<i16> = s.iter().map(|v| -v).collect();
    let (w, h) = (12usize, 3usize);
    let a = render_waveform(&pcm(&s), w, h);
    let b = render_waveform(&pcm(&neg), w, h);
    assert_eq!(a.len(), h);
    for row in 0..h {
        let flipped: String = a[h - 1 - row].chars().map(flip_cell).collect();
        assert_eq!(b[row], flipped);
    }
}

#[test]
fn waveform_ignores_overall_scale() {
    let s: Vec<i16> = (0..300).map(|i| ((i * 53) % 200 - 100) as i16 * 7).collect();
    let scaled: Vec<i16> = s.iter().map(|v| v * 3).collect();
    for (w, h) in [(10usize, 2usize), (30, 4), (1, 1)] {
        assert_eq!(render_waveform(&pcm(&s), w, h), render_waveform(&pcm(&scaled), w, h));
    }
}

#[test]
fn waveform_rounds_like_single_precision() {
    let raw = [0xA0u8, 0x4D, 0x01, 0x80];
    let rows = render_waveform(&raw, 1, 263);
    assert_eq!(rows.len(), 263);
    assert_eq!(rows[51].chars().next(), Some('\u{2840}'));
    assert_eq!(rows, model_render(&raw, 1, 263));
}

#[test]
fn waveform_agrees_with_float_model_at_tall_heights() {
    let mut seed: u32 = 987654;
    for case in 0..12 {
        let n = 4 + (case * 53) % 300;
        let mut s: Vec<i16> = Vec::new();
        for _ in 0..n {
            seed = seed.wrapping_mul(1664525).wrapping_add(1013904223);
            s.push(((seed >> 8) as i32 % 65535 - 32767) as i16);
        }
        let raw = pcm(&s);
        for width in [1usize, 2, 3] {
            if 2 * width > n + 1 {
                continue;
            }
            for height in [50usize, 137, 263, 300, 513] {
                assert_eq!(render_waveform(&raw, width, height), model_render(&raw, width, height));
            }
        }
    }
}

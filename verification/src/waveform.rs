//! The braille waveform: 16-bit little-endian mono samples are split into
//! `2 * width` equal windows; each window's largest positive and negative
//! excursions, scaled by the overall peak, fill braille dots upwards and
//! downwards from the centre line.
//!
//! The dot test compares the single-precision quotients `level / peak` and
//! `distance / half`, modelled exactly in integers (see `binary32`).
use vstd::prelude::*;
use crate::text::push_char;
use crate::wrap::string_views;
use crate::binary32::{
    round24, quot_ge, round24_exec, quot_ge_exec, lemma_round24_mono, lemma_round24_bounds,
    lemma_round24_below, lemma_quot_ge_smaller, lemma_quot_scale, lemma_pow2_values,
};

verus! {

/// Number of whole 16-bit samples in `raw`.
pub open spec fn n_samples(raw: Seq<u8>) -> nat {
    raw.len() / 2
}

/// Sample `k`: the signed little-endian 16-bit value in bytes `2k`, `2k + 1`.
pub open spec fn sample_at(raw: Seq<u8>, k: int) -> int {
    let u = raw[2 * k] as int + 256 * raw[2 * k + 1] as int;
    if u >= 32768 {
        u - 65536
    } else {
        u
    }
}

/// Samples per window: the sample count divided by the `2 * width` windows,
/// and at least one.
pub open spec fn per_window(raw: Seq<u8>, width: nat) -> nat {
    let q = n_samples(raw) / (2 * width);
    if q >= 1 {
        q
    } else {
        1
    }
}

/// First sample of window `sx`.
pub open spec fn win_lo(raw: Seq<u8>, width: nat, sx: nat) -> nat {
    sx * per_window(raw, width)
}

/// End (exclusive) of window `sx`, clipped to the samples there are.
pub open spec fn win_hi(raw: Seq<u8>, width: nat, sx: nat) -> nat {
    let e = (sx + 1) * per_window(raw, width);
    if e <= n_samples(raw) {
        e
    } else {
        n_samples(raw)
    }
}

/// Largest positive sample in `[lo, hi)`, or 0.
pub open spec fn pos_max(raw: Seq<u8>, lo: int, hi: int) -> int
    decreases hi - lo,
{
    if hi <= lo {
        0
    } else {
        let m = pos_max(raw, lo, hi - 1);
        let v = sample_at(raw, hi - 1);
        if v > 0 && v > m {
            v
        } else {
            m
        }
    }
}

/// Largest magnitude of a negative sample in `[lo, hi)`, or 0.
pub open spec fn neg_max(raw: Seq<u8>, lo: int, hi: int) -> int
    decreases hi - lo,
{
    if hi <= lo {
        0
    } else {
        let m = neg_max(raw, lo, hi - 1);
        let v = sample_at(raw, hi - 1);
        if v < 0 && -v > m {
            -v
        } else {
            m
        }
    }
}

/// Positive envelope of window `sx`.
pub open spec fn env_pos(raw: Seq<u8>, width: nat, sx: nat) -> int {
    pos_max(raw, win_lo(raw, width, sx) as int, win_hi(raw, width, sx) as int)
}

/// Negative envelope (as a magnitude) of window `sx`.
pub open spec fn env_neg(raw: Seq<u8>, width: nat, sx: nat) -> int {
    neg_max(raw, win_lo(raw, width, sx) as int, win_hi(raw, width, sx) as int)
}

/// Largest envelope value over the first `k` windows.
pub open spec fn peak_upto(raw: Seq<u8>, width: nat, k: nat) -> int
    decreases k,
{
    if k == 0 {
        0
    } else {
        let m = peak_upto(raw, width, (k - 1) as nat);
        let p = env_pos(raw, width, (k - 1) as nat);
        let n = env_neg(raw, width, (k - 1) as nat);
        let a = if p > m {
            p
        } else {
            m
        };
        if n > a {
            n
        } else {
            a
        }
    }
}

/// The overall peak of all window envelopes.
pub open spec fn peak(raw: Seq<u8>, width: nat) -> int {
    peak_upto(raw, width, 2 * width)
}

/// Whether dot row `sy` of dot column `sx` is filled.  The upper half
/// (`sy < 2 * height`) shows the positive envelope, filled when
/// `env / peak >= (half - sy) / half`; the lower half shows the negative
/// envelope, filled when `env / peak >= (sy - half + 1) / half`.  Both sides
/// are single-precision quotients: the distances are converted to `f32`,
/// each quotient is rounded to 24 significant bits, and the rounded values
/// are compared.
pub open spec fn filled(raw: Seq<u8>, width: nat, height: nat, sx: nat, sy: nat) -> bool {
    let half = 2 * height;
    let p = peak(raw, width) as nat;
    let t = round24(half);
    if sy < half {
        quot_ge(env_pos(raw, width, sx) as nat, p, round24((half - sy) as nat), t)
    } else {
        quot_ge(env_neg(raw, width, sx) as nat, p, round24((sy - half + 1) as nat), t)
    }
}

/// `bit` where the dot is filled, else 0.
pub open spec fn dot(raw: Seq<u8>, width: nat, height: nat, sx: nat, sy: nat, bit: nat) -> nat {
    if filled(raw, width, height, sx, sy) {
        bit
    } else {
        0
    }
}

/// The braille dot pattern of cell (`row`, `col`): dots 1-2-3-7 down the
/// left column, 4-5-6-8 down the right one.
pub open spec fn cell_bits(raw: Seq<u8>, width: nat, height: nat, row: nat, col: nat) -> nat {
    let x = 2 * col;
    let y = 4 * row;
    dot(raw, width, height, x, y, 0x01) + dot(raw, width, height, x, y + 1, 0x02) + dot(
        raw,
        width,
        height,
        x,
        y + 2,
        0x04,
    ) + dot(raw, width, height, x, y + 3, 0x40) + dot(raw, width, height, x + 1, y, 0x08) + dot(
        raw,
        width,
        height,
        x + 1,
        y + 1,
        0x10,
    ) + dot(raw, width, height, x + 1, y + 2, 0x20) + dot(raw, width, height, x + 1, y + 3, 0x80)
}

/// The character with code point `0x2800 + bits`: a braille cell.
pub open spec fn braille_char(bits: nat) -> char {
    ((0x2800 + bits) as u32) as char
}

/// Whether the `2 * width` windows can all start inside the samples: a
/// positive width and no more than one window past the last sample
/// (`2 * width <= samples + 1`).
pub open spec fn drawable(raw: Seq<u8>, width: nat) -> bool {
    &&& width >= 1
    &&& 2 * width <= n_samples(raw) + 1
}

/// The rendered rows: a note where there is no audio, where the box has no
/// room, where there are too few samples for the windows, or where there is
/// only silence; otherwise `height` rows of `width` braille cells.
pub open spec fn waveform_spec(raw: Seq<u8>, width: nat, height: nat) -> Seq<Seq<char>> {
    if raw.len() < 4 {
        seq!["(no audio data)"@]
    } else if width == 0 {
        seq!["(no room)"@]
    } else if !drawable(raw, width) {
        seq!["(too short to draw)"@]
    } else if peak(raw, width) == 0 {
        seq!["(silent)"@]
    } else {
        Seq::new(
            height,
            |r: int| Seq::new(width, |c: int| braille_char(cell_bits(raw, width, height, r as nat, c as nat))),
        )
    }
}

/// What the renderer can take: where there is audio, a height whose
/// `4 * height` dot rows fit in `usize`.
pub open spec fn renderable(raw: Seq<u8>, width: nat, height: nat) -> bool {
    raw.len() >= 4 ==> 4 * height <= usize::MAX
}

// ─── Laws ───────────────────────────────────────────────────────────────────

/// Bars grow from the centre line: in the upper half a filled dot has every
/// dot below it (down to the centre) filled, and in the lower half every dot
/// above it (up to the centre) filled.
pub proof fn lemma_bars_grow_from_centre(raw: Seq<u8>, width: nat, height: nat, sx: nat, sy: nat)
    requires
        sx < 2 * width,
        sy < 4 * height,
    ensures
        sy + 1 < 2 * height && filled(raw, width, height, sx, sy) ==> filled(
            raw,
            width,
            height,
            sx,
            sy + 1,
        ),
        2 * height < sy && filled(raw, width, height, sx, sy) ==> filled(
            raw,
            width,
            height,
            sx,
            (sy - 1) as nat,
        ),
{
    let half = 2 * height;
    let p = peak(raw, width);
    let t = round24(half);
    lemma_env_le_peak(raw, width, sx, 2 * width);
    lemma_env_bounds(raw, win_lo(raw, width, sx) as int, win_hi(raw, width, sx) as int);
    if sy + 1 < half && filled(raw, width, height, sx, sy) {
        let e = env_pos(raw, width, sx);
        let c1 = round24((half - sy) as nat);
        let c2 = round24((half - sy - 1) as nat);
        lemma_round24_bounds((half - sy - 1) as nat);
        lemma_round24_mono((half - sy - 1) as nat, (half - sy) as nat);
        lemma_round24_mono((half - sy) as nat, half);
        lemma_quot_ge_smaller(e as nat, p as nat, c2, c1, t);
        assert(((half - (sy + 1)) as nat) == ((half - sy - 1) as nat));
    }
    if half < sy && filled(raw, width, height, sx, sy) {
        let e = env_neg(raw, width, sx);
        let c1 = round24((sy - half + 1) as nat);
        let c2 = round24((sy - half) as nat);
        lemma_round24_bounds((sy - half) as nat);
        lemma_round24_mono((sy - half) as nat, (sy - half + 1) as nat);
        lemma_round24_mono((sy - half + 1) as nat, half);
        lemma_quot_ge_smaller(e as nat, p as nat, c2, c1, t);
        assert(((((sy - 1) as nat) - half + 1) as nat) == ((sy - half) as nat));
    }
}

/// Each window's envelopes are at most the peak over the windows after it.
proof fn lemma_env_le_peak(raw: Seq<u8>, width: nat, sx: nat, k: nat)
    requires
        sx < k,
    ensures
        env_pos(raw, width, sx) <= peak_upto(raw, width, k),
        env_neg(raw, width, sx) <= peak_upto(raw, width, k),
    decreases k,
{
    if sx < k - 1 {
        lemma_env_le_peak(raw, width, sx, (k - 1) as nat);
    }
}

/// Every envelope value, and so the peak, is non-negative.
pub proof fn lemma_peak_nonneg(raw: Seq<u8>, width: nat, k: nat)
    ensures
        peak_upto(raw, width, k) >= 0,
    decreases k,
{
    if k > 0 {
        lemma_peak_nonneg(raw, width, (k - 1) as nat);
    }
}

// ─── Laws relating two signals ───────────────────────────────────────────

/// The dot pattern of eight dots: `a0..a3` down the left column, `b0..b3`
/// down the right one, with the braille bit of each.
pub open spec fn pattern(
    a0: bool,
    a1: bool,
    a2: bool,
    a3: bool,
    b0: bool,
    b1: bool,
    b2: bool,
    b3: bool,
) -> u8 {
    (if a0 { 0x01u8 } else { 0u8 }) | (if a1 { 0x02u8 } else { 0u8 }) | (if a2 { 0x04u8 } else { 0u8 })
        | (if a3 { 0x40u8 } else { 0u8 }) | (if b0 { 0x08u8 } else { 0u8 }) | (if b1 { 0x10u8 } else {
        0u8
    }) | (if b2 { 0x20u8 } else { 0u8 }) | (if b3 { 0x80u8 } else { 0u8 })
}

/// A braille dot pattern turned upside down: dots 1 and 7, 2 and 3, 4 and 8,
/// 5 and 6 change places.
pub open spec fn flip_bits(b: u8) -> u8 {
    ((b & 0x01u8) << 6u8) | ((b & 0x40u8) >> 6u8) | ((b & 0x02u8) << 1u8) | ((b & 0x04u8) >> 1u8) | ((b
        & 0x08u8) << 4u8) | ((b & 0x80u8) >> 4u8) | ((b & 0x10u8) << 1u8) | ((b & 0x20u8) >> 1u8)
}

proof fn lemma_pattern_sum(
    a0: bool,
    a1: bool,
    a2: bool,
    a3: bool,
    b0: bool,
    b1: bool,
    b2: bool,
    b3: bool,
)
    by (bit_vector)
    ensures
        pattern(a0, a1, a2, a3, b0, b1, b2, b3) as u32 == (if a0 { 0x01u32 } else { 0u32 }) + (if a1 {
            0x02u32
        } else {
            0u32
        }) + (if a2 { 0x04u32 } else { 0u32 }) + (if a3 { 0x40u32 } else { 0u32 }) + (if b0 {
            0x08u32
        } else {
            0u32
        }) + (if b1 { 0x10u32 } else { 0u32 }) + (if b2 { 0x20u32 } else { 0u32 }) + (if b3 {
            0x80u32
        } else {
            0u32
        }),
{
}

proof fn lemma_pattern_flip(
    a0: bool,
    a1: bool,
    a2: bool,
    a3: bool,
    b0: bool,
    b1: bool,
    b2: bool,
    b3: bool,
)
    by (bit_vector)
    ensures
        flip_bits(pattern(a0, a1, a2, a3, b0, b1, b2, b3)) == pattern(a3, a2, a1, a0, b3, b2, b1, b0),
{
}

/// The dot pattern of cell (`row`, `col`) as a byte.
pub open spec fn cell_pattern(raw: Seq<u8>, width: nat, height: nat, row: nat, col: nat) -> u8 {
    let x = 2 * col;
    let y = 4 * row;
    pattern(
        filled(raw, width, height, x, y),
        filled(raw, width, height, x, y + 1),
        filled(raw, width, height, x, y + 2),
        filled(raw, width, height, x, y + 3),
        filled(raw, width, height, x + 1, y),
        filled(raw, width, height, x + 1, y + 1),
        filled(raw, width, height, x + 1, y + 2),
        filled(raw, width, height, x + 1, y + 3),
    )
}

proof fn lemma_cell_pattern(raw: Seq<u8>, width: nat, height: nat, row: nat, col: nat)
    ensures
        cell_bits(raw, width, height, row, col) == cell_pattern(raw, width, height, row, col) as nat,
{
    let x = 2 * col;
    let y = 4 * row;
    lemma_pattern_sum(
        filled(raw, width, height, x, y),
        filled(raw, width, height, x, y + 1),
        filled(raw, width, height, x, y + 2),
        filled(raw, width, height, x, y + 3),
        filled(raw, width, height, x + 1, y),
        filled(raw, width, height, x + 1, y + 1),
        filled(raw, width, height, x + 1, y + 2),
        filled(raw, width, height, x + 1, y + 3),
    );
}

proof fn lemma_negated_maxes(raw: Seq<u8>, raw2: Seq<u8>, lo: int, hi: int)
    requires
        raw2.len() == raw.len(),
        0 <= lo,
        hi <= n_samples(raw),
        forall|i: int| 0 <= i < n_samples(raw) ==> #[trigger] sample_at(raw2, i) == -sample_at(raw, i),
    ensures
        pos_max(raw2, lo, hi) == neg_max(raw, lo, hi),
        neg_max(raw2, lo, hi) == pos_max(raw, lo, hi),
    decreases hi - lo,
{
    if hi > lo {
        lemma_negated_maxes(raw, raw2, lo, hi - 1);
        assert(sample_at(raw2, hi - 1) == -sample_at(raw, hi - 1));
    }
}

proof fn lemma_negated_peak(raw: Seq<u8>, raw2: Seq<u8>, width: nat, k: nat)
    requires
        raw2.len() == raw.len(),
        forall|i: int| 0 <= i < n_samples(raw) ==> #[trigger] sample_at(raw2, i) == -sample_at(raw, i),
    ensures
        peak_upto(raw2, width, k) == peak_upto(raw, width, k),
        forall|sx: nat| #[trigger] env_pos(raw2, width, sx) == env_neg(raw, width, sx),
        forall|sx: nat| #[trigger] env_neg(raw2, width, sx) == env_pos(raw, width, sx),
    decreases k,
{
    assert forall|sx: nat| #[trigger] env_pos(raw2, width, sx) == env_neg(raw, width, sx) by {
        lemma_negated_maxes(raw, raw2, win_lo(raw, width, sx) as int, win_hi(raw, width, sx) as int);
    }
    assert forall|sx: nat| #[trigger] env_neg(raw2, width, sx) == env_pos(raw, width, sx) by {
        lemma_negated_maxes(raw, raw2, win_lo(raw, width, sx) as int, win_hi(raw, width, sx) as int);
    }
    if k > 0 {
        lemma_negated_peak(raw, raw2, width, (k - 1) as nat);
    }
}

/// Negating every sample turns the drawing upside down: the peak is the
/// same, so one signal is silent exactly when the other is, and otherwise
/// row `r` of the negated signal's drawing is row `height - 1 - r` of the
/// original's with every cell's dot pattern flipped upside down.
pub proof fn lemma_negation_flips(raw: Seq<u8>, raw2: Seq<u8>, width: nat, height: nat)
    requires
        raw.len() >= 4,
        drawable(raw, width),
        raw2.len() == raw.len(),
        forall|i: int| 0 <= i < n_samples(raw) ==> #[trigger] sample_at(raw2, i) == -sample_at(raw, i),
    ensures
        peak(raw2, width) == peak(raw, width),
        (waveform_spec(raw2, width, height) == seq!["(silent)"@]) == (waveform_spec(
            raw,
            width,
            height,
        ) == seq!["(silent)"@]),
        peak(raw, width) == 0 ==> waveform_spec(raw2, width, height) == seq!["(silent)"@]
            && waveform_spec(raw, width, height) == seq!["(silent)"@],
        peak(raw, width) != 0 ==> waveform_spec(raw2, width, height) == flipped_cells(raw, width, height),
        peak(raw, width) != 0 ==> waveform_spec(raw2, width, height) == Seq::new(
            height,
            |r: int|
                Seq::new(
                    width,
                    |c: int| flip_char(waveform_spec(raw, width, height)[height - 1 - r][c]),
                ),
        ),
{
    lemma_negated_peak(raw, raw2, width, 2 * width);
    if peak(raw, width) != 0 {
        lemma_negation_cells(raw, raw2, width, height);
        lemma_flipped_chars(raw, width, height);
        lemma_grid_not_note(raw, width, height);
        lemma_flipped_not_note(raw, width, height);
    }
}

/// The drawing with every row taken from the other end and every cell's dot
/// pattern flipped.
pub open spec fn flipped_cells(raw: Seq<u8>, width: nat, height: nat) -> Seq<Seq<char>> {
    Seq::new(
        height,
        |r: int|
            Seq::new(
                width,
                |c: int|
                    braille_char(
                        flip_bits(cell_bits(raw, width, height, (height - 1 - r) as nat, c as nat) as u8)
                            as nat,
                    ),
            ),
    )
}

proof fn lemma_negation_cells(raw: Seq<u8>, raw2: Seq<u8>, width: nat, height: nat)
    requires
        raw.len() >= 4,
        drawable(raw, width),
        raw2.len() == raw.len(),
        forall|i: int| 0 <= i < n_samples(raw) ==> #[trigger] sample_at(raw2, i) == -sample_at(raw, i),
        peak(raw, width) != 0,
    ensures
        waveform_spec(raw2, width, height) == flipped_cells(raw, width, height),
{
    lemma_negated_peak(raw, raw2, width, 2 * width);
    let half = 2 * height;
    assert forall|sx: nat, sy: nat| sy < 4 * height implies #[trigger] filled(raw2, width, height, sx, sy)
        == filled(raw, width, height, sx, (4 * height - 1 - sy) as nat) by {
        let sy2 = (4 * height - 1 - sy) as nat;
        if sy < half {
            assert(sy2 - half + 1 == half - sy);
        } else {
            assert(half - sy2 == sy - half + 1);
        }
    }
    let g = flipped_cells(raw, width, height);
    let w2 = waveform_spec(raw2, width, height);
    assert forall|r: int| 0 <= r < height implies #[trigger] w2[r] =~= g[r] by {
        assert forall|c: int| 0 <= c < width implies w2[r][c] == g[r][c] by {
            let rr = (height - 1 - r) as nat;
            let x = 2 * (c as nat);
            let y = 4 * (r as nat);
            let y2 = 4 * rr;
            lemma_cell_pattern(raw2, width, height, r as nat, c as nat);
            lemma_cell_pattern(raw, width, height, rr, c as nat);
            assert(filled(raw2, width, height, x, y) == filled(raw, width, height, x, y2 + 3));
            assert(filled(raw2, width, height, x, y + 1) == filled(raw, width, height, x, y2 + 2));
            assert(filled(raw2, width, height, x, y + 2) == filled(raw, width, height, x, y2 + 1));
            assert(filled(raw2, width, height, x, y + 3) == filled(raw, width, height, x, y2));
            assert(filled(raw2, width, height, x + 1, y) == filled(raw, width, height, x + 1, y2 + 3));
            assert(filled(raw2, width, height, x + 1, y + 1) == filled(raw, width, height, x + 1, y2 + 2));
            assert(filled(raw2, width, height, x + 1, y + 2) == filled(raw, width, height, x + 1, y2 + 1));
            assert(filled(raw2, width, height, x + 1, y + 3) == filled(raw, width, height, x + 1, y2));
            lemma_pattern_flip(
                filled(raw, width, height, x, y2),
                filled(raw, width, height, x, y2 + 1),
                filled(raw, width, height, x, y2 + 2),
                filled(raw, width, height, x, y2 + 3),
                filled(raw, width, height, x + 1, y2),
                filled(raw, width, height, x + 1, y2 + 1),
                filled(raw, width, height, x + 1, y2 + 2),
                filled(raw, width, height, x + 1, y2 + 3),
            );
            assert(cell_pattern(raw2, width, height, r as nat, c as nat) == flip_bits(
                cell_pattern(raw, width, height, rr, c as nat),
            ));
        }
    }
    assert(w2 =~= g);
}

proof fn lemma_flipped_chars(raw: Seq<u8>, width: nat, height: nat)
    requires
        raw.len() >= 4,
        drawable(raw, width),
        peak(raw, width) != 0,
    ensures
        flipped_cells(raw, width, height) == Seq::new(
            height,
            |r: int|
                Seq::new(
                    width,
                    |c: int| flip_char(waveform_spec(raw, width, height)[height - 1 - r][c]),
                ),
        ),
{
    let g = flipped_cells(raw, width, height);
    let w1 = waveform_spec(raw, width, height);
    let g2 = Seq::new(
        height,
        |r: int| Seq::new(width, |c: int| flip_char(w1[height - 1 - r][c])),
    );
    assert forall|r: int| 0 <= r < height implies #[trigger] g[r] =~= g2[r] by {
        assert forall|c: int| 0 <= c < width implies g[r][c] == g2[r][c] by {
            let rr = (height - 1 - r) as nat;
            lemma_cell_pattern(raw, width, height, rr, c as nat);
            let b = cell_bits(raw, width, height, rr, c as nat);
            lemma_braille_code(b);
            assert(w1[height - 1 - r][c] == braille_char(b));
        }
    }
    assert(g =~= g2);
}

proof fn lemma_flipped_not_note(raw: Seq<u8>, width: nat, height: nat)
    ensures
        flipped_cells(raw, width, height) != seq!["(silent)"@],
{
    reveal_strlit("(silent)");
    let w = flipped_cells(raw, width, height);
    if height == 1 && width == 8 {
        lemma_cell_pattern(raw, width, height, 0, 0);
        lemma_braille_code(flip_bits(cell_bits(raw, width, height, 0, 0) as u8) as nat);
        assert(w[0][0] != "(silent)"@[0]);
    } else if height == 1 {
        assert(w[0].len() != "(silent)"@.len());
    } else {
        assert(w.len() != 1);
    }
}

/// A drawing is never the "(silent)" note: its cells are braille characters.
proof fn lemma_grid_not_note(raw: Seq<u8>, width: nat, height: nat)
    requires
        raw.len() >= 4,
        drawable(raw, width),
        peak(raw, width) != 0,
    ensures
        waveform_spec(raw, width, height) != seq!["(silent)"@],
{
    reveal_strlit("(silent)");
    let w = waveform_spec(raw, width, height);
    if height == 1 && width == 8 {
        lemma_cell_pattern(raw, width, height, 0, 0);
        lemma_braille_code(cell_bits(raw, width, height, 0, 0));
        assert(w[0][0] != "(silent)"@[0]);
    } else if height == 1 {
        assert(w[0].len() != "(silent)"@.len());
    } else {
        assert(w.len() != 1);
    }
}

proof fn lemma_scaled_maxes(raw: Seq<u8>, raw2: Seq<u8>, k: int, lo: int, hi: int)
    requires
        raw2.len() == raw.len(),
        k >= 1,
        0 <= lo,
        hi <= n_samples(raw),
        forall|i: int| 0 <= i < n_samples(raw) ==> #[trigger] sample_at(raw2, i) == k * sample_at(raw, i),
    ensures
        pos_max(raw2, lo, hi) == k * pos_max(raw, lo, hi),
        neg_max(raw2, lo, hi) == k * neg_max(raw, lo, hi),
    decreases hi - lo,
{
    if hi > lo {
        lemma_scaled_maxes(raw, raw2, k, lo, hi - 1);
        let v = sample_at(raw, hi - 1);
        assert(sample_at(raw2, hi - 1) == k * v);
        let m = pos_max(raw, lo, hi - 1);
        let n = neg_max(raw, lo, hi - 1);
        assert((k * v > 0) == (v > 0) && (k * v > k * m) == (v > m)) by (nonlinear_arith)
            requires
                k >= 1,
        ;
        assert((k * v < 0) == (v < 0) && (-(k * v) > k * n) == (-v > n) && -(k * v) == k * (-v))
            by (nonlinear_arith)
            requires
                k >= 1,
        ;
    }
}

proof fn lemma_scaled_peak(raw: Seq<u8>, raw2: Seq<u8>, k: int, width: nat, j: nat)
    requires
        raw2.len() == raw.len(),
        k >= 1,
        forall|i: int| 0 <= i < n_samples(raw) ==> #[trigger] sample_at(raw2, i) == k * sample_at(raw, i),
    ensures
        peak_upto(raw2, width, j) == k * peak_upto(raw, width, j),
        forall|sx: nat| #[trigger] env_pos(raw2, width, sx) == k * env_pos(raw, width, sx),
        forall|sx: nat| #[trigger] env_neg(raw2, width, sx) == k * env_neg(raw, width, sx),
    decreases j,
{
    assert forall|sx: nat| #[trigger] env_pos(raw2, width, sx) == k * env_pos(raw, width, sx) by {
        lemma_scaled_maxes(raw, raw2, k, win_lo(raw, width, sx) as int, win_hi(raw, width, sx) as int);
    }
    assert forall|sx: nat| #[trigger] env_neg(raw2, width, sx) == k * env_neg(raw, width, sx) by {
        lemma_scaled_maxes(raw, raw2, k, win_lo(raw, width, sx) as int, win_hi(raw, width, sx) as int);
    }
    if j > 0 {
        lemma_scaled_peak(raw, raw2, k, width, (j - 1) as nat);
        let m = peak_upto(raw, width, (j - 1) as nat);
        let p = env_pos(raw, width, (j - 1) as nat);
        let n = env_neg(raw, width, (j - 1) as nat);
        let a: int = if p > m { p } else { m };
        assert((k * p > k * m) == (p > m)) by (nonlinear_arith)
            requires
                k >= 1,
        ;
        assert((k * n > k * a) == (n > a)) by (nonlinear_arith)
            requires
                k >= 1,
        ;
    }
}

/// Only relative amplitude matters: multiplying every sample by the same
/// factor `k >= 1` leaves the rendered rows unchanged, the drawing being
/// normalised by the peak.
pub proof fn lemma_scale_invariant(raw: Seq<u8>, raw2: Seq<u8>, k: int, width: nat, height: nat)
    requires
        raw2.len() == raw.len(),
        k >= 1,
        forall|i: int| 0 <= i < n_samples(raw) ==> #[trigger] sample_at(raw2, i) == k * sample_at(raw, i),
    ensures
        waveform_spec(raw2, width, height) == waveform_spec(raw, width, height),
{
    lemma_scaled_peak(raw, raw2, k, width, 2 * width);
    let p = peak(raw, width);
    assert((k * p == 0) == (p == 0)) by (nonlinear_arith)
        requires
            k >= 1,
    ;
    lemma_peak_bounds(raw, width, 2 * width);
    assert forall|sx: nat, sy: nat| sx < 2 * width implies #[trigger] filled(
        raw2,
        width,
        height,
        sx,
        sy,
    ) == filled(raw, width, height, sx, sy) by {
        lemma_env_le_peak(raw, width, sx, 2 * width);
        lemma_env_bounds(raw, win_lo(raw, width, sx) as int, win_hi(raw, width, sx) as int);
        let half = 2 * height;
        let e: int = if sy < half {
            env_pos(raw, width, sx)
        } else {
            env_neg(raw, width, sx)
        };
        let e2: int = if sy < half {
            env_pos(raw2, width, sx)
        } else {
            env_neg(raw2, width, sx)
        };
        let c = if sy < half {
            round24((half - sy) as nat)
        } else {
            round24((sy - half + 1) as nat)
        };
        let t = round24(half);
        assert(e2 == k * e);
        assert(0 <= e <= p);
        assert(filled(raw, width, height, sx, sy) == quot_ge(e as nat, p as nat, c, t));
        assert(filled(raw2, width, height, sx, sy) == quot_ge(e2 as nat, (k * p) as nat, c, t));
        if e > 0 {
            lemma_quot_scale(e as nat, p as nat, k as nat);
            assert((k * e) as nat == (k as nat) * (e as nat) && (k * p) as nat == (k as nat) * (
            p as nat) && k * e > 0) by (nonlinear_arith)
                requires
                    k >= 1,
                    e > 0,
                    p >= e,
            ;
        } else {
            assert(k * e == 0) by (nonlinear_arith)
                requires
                    e == 0,
            ;
        }
    }
    let w1 = waveform_spec(raw, width, height);
    let w2 = waveform_spec(raw2, width, height);
    if raw.len() >= 4 && drawable(raw, width) && p != 0 {
        assert forall|r: int| 0 <= r < height implies #[trigger] w2[r] =~= w1[r] by {
            assert forall|c: int| 0 <= c < width implies w2[r][c] == w1[r][c] by {
                lemma_cell_pattern(raw2, width, height, r as nat, c as nat);
                lemma_cell_pattern(raw, width, height, r as nat, c as nat);
                let x = 2 * (c as nat);
                let y = 4 * (r as nat);
                assert(filled(raw2, width, height, x, y) == filled(raw, width, height, x, y));
                assert(filled(raw2, width, height, x, y + 1) == filled(raw, width, height, x, y + 1));
                assert(filled(raw2, width, height, x, y + 2) == filled(raw, width, height, x, y + 2));
                assert(filled(raw2, width, height, x, y + 3) == filled(raw, width, height, x, y + 3));
                assert(filled(raw2, width, height, x + 1, y) == filled(raw, width, height, x + 1, y));
                assert(filled(raw2, width, height, x + 1, y + 1) == filled(raw, width, height, x + 1, y + 1));
                assert(filled(raw2, width, height, x + 1, y + 2) == filled(raw, width, height, x + 1, y + 2));
                assert(filled(raw2, width, height, x + 1, y + 3) == filled(raw, width, height, x + 1, y + 3));
            }
        }
        assert(w2 =~= w1);
    }
}

/// A braille cell turned upside down.
pub open spec fn flip_char(ch: char) -> char {
    braille_char(flip_bits(((ch as u32) - 0x2800) as u8) as nat)
}

proof fn lemma_braille_code(b: nat)
    requires
        b < 256,
    ensures
        braille_char(b) as u32 == 0x2800 + b,
{
}

// ─── Executable renderer ────────────────────────────────────────────────────

/// std `char::from_u32`: the character whose code point is `v`, or `None`
/// where `v` is a surrogate or beyond U+10FFFF.
#[verifier::external_body]
fn char_from_u32(v: u32) -> (r: Option<char>)
    ensures
        (v < 0xD800 || (0xE000 <= v && v <= 0x10FFFF)) ==> (r is Some && r->0 as u32 == v),
        !(v < 0xD800 || (0xE000 <= v && v <= 0x10FFFF)) ==> r is None,
{
    char::from_u32(v)
}

/// The samples of `raw` as integers.
fn decode_samples(raw: &[u8]) -> (s: Vec<i32>)
    ensures
        s@.len() == n_samples(raw@),
        forall|k: int| 0 <= k < s@.len() ==> #[trigger] s@[k] == sample_at(raw@, k),
{
    let rl = raw.len();
    let n = rl / 2;
    let mut s: Vec<i32> = Vec::new();
    let mut k: usize = 0;
    while k < n
        invariant
            rl == raw@.len(),
            n == n_samples(raw@),
            k <= n,
            s@.len() == k,
            forall|j: int| 0 <= j < k ==> #[trigger] s@[j] == sample_at(raw@, j),
        decreases n - k,
    {
        assert(2 * k + 1 < raw@.len());
        let lo = raw[2 * k] as i32;
        let hi = raw[2 * k + 1] as i32;
        let u = lo + 256 * hi;
        let v = if u >= 32768 {
            u - 65536
        } else {
            u
        };
        s.push(v);
        k = k + 1;
    }
    s
}

proof fn lemma_window_bounds(n: nat, sw: nat, per: nat, sx: nat)
    requires
        sw >= 1,
        sx < sw,
        sw <= n + 1,
        per == (if n / sw >= 1 {
            n / sw
        } else {
            1
        }),
    ensures
        sx * per <= n,
        per >= 1,
        (sx + 1) * per <= n || per == 1,
        sx * per <= if (sx + 1) * per <= n {
            (sx + 1) * per
        } else {
            n
        },
{
    if n / sw >= 1 {
        assert(sw * (n / sw) <= n) by (nonlinear_arith)
            requires
                sw >= 1,
        ;
        assert((sx + 1) * per <= sw * per) by (nonlinear_arith)
            requires
                sx + 1 <= sw,
        ;
        assert(sx * per <= (sx + 1) * per) by (nonlinear_arith)
            requires
                per >= 0,
        ;
    } else {
        assert(sx * per == sx);
        assert((sx + 1) * per == sx + 1);
    }
}

/// The positive and negative envelopes of every window.
fn envelopes(samples: &Vec<i32>, raw: Ghost<Seq<u8>>, width: usize) -> (res: (Vec<i32>, Vec<i32>))
    requires
        samples@.len() == n_samples(raw@),
        forall|k: int| 0 <= k < samples@.len() ==> #[trigger] samples@[k] == sample_at(raw@, k),
        width >= 1,
        2 * width <= n_samples(raw@) + 1,
        raw@.len() <= usize::MAX,
    ensures
        res.0@.len() == 2 * width,
        res.1@.len() == 2 * width,
        forall|sx: int| 0 <= sx < 2 * width ==> #[trigger] res.0@[sx] == env_pos(raw@, width as nat, sx as nat),
        forall|sx: int| 0 <= sx < 2 * width ==> #[trigger] res.1@[sx] == env_neg(raw@, width as nat, sx as nat),
{
    let n = samples.len();
    let sw = width * 2;
    let q = n / sw;
    let per = if q >= 1 {
        q
    } else {
        1
    };
    assert(per == per_window(raw@, width as nat));
    let mut pos: Vec<i32> = Vec::new();
    let mut neg: Vec<i32> = Vec::new();
    let mut sx: usize = 0;
    while sx < sw
        invariant
            n == samples@.len() == n_samples(raw@),
            forall|k: int| 0 <= k < samples@.len() ==> #[trigger] samples@[k] == sample_at(raw@, k),
            sw == 2 * width,
            1 <= sw <= n + 1,
            per == per_window(raw@, width as nat),
            per == (if n / sw >= 1 {
                n / sw
            } else {
                1
            }),
            sx <= sw,
            pos@.len() == sx,
            neg@.len() == sx,
            forall|j: int| 0 <= j < sx ==> #[trigger] pos@[j] == env_pos(raw@, width as nat, j as nat),
            forall|j: int| 0 <= j < sx ==> #[trigger] neg@[j] == env_neg(raw@, width as nat, j as nat),
        decreases sw - sx,
    {
        proof {
            lemma_window_bounds(n as nat, sw as nat, per as nat, sx as nat);
        }
        let start = sx * per;
        let end = if per == 1 {
            if sx + 1 <= n {
                sx + 1
            } else {
                n
            }
        } else {
            (sx + 1) * per
        };
        assert(start == win_lo(raw@, width as nat, sx as nat));
        assert(end == win_hi(raw@, width as nat, sx as nat));
        let mut p: i32 = 0;
        let mut m: i32 = 0;
        let mut t = start;
        while t < end
            invariant
                n == samples@.len(),
                forall|k: int| 0 <= k < samples@.len() ==> #[trigger] samples@[k] == sample_at(raw@, k),
                start <= t <= end <= n,
                p == pos_max(raw@, start as int, t as int),
                m == neg_max(raw@, start as int, t as int),
                0 <= p <= 32768,
                0 <= m <= 32768,
            decreases end - t,
        {
            let v = samples[t];
            assert(-32768 <= v < 32768);
            if v > 0 && v > p {
                p = v;
            } else if v < 0 && -v > m {
                m = -v;
            }
            t = t + 1;
        }
        pos.push(p);
        neg.push(m);
        sx = sx + 1;
    }
    (pos, neg)
}

/// Envelope values and the peak lie in `0..=32768`.
proof fn lemma_env_bounds(raw: Seq<u8>, lo: int, hi: int)
    ensures
        0 <= pos_max(raw, lo, hi) <= 32768,
        0 <= neg_max(raw, lo, hi) <= 32768,
    decreases hi - lo,
{
    if hi > lo {
        lemma_env_bounds(raw, lo, hi - 1);
    }
}

proof fn lemma_peak_bounds(raw: Seq<u8>, width: nat, k: nat)
    ensures
        0 <= peak_upto(raw, width, k) <= 32768,
    decreases k,
{
    if k > 0 {
        lemma_peak_bounds(raw, width, (k - 1) as nat);
        let sx = (k - 1) as nat;
        lemma_env_bounds(raw, win_lo(raw, width, sx) as int, win_hi(raw, width, sx) as int);
    }
}

/// Whether dot (`sx`, `sy`) is filled, given the envelopes and the peak.
fn is_filled(
    pos: &Vec<i32>,
    neg: &Vec<i32>,
    peak_v: i32,
    raw: Ghost<Seq<u8>>,
    width: usize,
    height: usize,
    sx: usize,
    sy: usize,
) -> (b: bool)
    requires
        sx < 2 * width,
        pos@.len() == 2 * width,
        neg@.len() == 2 * width,
        forall|j: int| 0 <= j < 2 * width ==> #[trigger] pos@[j] == env_pos(raw@, width as nat, j as nat),
        forall|j: int| 0 <= j < 2 * width ==> #[trigger] neg@[j] == env_neg(raw@, width as nat, j as nat),
        peak_v == peak(raw@, width as nat),
        peak_v != 0,
        4 * height <= usize::MAX,
        sy < 4 * height,
    ensures
        b == filled(raw@, width as nat, height as nat, sx as nat, sy as nat),
{
    proof {
        lemma_env_bounds(raw@, win_lo(raw@, width as nat, sx as nat) as int, win_hi(raw@, width as nat, sx as nat) as int);
        lemma_peak_bounds(raw@, width as nat, 2 * width as nat);
    }
    let half = 2 * height;
    let pk = peak_v as u128;
    proof {
        lemma_pow2_values();
        lemma_env_le_peak(raw@, width as nat, sx as nat, 2 * width as nat);
        lemma_round24_below(half as nat);
    }
    let t = round24_exec(half as u128);
    if sy < half {
        let e = pos[sx] as u128;
        let c = round24_exec((half - sy) as u128);
        proof {
            lemma_round24_mono((half - sy) as nat, half as nat);
        }
        quot_ge_exec(e, pk, c, t)
    } else {
        let e = neg[sx] as u128;
        let c = round24_exec((sy - half + 1) as u128);
        proof {
            lemma_round24_mono((sy - half + 1) as nat, half as nat);
        }
        quot_ge_exec(e, pk, c, t)
    }
}

/// The dot pattern of cell (`row`, `col`).
fn cell(
    pos: &Vec<i32>,
    neg: &Vec<i32>,
    peak_v: i32,
    raw: Ghost<Seq<u8>>,
    width: usize,
    height: usize,
    row: usize,
    col: usize,
) -> (b: u32)
    requires
        col < width,
        row < height,
        2 * width <= usize::MAX,
        pos@.len() == 2 * width,
        neg@.len() == 2 * width,
        forall|j: int| 0 <= j < 2 * width ==> #[trigger] pos@[j] == env_pos(raw@, width as nat, j as nat),
        forall|j: int| 0 <= j < 2 * width ==> #[trigger] neg@[j] == env_neg(raw@, width as nat, j as nat),
        peak_v == peak(raw@, width as nat),
        peak_v != 0,
        4 * height <= usize::MAX,
    ensures
        b == cell_bits(raw@, width as nat, height as nat, row as nat, col as nat),
        b < 256,
{
    let x = col * 2;
    let y = row * 4;
    let mut b: u32 = 0;
    if is_filled(pos, neg, peak_v, raw, width, height, x, y) {
        b = b + 0x01;
    }
    if is_filled(pos, neg, peak_v, raw, width, height, x, y + 1) {
        b = b + 0x02;
    }
    if is_filled(pos, neg, peak_v, raw, width, height, x, y + 2) {
        b = b + 0x04;
    }
    if is_filled(pos, neg, peak_v, raw, width, height, x, y + 3) {
        b = b + 0x40;
    }
    if is_filled(pos, neg, peak_v, raw, width, height, x + 1, y) {
        b = b + 0x08;
    }
    if is_filled(pos, neg, peak_v, raw, width, height, x + 1, y + 1) {
        b = b + 0x10;
    }
    if is_filled(pos, neg, peak_v, raw, width, height, x + 1, y + 2) {
        b = b + 0x20;
    }
    if is_filled(pos, neg, peak_v, raw, width, height, x + 1, y + 3) {
        b = b + 0x80;
    }
    b
}

/// Renders the waveform of 16-bit little-endian mono PCM as `height` rows of
/// `width` braille cells.  Fewer than two samples give "(no audio data)", a
/// zero width "(no room)", fewer than `2 * width - 1` samples
/// "(too short to draw)", and a silent signal "(silent)".
pub fn render_waveform(raw: &[u8], width: usize, height: usize) -> (rows: Vec<String>)
    requires
        renderable(raw@, width as nat, height as nat),
    ensures
        string_views(rows@) == waveform_spec(raw@, width as nat, height as nat),
        raw@.len() < 4 ==> string_views(rows@) == seq!["(no audio data)"@],
        raw@.len() >= 4 && width == 0 ==> string_views(rows@) == seq!["(no room)"@],
        raw@.len() >= 4 && width >= 1 && !drawable(raw@, width as nat) ==> string_views(rows@)
            == seq!["(too short to draw)"@],
        raw@.len() >= 4 && drawable(raw@, width as nat) && peak(raw@, width as nat) == 0
            ==> string_views(rows@) == seq!["(silent)"@],
        raw@.len() >= 4 && drawable(raw@, width as nat) && peak(raw@, width as nat) != 0 ==> {
            &&& rows@.len() == height
            &&& forall|r: int|
                0 <= r < height ==> {
                    &&& (#[trigger] rows@[r])@.len() == width
                    &&& forall|c: int|
                        0 <= c < width ==> (#[trigger] rows@[r]@[c]) as u32 == 0x2800 + cell_bits(
                            raw@,
                            width as nat,
                            height as nat,
                            r as nat,
                            c as nat,
                        )
                }
        },
{
    if raw.len() < 4 {
        let mut rows: Vec<String> = Vec::new();
        rows.push(String::from_str("(no audio data)"));
        assert(string_views(rows@) =~= seq!["(no audio data)"@]);
        return rows;
    }
    assert(raw@.len() == raw.len());
    if width == 0 {
        let mut rows: Vec<String> = Vec::new();
        rows.push(String::from_str("(no room)"));
        assert(string_views(rows@) =~= seq!["(no room)"@]);
        return rows;
    }
    if width > (raw.len() / 2 + 1) / 2 {
        let mut rows: Vec<String> = Vec::new();
        rows.push(String::from_str("(too short to draw)"));
        assert(string_views(rows@) =~= seq!["(too short to draw)"@]);
        return rows;
    }
    let samples = decode_samples(raw);
    let (pos, neg) = envelopes(&samples, Ghost(raw@), width);
    let sw = width * 2;
    let mut peak_v: i32 = 0;
    let mut k: usize = 0;
    while k < sw
        invariant
            sw == 2 * width,
            pos@.len() == sw,
            neg@.len() == sw,
            forall|sx: int| 0 <= sx < sw ==> #[trigger] pos@[sx] == env_pos(raw@, width as nat, sx as nat),
            forall|sx: int| 0 <= sx < sw ==> #[trigger] neg@[sx] == env_neg(raw@, width as nat, sx as nat),
            k <= sw,
            peak_v == peak_upto(raw@, width as nat, k as nat),
        decreases sw - k,
    {
        if pos[k] > peak_v {
            peak_v = pos[k];
        }
        if neg[k] > peak_v {
            peak_v = neg[k];
        }
        k = k + 1;
    }
    if peak_v == 0 {
        let mut rows: Vec<String> = Vec::new();
        rows.push(String::from_str("(silent)"));
        assert(string_views(rows@) =~= seq!["(silent)"@]);
        return rows;
    }
    let mut rows: Vec<String> = Vec::new();
    let mut row: usize = 0;
    while row < height
        invariant
            sw == 2 * width,
            pos@.len() == sw,
            neg@.len() == sw,
            forall|sx: int| 0 <= sx < sw ==> #[trigger] pos@[sx] == env_pos(raw@, width as nat, sx as nat),
            forall|sx: int| 0 <= sx < sw ==> #[trigger] neg@[sx] == env_neg(raw@, width as nat, sx as nat),
            peak_v == peak(raw@, width as nat),
            peak_v != 0,
            4 * height <= usize::MAX,
            2 * width <= usize::MAX,
            rows@.len() == row,
            row <= height,
            forall|r: int|
                0 <= r < row ==> {
                    &&& (#[trigger] rows@[r])@.len() == width
                    &&& forall|c: int|
                        0 <= c < width ==> (#[trigger] rows@[r]@[c]) as u32 == 0x2800 + cell_bits(
                            raw@,
                            width as nat,
                            height as nat,
                            r as nat,
                            c as nat,
                        )
                },
        decreases height - row,
    {
        let mut line = String::new();
        let mut col: usize = 0;
        while col < width
            invariant
                sw == 2 * width,
                pos@.len() == sw,
                neg@.len() == sw,
                forall|sx: int| 0 <= sx < sw ==> #[trigger] pos@[sx] == env_pos(raw@, width as nat, sx as nat),
                forall|sx: int| 0 <= sx < sw ==> #[trigger] neg@[sx] == env_neg(raw@, width as nat, sx as nat),
                peak_v == peak(raw@, width as nat),
                peak_v != 0,
                4 * height <= usize::MAX,
                2 * width <= usize::MAX,
                row < height,
                line@.len() == col,
                col <= width,
                forall|c: int|
                    0 <= c < col ==> (#[trigger] line@[c]) as u32 == 0x2800 + cell_bits(
                        raw@,
                        width as nat,
                        height as nat,
                        row as nat,
                        c as nat,
                    ),
            decreases width - col,
        {
            let b = cell(&pos, &neg, peak_v, Ghost(raw@), width, height, row, col);
            let c = match char_from_u32(0x2800 + b) {
                Some(c) => c,
                None => ' ',
            };
            proof {
                vstd::utf8::char_u32_cast(c, c as u32);
            }
            assert(c == braille_char(b as nat));
            push_char(&mut line, c);
            col = col + 1;
        }
        rows.push(line);
        row = row + 1;
    }
    assert(string_views(rows@) =~= waveform_spec(raw@, width as nat, height as nat)) by {
        assert forall|r: int| 0 <= r < height implies #[trigger] string_views(rows@)[r] =~= waveform_spec(raw@, width as nat, height as nat)[r] by {
            assert forall|c: int| 0 <= c < width implies #[trigger] rows@[r]@[c] == braille_char(cell_bits(raw@, width as nat, height as nat, r as nat, c as nat)) by {
                let x = rows@[r]@[c];
                vstd::utf8::char_u32_cast(x, x as u32);
            }
        }
    }
    rows
}

} // verus!

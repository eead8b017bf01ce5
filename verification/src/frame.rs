//! The outer box: rounded top and bottom borders, section dividers and rows.
//!
//! Outer box uses single-line rounded corners:  ╭─  ─╮  │  │  ╰─  ─╯
//! Section dividers use mixed single/double:    ╞══  ══╡
//! Each border or row is exactly `width` columns wide whenever its content
//! fits (see the `lemma_*_width` laws).
use vstd::prelude::*;
use crate::text::{
    repeat_char, sat_sub, visible_len, is_closed, rpad_spec, lemma_visible_concat, lemma_plain,
    lemma_repeat_plain, lemma_rpad_width, push_char, push_str, push_repeat, vlen, rpad,
};
use crate::ansi::{dim_seq, reset_seq, lemma_codes_invisible, dim, reset};

verus! {

/// `n` light horizontal lines.
pub open spec fn dashes_spec(n: nat) -> Seq<char> {
    repeat_char('\u{2500}', n)
}

/// `n` double horizontal lines.
pub open spec fn equals_spec(n: nat) -> Seq<char> {
    repeat_char('\u{2550}', n)
}

/// "╭─ TITLE ─────╮"
pub open spec fn top_border_spec(title: Seq<char>, width: nat) -> Seq<char> {
    dim_seq() + seq!['\u{256d}', '\u{2500}', ' '] + reset_seq() + title + seq![' '] + dim_seq()
        + dashes_spec(sat_sub(width, 5 + visible_len(title))) + seq!['\u{256e}']
        + reset_seq()
}

/// "╞══ TITLE ════╡"
pub open spec fn section_border_spec(title: Seq<char>, width: nat) -> Seq<char> {
    dim_seq() + seq!['\u{255e}', '\u{2550}', '\u{2550}', ' '] + reset_seq() + title + seq![' ']
        + dim_seq() + equals_spec(sat_sub(width, 6 + visible_len(title))) + seq![
        '\u{2561}',
    ] + reset_seq()
}

/// "╰─────────────╯"
pub open spec fn bottom_border_spec(width: nat) -> Seq<char> {
    dim_seq() + seq!['\u{2570}'] + dashes_spec(sat_sub(width, 2)) + seq!['\u{256f}']
        + reset_seq()
}

/// "│ CONTENT              │", with the content padded to `width - 4` columns.
pub open spec fn meta_row_spec(content: Seq<char>, width: nat) -> Seq<char> {
    dim_seq() + seq!['\u{2502}'] + reset_seq() + seq![' '] + rpad_spec(
        content,
        sat_sub(width, 4),
    ) + seq![' '] + dim_seq() + seq!['\u{2502}'] + reset_seq()
}

/// "│CONTENT│"
pub open spec fn wave_row_spec(content: Seq<char>) -> Seq<char> {
    dim_seq() + seq!['\u{2502}'] + reset_seq() + content + dim_seq() + seq!['\u{2502}']
        + reset_seq()
}

pub fn dashes(n: usize) -> (r: String)
    ensures
        r@ == dashes_spec(n as nat),
{
    let mut r = String::new();
    push_repeat(&mut r, '\u{2500}', n);
    r
}

pub fn equals(n: usize) -> (r: String)
    ensures
        r@ == equals_spec(n as nat),
{
    let mut r = String::new();
    push_repeat(&mut r, '\u{2550}', n);
    r
}

/// "╭─ TITLE ─────╮"; the title may contain ANSI codes, which take no columns.
pub fn top_border(title: &str, width: usize) -> (r: String)
    ensures
        r@ == top_border_spec(title@, width as nat),
{
    let fill = width.saturating_sub(5usize.saturating_add(vlen(title)));
    let mut r = String::new();
    push_str(&mut r, dim());
    push_char(&mut r, '\u{256d}');
    push_char(&mut r, '\u{2500}');
    push_char(&mut r, ' ');
    push_str(&mut r, reset());
    push_str(&mut r, title);
    push_char(&mut r, ' ');
    push_str(&mut r, dim());
    push_repeat(&mut r, '\u{2500}', fill);
    push_char(&mut r, '\u{256e}');
    push_str(&mut r, reset());
    assert(r@ =~= top_border_spec(title@, width as nat));
    r
}

/// "╞══ TITLE ════╡": section separator inside the box.
pub fn section_border(title: &str, width: usize) -> (r: String)
    ensures
        r@ == section_border_spec(title@, width as nat),
{
    let fill = width.saturating_sub(6usize.saturating_add(vlen(title)));
    let mut r = String::new();
    push_str(&mut r, dim());
    push_char(&mut r, '\u{255e}');
    push_char(&mut r, '\u{2550}');
    push_char(&mut r, '\u{2550}');
    push_char(&mut r, ' ');
    push_str(&mut r, reset());
    push_str(&mut r, title);
    push_char(&mut r, ' ');
    push_str(&mut r, dim());
    push_repeat(&mut r, '\u{2550}', fill);
    push_char(&mut r, '\u{2561}');
    push_str(&mut r, reset());
    assert(r@ =~= section_border_spec(title@, width as nat));
    r
}

/// "╰─────────────╯"
pub fn bottom_border(width: usize) -> (r: String)
    ensures
        r@ == bottom_border_spec(width as nat),
{
    let mut r = String::new();
    push_str(&mut r, dim());
    push_char(&mut r, '\u{2570}');
    push_repeat(&mut r, '\u{2500}', width.saturating_sub(2));
    push_char(&mut r, '\u{256f}');
    push_str(&mut r, reset());
    assert(r@ =~= bottom_border_spec(width as nat));
    r
}

/// "│ CONTENT              │": inner width is `width - 4` (one space each side).
pub fn meta_row(content: &str, width: usize) -> (r: String)
    ensures
        r@ == meta_row_spec(content@, width as nat),
{
    let inner = width.saturating_sub(4);
    let padded = rpad(content, inner);
    let mut r = String::new();
    push_str(&mut r, dim());
    push_char(&mut r, '\u{2502}');
    push_str(&mut r, reset());
    push_char(&mut r, ' ');
    push_str(&mut r, padded.as_str());
    push_char(&mut r, ' ');
    push_str(&mut r, dim());
    push_char(&mut r, '\u{2502}');
    push_str(&mut r, reset());
    assert(r@ =~= meta_row_spec(content@, width as nat));
    r
}

/// "│CONTENT│": no padding spaces; used for waveform rows.
pub fn wave_row(content: &str) -> (r: String)
    ensures
        r@ == wave_row_spec(content@),
{
    let mut r = String::new();
    push_str(&mut r, dim());
    push_char(&mut r, '\u{2502}');
    push_str(&mut r, reset());
    push_str(&mut r, content);
    push_str(&mut r, dim());
    push_char(&mut r, '\u{2502}');
    push_str(&mut r, reset());
    assert(r@ =~= wave_row_spec(content@));
    r
}

// ─── Width laws ─────────────────────────────────────────────────────────────

/// Width of a chain `a + b` where `a` is closed; the chain stays closed if `b` is.
proof fn lemma_join(a: Seq<char>, b: Seq<char>)
    requires
        is_closed(a),
    ensures
        visible_len(a + b) == visible_len(a) + visible_len(b),
        is_closed(a + b) == is_closed(b),
{
    lemma_visible_concat(a, b);
}

/// The top border is `width` columns wide, or just wide enough for its
/// title where the title does not fit; it leaves no escape sequence open.
pub proof fn lemma_top_border_width(title: Seq<char>, width: nat)
    requires
        is_closed(title),
    ensures
        visible_len(top_border_spec(title, width)) == if width >= 5 + visible_len(title) {
            width
        } else {
            5 + visible_len(title)
        },
        is_closed(top_border_spec(title, width)),
{
    lemma_codes_invisible();
    let corner = seq!['\u{256d}', '\u{2500}', ' '];
    let fill = dashes_spec(sat_sub(width, 5 + visible_len(title)));
    lemma_plain(corner);
    lemma_plain(seq![' ']);
    lemma_plain(seq!['\u{256e}']);
    lemma_repeat_plain('\u{2500}', sat_sub(width, 5 + visible_len(title)));
    let p1 = dim_seq() + corner;
    lemma_join(dim_seq(), corner);
    let p2 = p1 + reset_seq();
    lemma_join(p1, reset_seq());
    let p3 = p2 + title;
    lemma_join(p2, title);
    let p4 = p3 + seq![' '];
    lemma_join(p3, seq![' ']);
    let p5 = p4 + dim_seq();
    lemma_join(p4, dim_seq());
    let p6 = p5 + fill;
    lemma_join(p5, fill);
    let p7 = p6 + seq!['\u{256e}'];
    lemma_join(p6, seq!['\u{256e}']);
    lemma_join(p7, reset_seq());
}

/// A section divider is `width` columns wide, or just wide enough for its
/// title; it leaves no escape sequence open.
pub proof fn lemma_section_border_width(title: Seq<char>, width: nat)
    requires
        is_closed(title),
    ensures
        visible_len(section_border_spec(title, width)) == if width >= 6 + visible_len(title) {
            width
        } else {
            6 + visible_len(title)
        },
        is_closed(section_border_spec(title, width)),
{
    lemma_codes_invisible();
    let corner = seq!['\u{255e}', '\u{2550}', '\u{2550}', ' '];
    let fill = equals_spec(sat_sub(width, 6 + visible_len(title)));
    lemma_plain(corner);
    lemma_plain(seq![' ']);
    lemma_plain(seq!['\u{2561}']);
    lemma_repeat_plain('\u{2550}', sat_sub(width, 6 + visible_len(title)));
    let p1 = dim_seq() + corner;
    lemma_join(dim_seq(), corner);
    let p2 = p1 + reset_seq();
    lemma_join(p1, reset_seq());
    let p3 = p2 + title;
    lemma_join(p2, title);
    let p4 = p3 + seq![' '];
    lemma_join(p3, seq![' ']);
    let p5 = p4 + dim_seq();
    lemma_join(p4, dim_seq());
    let p6 = p5 + fill;
    lemma_join(p5, fill);
    let p7 = p6 + seq!['\u{2561}'];
    lemma_join(p6, seq!['\u{2561}']);
    lemma_join(p7, reset_seq());
}

/// The bottom border is `width` columns wide (at least its two corners).
pub proof fn lemma_bottom_border_width(width: nat)
    ensures
        visible_len(bottom_border_spec(width)) == if width >= 2 {
            width
        } else {
            2
        },
        is_closed(bottom_border_spec(width)),
{
    lemma_codes_invisible();
    let fill = dashes_spec(sat_sub(width, 2));
    lemma_plain(seq!['\u{2570}']);
    lemma_plain(seq!['\u{256f}']);
    lemma_repeat_plain('\u{2500}', sat_sub(width, 2));
    let p1 = dim_seq() + seq!['\u{2570}'];
    lemma_join(dim_seq(), seq!['\u{2570}']);
    let p2 = p1 + fill;
    lemma_join(p1, fill);
    let p3 = p2 + seq!['\u{256f}'];
    lemma_join(p2, seq!['\u{256f}']);
    lemma_join(p3, reset_seq());
}

/// A row is `width` columns wide whenever its content fits in `width - 4`
/// columns, and four columns wider than its content otherwise.
pub proof fn lemma_meta_row_width(content: Seq<char>, width: nat)
    requires
        is_closed(content),
    ensures
        visible_len(meta_row_spec(content, width)) == if width >= visible_len(content) + 4 {
            width
        } else {
            visible_len(content) + 4
        },
        is_closed(meta_row_spec(content, width)),
{
    lemma_codes_invisible();
    let bar = seq!['\u{2502}'];
    let padded = rpad_spec(content, sat_sub(width, 4));
    lemma_plain(bar);
    lemma_plain(seq![' ']);
    lemma_rpad_width(content, sat_sub(width, 4));
    let p1 = dim_seq() + bar;
    lemma_join(dim_seq(), bar);
    let p2 = p1 + reset_seq();
    lemma_join(p1, reset_seq());
    let p3 = p2 + seq![' '];
    lemma_join(p2, seq![' ']);
    let p4 = p3 + padded;
    lemma_join(p3, padded);
    let p5 = p4 + seq![' '];
    lemma_join(p4, seq![' ']);
    let p6 = p5 + dim_seq();
    lemma_join(p5, dim_seq());
    let p7 = p6 + bar;
    lemma_join(p6, bar);
    lemma_join(p7, reset_seq());
}

/// A waveform row is two columns wider than its content.
pub proof fn lemma_wave_row_width(content: Seq<char>)
    requires
        is_closed(content),
    ensures
        visible_len(wave_row_spec(content)) == visible_len(content) + 2,
        is_closed(wave_row_spec(content)),
{
    lemma_codes_invisible();
    let bar = seq!['\u{2502}'];
    lemma_plain(bar);
    let p1 = dim_seq() + bar;
    lemma_join(dim_seq(), bar);
    let p2 = p1 + reset_seq();
    lemma_join(p1, reset_seq());
    let p3 = p2 + content;
    lemma_join(p2, content);
    let p4 = p3 + dim_seq();
    lemma_join(p3, dim_seq());
    let p5 = p4 + bar;
    lemma_join(p4, bar);
    lemma_join(p5, reset_seq());
}

} // verus!

//! Label/value formatting: a dim label left-aligned in a fixed column, then
//! the value; one or two such pairs per row.
use vstd::prelude::*;
use crate::text::{
    plain_text, lemma_plain_concat, lemma_plain_len, lemma_plain_text_of_plain, sat_sub, visible_len, is_closed, rpad_spec, lemma_visible_concat, lemma_plain,
    lemma_rpad_width, push_char, push_str, rpad,
};
use crate::ansi::{dim_seq, reset_seq, grey_seq, lemma_codes_invisible, dim, reset, grey};
use crate::frame::{meta_row_spec, meta_row};

verus! {

/// Label column width (visible), including the 2-space left indent.
/// "Sample Rate" is 11 chars, so the column is 13 wide.
pub const LW: usize = 13;

/// The characters of an optional string slice.
pub open spec fn opt_view(o: Option<&str>) -> Option<Seq<char>> {
    match o {
        Some(s) => Some(s@),
        None => None,
    }
}

/// The label, indented by two spaces and padded to the label column.
pub open spec fn label_col_spec(label: Seq<char>) -> Seq<char> {
    rpad_spec(seq![' ', ' '] + label, LW as nat)
}

/// Dim label in the label column, then the value.
pub open spec fn kv_spec(label: Seq<char>, value: Seq<char>) -> Seq<char> {
    dim_seq() + label_col_spec(label) + reset_seq() + seq![' ', ' '] + value
}

/// Dim label in the label column, then the value in `color`.
pub open spec fn kvc_spec(label: Seq<char>, value: Seq<char>, color: Seq<char>) -> Seq<char> {
    dim_seq() + label_col_spec(label) + reset_seq() + seq![' ', ' '] + color + value + reset_seq()
}

/// Like `kvc_spec` for a present, non-empty value; grey "N/A" otherwise.
pub open spec fn kvc_opt_spec(label: Seq<char>, value: Option<Seq<char>>, color: Seq<char>) -> Seq<
    char,
> {
    match value {
        Some(v) if v.len() > 0 => kvc_spec(label, v, color),
        _ => dim_seq() + label_col_spec(label) + reset_seq() + seq![' ', ' '] + grey_seq()
            + seq!['N', '/', 'A'] + reset_seq(),
    }
}

/// The dim centre divider " │ " (3 columns).
pub open spec fn vsep_spec() -> Seq<char> {
    seq![' '] + dim_seq() + seq!['\u{2502}'] + reset_seq() + seq![' ']
}

/// Width of each half of a two-pair row: the row's inner width (`width - 4`)
/// less the divider, halved.
pub open spec fn half_col(width: nat) -> nat {
    sat_sub(sat_sub(width, 4), 3) / 2
}

/// A row holding `left`, padded to the half column, the divider, then `right`.
pub open spec fn pair_row_spec(left: Seq<char>, right: Seq<char>, width: nat) -> Seq<char> {
    meta_row_spec(rpad_spec(left, half_col(width)) + vsep_spec() + right, width)
}

pub open spec fn detail_spec(label: Seq<char>, value: Seq<char>, width: nat) -> Seq<char> {
    meta_row_spec(kv_spec(label, value), width)
}

pub open spec fn detail2_spec(
    l1: Seq<char>,
    v1: Seq<char>,
    l2: Seq<char>,
    v2: Seq<char>,
    width: nat,
) -> Seq<char> {
    pair_row_spec(kv_spec(l1, v1), kv_spec(l2, v2), width)
}

pub open spec fn detail_c_spec(
    label: Seq<char>,
    value: Seq<char>,
    color: Seq<char>,
    width: nat,
) -> Seq<char> {
    meta_row_spec(kvc_spec(label, value, color), width)
}

pub open spec fn detail2_c_spec(
    l1: Seq<char>,
    v1: Seq<char>,
    c1: Seq<char>,
    l2: Seq<char>,
    v2: Seq<char>,
    c2: Seq<char>,
    width: nat,
) -> Seq<char> {
    pair_row_spec(kvc_spec(l1, v1, c1), kvc_spec(l2, v2, c2), width)
}

pub open spec fn detail2_c_opt_spec(
    l1: Seq<char>,
    v1: Option<Seq<char>>,
    c1: Seq<char>,
    l2: Seq<char>,
    v2: Option<Seq<char>>,
    c2: Seq<char>,
    width: nat,
) -> Seq<char> {
    pair_row_spec(kvc_opt_spec(l1, v1, c1), kvc_opt_spec(l2, v2, c2), width)
}

/// The label, indented and padded to the label column.
pub fn label_col(label: &str) -> (r: String)
    ensures
        r@ == label_col_spec(label@),
{
    let mut l = String::new();
    push_char(&mut l, ' ');
    push_char(&mut l, ' ');
    push_str(&mut l, label);
    assert(l@ =~= seq![' ', ' '] + label@);
    rpad(l.as_str(), LW)
}

/// Appends the dim label column and the two spaces that follow it.
fn push_label(r: &mut String, label: &str)
    ensures
        final(r)@ == old(r)@ + dim_seq() + label_col_spec(label@) + reset_seq() + seq![' ', ' '],
{
    let col = label_col(label);
    push_str(r, dim());
    push_str(r, col.as_str());
    push_str(r, reset());
    push_char(r, ' ');
    push_char(r, ' ');
}

/// Dim label left-aligned in the label column, then the plain value.
pub fn kv(label: &str, value: &str) -> (r: String)
    ensures
        r@ == kv_spec(label@, value@),
{
    let mut r = String::new();
    push_label(&mut r, label);
    push_str(&mut r, value);
    assert(r@ =~= kv_spec(label@, value@));
    r
}

/// Dim label left-aligned in the label column, then the coloured value.
pub fn kvc(label: &str, value: &str, color: &str) -> (r: String)
    ensures
        r@ == kvc_spec(label@, value@, color@),
{
    let mut r = String::new();
    push_label(&mut r, label);
    push_str(&mut r, color);
    push_str(&mut r, value);
    push_str(&mut r, reset());
    assert(r@ =~= kvc_spec(label@, value@, color@));
    r
}

/// Dim label left-aligned; a present, non-empty value is coloured, a
/// missing or empty one shows as grey N/A.
pub fn kvc_opt(label: &str, value: Option<&str>, color: &str) -> (r: String)
    ensures
        r@ == kvc_opt_spec(label@, opt_view(value), color@),
{
    match value {
        Some(v) if !v.is_empty() => kvc(label, v, color),
        _ => {
            let mut r = String::new();
            push_label(&mut r, label);
            push_str(&mut r, grey());
            push_char(&mut r, 'N');
            push_char(&mut r, '/');
            push_char(&mut r, 'A');
            push_str(&mut r, reset());
            assert(r@ =~= kvc_opt_spec(label@, opt_view(value), color@));
            r
        },
    }
}

/// One row from a label and value.
pub fn detail(label: &str, value: &str, width: usize) -> (r: String)
    ensures
        r@ == detail_spec(label@, value@, width as nat),
{
    meta_row(kv(label, value).as_str(), width)
}

/// A row of `left` padded to the half column, the divider, then `right`.
pub fn pair_row(left: &str, right: &str, width: usize) -> (r: String)
    ensures
        r@ == pair_row_spec(left@, right@, width as nat),
{
    let inner = width.saturating_sub(4);
    let col = inner.saturating_sub(3) / 2;
    let l = rpad(left, col);
    let mut content = String::new();
    push_str(&mut content, l.as_str());
    push_char(&mut content, ' ');
    push_str(&mut content, dim());
    push_char(&mut content, '\u{2502}');
    push_str(&mut content, reset());
    push_char(&mut content, ' ');
    push_str(&mut content, right);
    assert(content@ =~= rpad_spec(left@, half_col(width as nat)) + vsep_spec() + right@);
    meta_row(content.as_str(), width)
}

/// Two label/value pairs side by side in one row; each pair takes the half
/// column, with a dim divider between them.
pub fn detail2(l1: &str, v1: &str, l2: &str, v2: &str, width: usize) -> (r: String)
    ensures
        r@ == detail2_spec(l1@, v1@, l2@, v2@, width as nat),
{
    let left = kv(l1, v1);
    let right = kv(l2, v2);
    pair_row(left.as_str(), right.as_str(), width)
}

/// Coloured variant of `detail`.
pub fn detail_c(label: &str, value: &str, color: &str, width: usize) -> (r: String)
    ensures
        r@ == detail_c_spec(label@, value@, color@, width as nat),
{
    meta_row(kvc(label, value, color).as_str(), width)
}

/// Coloured variant of `detail2`, with a dim centre divider.
pub fn detail2_c(
    l1: &str,
    v1: &str,
    c1: &str,
    l2: &str,
    v2: &str,
    c2: &str,
    width: usize,
) -> (r: String)
    ensures
        r@ == detail2_c_spec(l1@, v1@, c1@, l2@, v2@, c2@, width as nat),
{
    let left = kvc(l1, v1, c1);
    let right = kvc(l2, v2, c2);
    pair_row(left.as_str(), right.as_str(), width)
}

/// `detail2_c` with optional values; a missing or empty value shows grey N/A.
pub fn detail2_c_opt(
    l1: &str,
    v1: Option<&str>,
    c1: &str,
    l2: &str,
    v2: Option<&str>,
    c2: &str,
    width: usize,
) -> (r: String)
    ensures
        r@ == detail2_c_opt_spec(l1@, opt_view(v1), c1@, l2@, opt_view(v2), c2@, width as nat),
{
    let left = kvc_opt(l1, v1, c1);
    let right = kvc_opt(l2, v2, c2);
    pair_row(left.as_str(), right.as_str(), width)
}

// ─── Width laws ─────────────────────────────────────────────────────────────

/// The label column is `LW` columns wide unless the indented label is wider.
pub proof fn lemma_label_col_width(label: Seq<char>)
    requires
        is_closed(label),
    ensures
        visible_len(label_col_spec(label)) == if 2 + visible_len(label) >= LW {
            2 + visible_len(label)
        } else {
            LW as nat
        },
        is_closed(label_col_spec(label)),
{
    lemma_plain(seq![' ', ' ']);
    lemma_visible_concat(seq![' ', ' '], label);
    lemma_rpad_width(seq![' ', ' '] + label, LW as nat);
}

/// A coloured pair is as wide as its label column, two spaces and its value.
pub proof fn lemma_kvc_width(label: Seq<char>, value: Seq<char>, color: Seq<char>)
    requires
        is_closed(label),
        is_closed(value),
        is_closed(color),
        visible_len(color) == 0,
    ensures
        visible_len(kvc_spec(label, value, color)) == visible_len(label_col_spec(label)) + 2
            + visible_len(value),
        is_closed(kvc_spec(label, value, color)),
{
    lemma_codes_invisible();
    lemma_label_col_width(label);
    lemma_plain(seq![' ', ' ']);
    let c = label_col_spec(label);
    let p1 = dim_seq() + c;
    lemma_visible_concat(dim_seq(), c);
    let p2 = p1 + reset_seq();
    lemma_visible_concat(p1, reset_seq());
    let p3 = p2 + seq![' ', ' '];
    lemma_visible_concat(p2, seq![' ', ' ']);
    let p4 = p3 + color;
    lemma_visible_concat(p3, color);
    let p5 = p4 + value;
    lemma_visible_concat(p4, value);
    lemma_visible_concat(p5, reset_seq());
}

/// A plain pair is as wide as its label column, two spaces and its value.
pub proof fn lemma_kv_width(label: Seq<char>, value: Seq<char>)
    requires
        is_closed(label),
        is_closed(value),
    ensures
        visible_len(kv_spec(label, value)) == visible_len(label_col_spec(label)) + 2
            + visible_len(value),
        is_closed(kv_spec(label, value)),
{
    lemma_codes_invisible();
    lemma_label_col_width(label);
    lemma_plain(seq![' ', ' ']);
    let c = label_col_spec(label);
    let p1 = dim_seq() + c;
    lemma_visible_concat(dim_seq(), c);
    let p2 = p1 + reset_seq();
    lemma_visible_concat(p1, reset_seq());
    let p3 = p2 + seq![' ', ' '];
    lemma_visible_concat(p2, seq![' ', ' ']);
    lemma_visible_concat(p3, value);
}

/// A two-pair row is `width` columns wide whenever the left pair fits in the
/// half column and the right pair fits in what remains of the inner width.
pub proof fn lemma_pair_row_width(left: Seq<char>, right: Seq<char>, width: nat)
    requires
        is_closed(left),
        is_closed(right),
        visible_len(left) <= half_col(width),
        half_col(width) + 3 + visible_len(right) <= sat_sub(width, 4),
    ensures
        visible_len(pair_row_spec(left, right, width)) == width,
        is_closed(pair_row_spec(left, right, width)),
{
    lemma_codes_invisible();
    let sep = vsep_spec();
    let bar = seq!['\u{2502}'];
    lemma_plain(bar);
    lemma_plain(seq![' ']);
    let s1 = seq![' '] + dim_seq();
    lemma_visible_concat(seq![' '], dim_seq());
    let s2 = s1 + bar;
    lemma_visible_concat(s1, bar);
    let s3 = s2 + reset_seq();
    lemma_visible_concat(s2, reset_seq());
    lemma_visible_concat(s3, seq![' ']);
    let padded = rpad_spec(left, half_col(width));
    lemma_rpad_width(left, half_col(width));
    lemma_visible_concat(padded, sep);
    lemma_visible_concat(padded + sep, right);
    crate::frame::lemma_meta_row_width(padded + sep + right, width);
}


/// The part of a two-pair row before the centre divider: the row's left
/// border and margin, then the left pair padded to the half column.
pub open spec fn pair_left_part(left: Seq<char>, width: nat) -> Seq<char> {
    dim_seq() + seq!['\u{2502}'] + reset_seq() + seq![' '] + rpad_spec(left, half_col(width))
}

/// A two-pair row starts with its left part, then the divider; the left part
/// is `2 + half_col(width)` columns wide whenever the left pair fits.
pub proof fn lemma_pair_row_divider(left: Seq<char>, right: Seq<char>, width: nat)
    requires
        is_closed(left),
        visible_len(left) <= half_col(width),
    ensures
        ({
            let row = pair_row_spec(left, right, width);
            let lp = pair_left_part(left, width);
            &&& lp.len() + vsep_spec().len() <= row.len()
            &&& row.take(lp.len() as int) == lp
            &&& row.subrange(lp.len() as int, (lp.len() + vsep_spec().len()) as int) == vsep_spec()
            &&& visible_len(lp) == 2 + half_col(width)
            &&& is_closed(lp)
            &&& plain_text(row).len() > 3 + half_col(width)
            &&& plain_text(row)[3 + half_col(width) as int] == '\u{2502}'
        }),
{
    lemma_codes_invisible();
    let hc = half_col(width);
    let padded = rpad_spec(left, hc);
    let content = padded + vsep_spec() + right;
    let inner = sat_sub(width, 4);
    let fill = rpad_spec(content, inner).skip(content.len() as int);
    let head = dim_seq() + seq!['\u{2502}'] + reset_seq() + seq![' '];
    let tail = seq![' '] + dim_seq() + seq!['\u{2502}'] + reset_seq();
    let lp = pair_left_part(left, width);
    let row = pair_row_spec(left, right, width);
    assert(rpad_spec(content, inner) =~= content + fill);
    assert(row =~= lp + vsep_spec() + (right + fill + tail));
    assert(row.take(lp.len() as int) =~= lp);
    assert(row.subrange(lp.len() as int, (lp.len() + vsep_spec().len()) as int) =~= vsep_spec());
    let bar = seq!['\u{2502}'];
    lemma_plain(bar);
    lemma_plain(seq![' ']);
    lemma_visible_concat(dim_seq(), bar);
    lemma_visible_concat(dim_seq() + bar, reset_seq());
    lemma_visible_concat(dim_seq() + bar + reset_seq(), seq![' ']);
    lemma_rpad_width(left, hc);
    lemma_visible_concat(head, padded);
    lemma_vsep_plain();
    let rest = right + fill + tail;
    assert(row =~= lp + (vsep_spec() + rest));
    lemma_plain_concat(lp, vsep_spec() + rest, false);
    lemma_plain_concat(vsep_spec(), rest, false);
    lemma_plain_len(lp, false);
    let pl = plain_text(lp);
    assert(plain_text(row) =~= pl + (seq![' ', '\u{2502}', ' '] + plain_text(rest)));
    assert(plain_text(row)[pl.len() + 1int] == '\u{2502}');
}

/// The divider is closed and shows as " │ ".
proof fn lemma_vsep_plain()
    ensures
        is_closed(vsep_spec()),
        plain_text(vsep_spec()) == seq![' ', '\u{2502}', ' '],
{
    lemma_codes_invisible();
    let sp = seq![' '];
    let bar = seq!['\u{2502}'];
    lemma_plain(sp);
    lemma_plain(bar);
    lemma_plain_text_of_plain(sp);
    lemma_plain_text_of_plain(bar);
    lemma_plain_len(dim_seq(), false);
    lemma_plain_len(reset_seq(), false);
    assert(plain_text(dim_seq()) =~= Seq::<char>::empty());
    assert(plain_text(reset_seq()) =~= Seq::<char>::empty());
    let s1 = sp + dim_seq();
    lemma_visible_concat(sp, dim_seq());
    lemma_plain_concat(sp, dim_seq(), false);
    let s2 = s1 + bar;
    lemma_visible_concat(s1, bar);
    lemma_plain_concat(s1, bar, false);
    let s3 = s2 + reset_seq();
    lemma_visible_concat(s2, reset_seq());
    lemma_plain_concat(s2, reset_seq(), false);
    lemma_visible_concat(s3, sp);
    lemma_plain_concat(s3, sp, false);
    assert(vsep_spec() =~= s3 + sp);
    assert(plain_text(vsep_spec()) =~= seq![' ', '\u{2502}', ' ']);
}

/// The kvc_opt pair is closed, and as wide as its label column, two spaces
/// and its value (or "N/A").
proof fn lemma_kvc_opt_width(label: Seq<char>, value: Option<Seq<char>>, color: Seq<char>)
    requires
        is_closed(label),
        value matches Some(v) ==> is_closed(v),
        is_closed(color),
        visible_len(color) == 0,
    ensures
        is_closed(kvc_opt_spec(label, value, color)),
{
    lemma_codes_invisible();
    match value {
        Some(v) if v.len() > 0 => {
            lemma_kvc_width(label, v, color);
        },
        _ => {
            let na = seq!['N', '/', 'A'];
            lemma_plain(na);
            lemma_kvc_width(label, na, grey_seq());
            assert(kvc_opt_spec(label, value, color) =~= kvc_spec(label, na, grey_seq()));
        },
    }
}

/// The centre divider of a two-pair row stays in place whether its values
/// are present or missing: for two rows with the same labels and colours
/// whose left pairs fit in the half column, both rows begin with a left part
/// `2 + half_col(width)` columns wide followed by the divider, and both are
/// exactly `width` columns wide when their right pairs fit too.
pub proof fn lemma_divider_fixed(
    l1: Seq<char>,
    a: Option<Seq<char>>,
    b: Option<Seq<char>>,
    c1: Seq<char>,
    l2: Seq<char>,
    u: Option<Seq<char>>,
    v: Option<Seq<char>>,
    c2: Seq<char>,
    width: nat,
)
    requires
        is_closed(l1),
        is_closed(l2),
        a matches Some(x) ==> is_closed(x),
        b matches Some(x) ==> is_closed(x),
        u matches Some(x) ==> is_closed(x),
        v matches Some(x) ==> is_closed(x),
        is_closed(c1) && visible_len(c1) == 0,
        is_closed(c2) && visible_len(c2) == 0,
        visible_len(kvc_opt_spec(l1, a, c1)) <= half_col(width),
        visible_len(kvc_opt_spec(l1, b, c1)) <= half_col(width),
    ensures
        ({
            let r1 = detail2_c_opt_spec(l1, a, c1, l2, u, c2, width);
            let r2 = detail2_c_opt_spec(l1, b, c1, l2, v, c2, width);
            let p1 = pair_left_part(kvc_opt_spec(l1, a, c1), width);
            let p2 = pair_left_part(kvc_opt_spec(l1, b, c1), width);
            &&& r1.take(p1.len() as int) == p1
            &&& r2.take(p2.len() as int) == p2
            &&& r1.subrange(p1.len() as int, (p1.len() + vsep_spec().len()) as int) == vsep_spec()
            &&& r2.subrange(p2.len() as int, (p2.len() + vsep_spec().len()) as int) == vsep_spec()
            &&& visible_len(p1) == visible_len(p2)
            &&& visible_len(p1) == 2 + half_col(width)
            &&& (width >= 7 ==> half_col(width) == (width - 7) / 2)
            &&& plain_text(r1).len() > 3 + half_col(width)
            &&& plain_text(r2).len() > 3 + half_col(width)
            &&& plain_text(r1)[3 + half_col(width) as int] == '\u{2502}'
            &&& plain_text(r2)[3 + half_col(width) as int] == '\u{2502}'
            &&& (half_col(width) + 3 + visible_len(kvc_opt_spec(l2, u, c2)) <= sat_sub(width, 4)
                ==> visible_len(r1) == width)
            &&& (half_col(width) + 3 + visible_len(kvc_opt_spec(l2, v, c2)) <= sat_sub(width, 4)
                ==> visible_len(r2) == width)
        }),
{
    lemma_kvc_opt_width(l1, a, c1);
    lemma_kvc_opt_width(l1, b, c1);
    lemma_kvc_opt_width(l2, u, c2);
    lemma_kvc_opt_width(l2, v, c2);
    let la = kvc_opt_spec(l1, a, c1);
    let lb = kvc_opt_spec(l1, b, c1);
    let ru = kvc_opt_spec(l2, u, c2);
    let rv = kvc_opt_spec(l2, v, c2);
    lemma_pair_row_divider(la, ru, width);
    lemma_pair_row_divider(lb, rv, width);
    if half_col(width) + 3 + visible_len(ru) <= sat_sub(width, 4) {
        lemma_pair_row_width(la, ru, width);
    }
    if half_col(width) + 3 + visible_len(rv) <= sat_sub(width, 4) {
        lemma_pair_row_width(lb, rv, width);
    }
}

} // verus!

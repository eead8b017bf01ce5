//! Rows whose value wraps over several lines, with a hanging indent under
//! its label.
use vstd::prelude::*;
use crate::text::{
    sat_sub, rpad_spec, push_char, push_str, rpad, is_closed, visible_len, lemma_plain,
    lemma_visible_concat,
};
use crate::ansi::{dim_seq, reset_seq, dim, reset, lemma_codes_invisible};
use crate::frame::{meta_row_spec, meta_row};
use crate::fields::{
    LW, opt_view, label_col_spec, kvc_opt_spec, vsep_spec, half_col, label_col, kvc_opt,
    lemma_label_col_width,
};
use crate::wrap::{wrap_spec, wrap_text, string_views, lemma_wrap_fits};

verus! {

/// The dim label column and two spaces; continuation lines use an empty
/// label, so the value lines up under the first line's value.
pub open spec fn hang_prefix_spec(label: Seq<char>) -> Seq<char> {
    dim_seq() + label_col_spec(label) + reset_seq() + seq![' ', ' ']
}

/// Line `i` of a wrapped value: the label on the first line only.
pub open spec fn hang_line_spec(
    label: Seq<char>,
    seg: Seq<char>,
    color: Seq<char>,
    i: int,
) -> Seq<char> {
    hang_prefix_spec(if i == 0 {
        label
    } else {
        seq![]
    }) + color + seg + reset_seq()
}

/// Rows of a single-column entry whose value wraps within the columns left
/// after the label column.
pub open spec fn detail_leftwrap_spec(
    label: Seq<char>,
    value: Seq<char>,
    color: Seq<char>,
    width: nat,
) -> Seq<Seq<char>> {
    let parts = wrap_spec(value, sat_sub(sat_sub(width, 4), (LW + 2) as nat));
    Seq::new(parts.len(), |i: int| meta_row_spec(hang_line_spec(label, parts[i], color, i), width))
}

/// Rows of a two-column entry whose left value wraps within its half
/// column; the right pair appears on the first row only.
pub open spec fn detail2_leftwrap_spec(
    l_label: Seq<char>,
    l_value: Seq<char>,
    l_color: Seq<char>,
    r_label: Seq<char>,
    r_value: Option<Seq<char>>,
    r_color: Seq<char>,
    width: nat,
) -> Seq<Seq<char>> {
    let col = half_col(width);
    let parts = wrap_spec(l_value, sat_sub(col, (LW + 2) as nat));
    Seq::new(
        parts.len(),
        |i: int|
            meta_row_spec(
                rpad_spec(hang_line_spec(l_label, parts[i], l_color, i), col) + vsep_spec()
                    + rpad_spec(
                    if i == 0 {
                        kvc_opt_spec(r_label, r_value, r_color)
                    } else {
                        seq![]
                    },
                    col,
                ),
                width,
            ),
    )
}

/// The dim label column followed by two spaces.
fn hang_prefix(label: &str) -> (r: String)
    ensures
        r@ == hang_prefix_spec(label@),
{
    let col = label_col(label);
    let mut r = String::new();
    push_str(&mut r, dim());
    push_str(&mut r, col.as_str());
    push_str(&mut r, reset());
    push_char(&mut r, ' ');
    push_char(&mut r, ' ');
    r
}

/// `prefix`, then the segment in `color`.
fn hang_line(prefix: &str, seg: &str, color: &str) -> (r: String)
    ensures
        r@ == prefix@ + color@ + seg@ + reset_seq(),
{
    let mut r = String::new();
    push_str(&mut r, prefix);
    push_str(&mut r, color);
    push_str(&mut r, seg);
    push_str(&mut r, reset());
    r
}

/// Single-column row where the value can wrap with a hanging indent under
/// its label.
pub fn detail_leftwrap(label: &str, value: &str, color: &str, width: usize) -> (rows: Vec<String>)
    ensures
        string_views(rows@) == detail_leftwrap_spec(label@, value@, color@, width as nat),
        rows@.len() >= 1,
{
    let inner = width.saturating_sub(4);
    let prefix_first = hang_prefix(label);
    let prefix_cont = hang_prefix("");
    proof {
        reveal_strlit("");
        assert(""@ =~= Seq::<char>::empty());
    }
    let avail = inner.saturating_sub(LW + 2);
    let mut rows: Vec<String> = Vec::new();
    let parts = wrap_text(value, avail);
    let ghost ps = wrap_spec(value@, avail as nat);
    proof {
        lemma_wrap_fits(value@, avail as nat);
    }
    let mut i: usize = 0;
    while i < parts.len()
        invariant
            string_views(parts@) == ps,
            ps == wrap_spec(value@, avail as nat),
            avail as nat == sat_sub(sat_sub(width as nat, 4), (LW + 2) as nat),
            prefix_first@ == hang_prefix_spec(label@),
            prefix_cont@ == hang_prefix_spec(seq![]),
            i <= parts@.len(),
            rows@.len() == i,
            forall|j: int|
                0 <= j < i ==> #[trigger] rows@[j]@ == meta_row_spec(
                    hang_line_spec(label@, ps[j], color@, j),
                    width as nat,
                ),
        decreases parts.len() - i,
    {
        let prefix = if i == 0 {
            &prefix_first
        } else {
            &prefix_cont
        };
        let line = hang_line(prefix.as_str(), parts[i].as_str(), color);
        assert(parts@[i as int]@ == ps[i as int]);
        rows.push(meta_row(line.as_str(), width));
        i = i + 1;
    }
    if rows.len() == 0 {
        let mut l = String::new();
        push_str(&mut l, dim());
        push_str(&mut l, label_col(label).as_str());
        push_str(&mut l, reset());
        rows.push(meta_row(l.as_str(), width));
    }
    assert(string_views(rows@) =~= detail_leftwrap_spec(label@, value@, color@, width as nat));
    rows
}

/// Two-column row where the left value can wrap with a hanging indent under
/// its label; the right column renders on the first line only, and
/// continuation rows leave it blank.
pub fn detail2_leftwrap(
    l_label: &str,
    l_value: &str,
    l_color: &str,
    r_label: &str,
    r_value: Option<&str>,
    r_color: &str,
    width: usize,
) -> (rows: Vec<String>)
    ensures
        string_views(rows@) == detail2_leftwrap_spec(
            l_label@,
            l_value@,
            l_color@,
            r_label@,
            opt_view(r_value),
            r_color@,
            width as nat,
        ),
        rows@.len() >= 1,
{
    let inner = width.saturating_sub(4);
    let col = inner.saturating_sub(3) / 2;
    let prefix_first = hang_prefix(l_label);
    let prefix_cont = hang_prefix("");
    proof {
        reveal_strlit("");
        assert(""@ =~= Seq::<char>::empty());
    }
    let avail = col.saturating_sub(LW + 2);
    let mut left_lines = wrap_text(l_value, avail);
    let ghost ps = wrap_spec(l_value@, avail as nat);
    proof {
        lemma_wrap_fits(l_value@, avail as nat);
    }
    if left_lines.len() == 0 {
        left_lines.push(String::new());
    }
    let right_first = kvc_opt(r_label, r_value, r_color);
    let mut rows: Vec<String> = Vec::new();
    let mut i: usize = 0;
    let ghost right_spec = kvc_opt_spec(r_label@, opt_view(r_value), r_color@);
    while i < left_lines.len()
        invariant
            string_views(left_lines@) == ps,
            ps == wrap_spec(l_value@, avail as nat),
            col as nat == half_col(width as nat),
            avail as nat == sat_sub(col as nat, (LW + 2) as nat),
            prefix_first@ == hang_prefix_spec(l_label@),
            prefix_cont@ == hang_prefix_spec(seq![]),
            right_first@ == right_spec,
            right_spec == kvc_opt_spec(r_label@, opt_view(r_value), r_color@),
            i <= left_lines@.len(),
            rows@.len() == i,
            forall|j: int|
                0 <= j < i ==> #[trigger] rows@[j]@ == meta_row_spec(
                    rpad_spec(hang_line_spec(l_label@, ps[j], l_color@, j), col as nat)
                        + vsep_spec() + rpad_spec(
                        if j == 0 {
                            right_spec
                        } else {
                            seq![]
                        },
                        col as nat,
                    ),
                    width as nat,
                ),
        decreases left_lines.len() - i,
    {
        let prefix = if i == 0 {
            &prefix_first
        } else {
            &prefix_cont
        };
        assert(left_lines@[i as int]@ == ps[i as int]);
        let left = hang_line(prefix.as_str(), left_lines[i].as_str(), l_color);
        let left_padded = rpad(left.as_str(), col);
        let right = if i == 0 {
            right_first.clone()
        } else {
            String::new()
        };
        let right_padded = rpad(right.as_str(), col);
        let mut content = String::new();
        push_str(&mut content, left_padded.as_str());
        push_char(&mut content, ' ');
        push_str(&mut content, dim());
        push_char(&mut content, '\u{2502}');
        push_str(&mut content, reset());
        push_char(&mut content, ' ');
        push_str(&mut content, right_padded.as_str());
        assert(content@ =~= left_padded@ + vsep_spec() + right_padded@);
        rows.push(meta_row(content.as_str(), width));
        i = i + 1;
    }
    assert(string_views(rows@) =~= detail2_leftwrap_spec(
        l_label@,
        l_value@,
        l_color@,
        r_label@,
        opt_view(r_value),
        r_color@,
        width as nat,
    ));
    rows
}

/// Hanging indent: where the label fits its column, a continuation line's
/// prefix is exactly as wide as the first line's, so wrapped text lines up
/// under the first line's value.
pub proof fn lemma_hanging_indent(label: Seq<char>)
    requires
        is_closed(label),
        2 + visible_len(label) <= LW,
    ensures
        visible_len(hang_prefix_spec(label)) == LW + 2,
        visible_len(hang_prefix_spec(seq![])) == LW + 2,
{
    let e: Seq<char> = seq![];
    lemma_prefix_width(label);
    lemma_label_col_width(label);
    assert(visible_len(label_col_spec(label)) == LW);
    lemma_plain(e);
    lemma_prefix_width(e);
    lemma_label_col_width(e);
    assert(visible_len(label_col_spec(e)) == LW);
}

proof fn lemma_prefix_width(label: Seq<char>)
    requires
        is_closed(label),
    ensures
        visible_len(hang_prefix_spec(label)) == visible_len(label_col_spec(label)) + 2,
{
    lemma_codes_invisible();
    lemma_label_col_width(label);
    lemma_plain(seq![' ', ' ']);
    let c = label_col_spec(label);
    let p1 = dim_seq() + c;
    lemma_visible_concat(dim_seq(), c);
    let p2 = p1 + reset_seq();
    lemma_visible_concat(p1, reset_seq());
    lemma_visible_concat(p2, seq![' ', ' ']);
}

} // verus!

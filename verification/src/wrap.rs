//! Splitting text into whitespace-separated words and greedy line wrapping.
use vstd::prelude::*;
use crate::text::{chars_of, push_char, push_chars};

verus! {

/// The Unicode White_Space property (`char::is_whitespace`).
pub open spec fn is_ws(c: char) -> bool {
    ||| ('\u{9}' <= c && c <= '\u{d}')
    ||| c == ' '
    ||| c == '\u{85}'
    ||| c == '\u{a0}'
    ||| c == '\u{1680}'
    ||| ('\u{2000}' <= c && c <= '\u{200a}')
    ||| c == '\u{2028}'
    ||| c == '\u{2029}'
    ||| c == '\u{202f}'
    ||| c == '\u{205f}'
    ||| c == '\u{3000}'
}

/// Whether `c` is white space.
pub fn is_whitespace(c: char) -> (b: bool)
    ensures
        b == is_ws(c),
{
    ('\u{9}' <= c && c <= '\u{d}') || c == ' ' || c == '\u{85}' || c == '\u{a0}' || c == '\u{1680}'
        || ('\u{2000}' <= c && c <= '\u{200a}') || c == '\u{2028}' || c == '\u{2029}' || c
        == '\u{202f}' || c == '\u{205f}' || c == '\u{3000}'
}

/// Number of non-space characters at the start of `s`.
pub open spec fn word_len(s: Seq<char>) -> nat
    decreases s.len(),
{
    if s.len() == 0 || is_ws(s[0]) {
        0
    } else {
        1 + word_len(s.skip(1))
    }
}

pub proof fn lemma_word_len_bound(s: Seq<char>)
    ensures
        word_len(s) <= s.len(),
        s.len() > 0 && !is_ws(s[0]) ==> word_len(s) >= 1,
    decreases s.len(),
{
    if s.len() > 0 && !is_ws(s[0]) {
        lemma_word_len_bound(s.skip(1));
    }
}

/// The words of `s`: its maximal runs of non-space characters, in order
/// (`str::split_whitespace`).
pub open spec fn split_ws(s: Seq<char>) -> Seq<Seq<char>>
    decreases s.len(),
{
    if s.len() == 0 {
        seq![]
    } else if is_ws(s[0]) {
        split_ws(s.skip(1))
    } else {
        proof {
            lemma_word_len_bound(s);
        }
        seq![s.take(word_len(s) as int)] + split_ws(s.skip(word_len(s) as int))
    }
}

/// A word: non-empty and free of white space.
pub open spec fn is_word(w: Seq<char>) -> bool {
    w.len() > 0 && forall|i: int| 0 <= i < w.len() ==> !is_ws(#[trigger] w[i])
}

/// The words joined by single spaces.
pub open spec fn join_words(ws: Seq<Seq<char>>) -> Seq<char>
    decreases ws.len(),
{
    if ws.len() == 0 {
        seq![]
    } else if ws.len() == 1 {
        ws[0]
    } else {
        join_words(ws.drop_last()) + seq![' '] + ws.last()
    }
}

/// One step of the greedy wrap: the finished lines and the line being
/// filled, after adding word `w`.  A word goes on the current line when it
/// fits (with a separating space); otherwise the line is finished and the
/// word starts the next one.  A word longer than `width` forms a line of
/// its own.
pub open spec fn wrap_step(
    st: (Seq<Seq<char>>, Seq<char>),
    w: Seq<char>,
    width: nat,
) -> (Seq<Seq<char>>, Seq<char>) {
    let lines = st.0;
    let cur = st.1;
    if cur.len() == 0 {
        if w.len() > width {
            (lines.push(w), seq![])
        } else {
            (lines, w)
        }
    } else if cur.len() + 1 + w.len() <= width {
        (lines, cur + seq![' '] + w)
    } else if w.len() > width {
        (lines.push(cur).push(w), seq![])
    } else {
        (lines.push(cur), w)
    }
}

/// The greedy wrap state after all of `words`.
pub open spec fn wrap_words(words: Seq<Seq<char>>, width: nat) -> (Seq<Seq<char>>, Seq<char>)
    decreases words.len(),
{
    if words.len() == 0 {
        (seq![], seq![])
    } else {
        wrap_step(wrap_words(words.drop_last(), width), words.last(), width)
    }
}

/// The lines of `s` wrapped to `width` columns: the words of `s`, greedily
/// packed; a single empty line when `s` has no words or `width` is 0.
pub open spec fn wrap_spec(s: Seq<char>, width: nat) -> Seq<Seq<char>> {
    if width == 0 {
        seq![seq![]]
    } else {
        let st = wrap_words(split_ws(s), width);
        let lines = if st.1.len() > 0 {
            st.0.push(st.1)
        } else {
            st.0
        };
        if lines.len() == 0 {
            seq![seq![]]
        } else {
            lines
        }
    }
}

/// The words of each line, in order.
pub open spec fn flat_words(lines: Seq<Seq<char>>) -> Seq<Seq<char>>
    decreases lines.len(),
{
    if lines.len() == 0 {
        seq![]
    } else {
        flat_words(lines.drop_last()) + split_ws(lines.last())
    }
}

/// The characters of each vector.
pub open spec fn views(v: Seq<Vec<char>>) -> Seq<Seq<char>> {
    Seq::new(v.len(), |i: int| v[i]@)
}

// ─── Lemmas on words ─────────────────────────────────────────────────────────

/// `word_len` of a prefix that stops at white space or at the end.
proof fn lemma_word_len_exact(s: Seq<char>, k: nat)
    requires
        k <= s.len(),
        forall|t: int| 0 <= t < k ==> !is_ws(#[trigger] s[t]),
        k == s.len() || is_ws(s[k as int]),
    ensures
        word_len(s) == k,
    decreases k,
{
    if k > 0 {
        let t = s.skip(1);
        assert forall|i: int| 0 <= i < k - 1 implies !is_ws(#[trigger] t[i]) by {
            assert(t[i] == s[i + 1]);
        }
        lemma_word_len_exact(t, (k - 1) as nat);
    }
}

/// Appending text after a finished word does not change the word.
proof fn lemma_word_len_concat(x: Seq<char>, y: Seq<char>)
    requires
        word_len(x) < x.len() || (y.len() > 0 && is_ws(y[0])),
    ensures
        word_len(x + y) == word_len(x),
    decreases x.len(),
{
    if x.len() == 0 {
    } else if is_ws(x[0]) {
    } else {
        assert((x + y).skip(1) =~= x.skip(1) + y);
        lemma_word_len_concat(x.skip(1), y);
    }
}

/// A space separates the words of its two sides.
pub proof fn lemma_split_space(a: Seq<char>, b: Seq<char>)
    ensures
        split_ws(a + seq![' '] + b) == split_ws(a) + split_ws(b),
    decreases a.len(),
{
    let s = a + seq![' '] + b;
    if a.len() == 0 {
        assert(s.skip(1) =~= b);
        assert(split_ws(a) =~= seq![]);
        assert(split_ws(a) + split_ws(b) =~= split_ws(b));
    } else if is_ws(a[0]) {
        assert(s.skip(1) =~= a.skip(1) + seq![' '] + b);
        lemma_split_space(a.skip(1), b);
    } else {
        lemma_word_len_bound(a);
        let k = word_len(a);
        let y = seq![' '] + b;
        assert(s =~= a + y);
        lemma_word_len_concat(a, y);
        assert(s.take(k as int) =~= a.take(k as int));
        assert(s.skip(k as int) =~= a.skip(k as int) + seq![' '] + b);
        lemma_split_space(a.skip(k as int), b);
        assert(split_ws(a) =~= seq![a.take(k as int)] + split_ws(a.skip(k as int)));
        assert(split_ws(s) =~= seq![s.take(k as int)] + split_ws(s.skip(k as int)));
    }
}

/// A word splits into itself.
pub proof fn lemma_split_word(w: Seq<char>)
    requires
        is_word(w),
    ensures
        split_ws(w) == seq![w],
{
    lemma_word_len_exact(w, w.len());
    assert(w.take(w.len() as int) =~= w);
    let e: Seq<char> = seq![];
    assert(w.skip(w.len() as int) =~= e);
    assert(split_ws(e) =~= seq![]);
}

/// Every word of `split_ws(s)` is a word.
pub proof fn lemma_split_words_are_words(s: Seq<char>)
    ensures
        forall|i: int| 0 <= i < split_ws(s).len() ==> is_word(#[trigger] split_ws(s)[i]),
    decreases s.len(),
{
    if s.len() == 0 {
    } else if is_ws(s[0]) {
        lemma_split_words_are_words(s.skip(1));
        assert(split_ws(s) == split_ws(s.skip(1)));
    } else {
        lemma_word_len_bound(s);
        let k = word_len(s);
        lemma_split_words_are_words(s.skip(k as int));
        let w = s.take(k as int);
        lemma_word_prefix_no_ws(s);
        assert(is_word(w));
        let rest = split_ws(s.skip(k as int));
        assert(split_ws(s) =~= seq![w] + rest);
        assert forall|i: int| 0 <= i < split_ws(s).len() implies is_word(#[trigger] split_ws(s)[i]) by {
            if i > 0 {
                assert(split_ws(s)[i] == rest[i - 1]);
            }
        }
    }
}

/// The first `word_len(s)` characters of `s` are not white space.
proof fn lemma_word_prefix_no_ws(s: Seq<char>)
    ensures
        forall|i: int| 0 <= i < word_len(s) ==> !is_ws(#[trigger] s[i]),
    decreases s.len(),
{
    if s.len() > 0 && !is_ws(s[0]) {
        lemma_word_len_bound(s);
        lemma_word_prefix_no_ws(s.skip(1));
        assert forall|i: int| 0 <= i < word_len(s) implies !is_ws(#[trigger] s[i]) by {
            if i > 0 {
                assert(s[i] == s.skip(1)[i - 1]);
            }
        }
    }
}

// ─── Laws of the wrap ───────────────────────────────────────────────────────

/// What every state of the greedy wrap keeps: the words of the finished lines
/// followed by those of the current line are the words consumed so far; each
/// finished line is non-empty and fits in `width` unless it is a single word;
/// the current line fits.
pub open spec fn wrap_inv(st: (Seq<Seq<char>>, Seq<char>), words: Seq<Seq<char>>, width: nat) -> bool {
    &&& flat_words(st.0) + split_ws(st.1) == words
    &&& forall|i: int|
        0 <= i < st.0.len() ==> #[trigger] st.0[i].len() > 0 && (st.0[i].len() <= width || is_word(
            st.0[i],
        ))
    &&& st.1.len() <= width
}

proof fn lemma_wrap_words_inv(words: Seq<Seq<char>>, width: nat)
    requires
        forall|i: int| 0 <= i < words.len() ==> is_word(#[trigger] words[i]),
    ensures
        wrap_inv(wrap_words(words, width), words, width),
    decreases words.len(),
{
    let e: Seq<char> = seq![];
    assert(split_ws(e) =~= seq![]);
    if words.len() == 0 {
        assert(flat_words(seq![]) + split_ws(e) =~= words);
    } else {
        let prev = words.drop_last();
        assert forall|i: int| 0 <= i < prev.len() implies is_word(#[trigger] prev[i]) by {
            assert(prev[i] == words[i]);
        }
        lemma_wrap_words_inv(prev, width);
        let st = wrap_words(prev, width);
        let w = words.last();
        assert(is_word(w));
        lemma_split_word(w);
        let lines = st.0;
        let cur = st.1;
        let nxt = wrap_step(st, w, width);
        assert(nxt == wrap_words(words, width));
        assert(words =~= prev.push(w));
        if cur.len() == 0 {
            if w.len() > width {
                assert(lines.push(w).drop_last() =~= lines);
                assert(flat_words(lines.push(w)) =~= flat_words(lines) + seq![w]);
                assert(flat_words(nxt.0) + split_ws(nxt.1) =~= words);
            } else {
                assert(flat_words(nxt.0) + split_ws(nxt.1) =~= words);
            }
        } else if cur.len() + 1 + w.len() <= width {
            lemma_split_space(cur, w);
            assert(flat_words(nxt.0) + split_ws(nxt.1) =~= words);
        } else {
            let l1 = lines.push(cur);
            assert(l1.drop_last() =~= lines);
            assert(flat_words(l1) =~= flat_words(lines) + split_ws(cur));
            if w.len() > width {
                let l2 = l1.push(w);
                assert(l2.drop_last() =~= l1);
                assert(flat_words(l2) =~= flat_words(l1) + seq![w]);
                assert(flat_words(nxt.0) + split_ws(nxt.1) =~= words);
            } else {
                assert(flat_words(nxt.0) + split_ws(nxt.1) =~= words);
            }
        }
    }
}

/// Wrapping keeps every word, in order: the words of the wrapped lines are
/// the words of the text (for a positive width).
pub proof fn lemma_wrap_keeps_words(s: Seq<char>, width: nat)
    requires
        width > 0,
    ensures
        flat_words(wrap_spec(s, width)) == split_ws(s),
{
    lemma_split_words_are_words(s);
    let words = split_ws(s);
    lemma_wrap_words_inv(words, width);
    let st = wrap_words(words, width);
    let e: Seq<char> = seq![];
    assert(split_ws(e) =~= seq![]);
    let lines = if st.1.len() > 0 {
        st.0.push(st.1)
    } else {
        st.0
    };
    if st.1.len() > 0 {
        assert(st.0.push(st.1).drop_last() =~= st.0);
    } else {
        assert(flat_words(st.0) + split_ws(st.1) =~= flat_words(st.0));
    }
    assert(flat_words(lines) == words);
    if lines.len() == 0 {
        let one: Seq<Seq<char>> = seq![e];
        assert(one.drop_last() =~= seq![]);
        assert(flat_words(one) =~= seq![]);
    }
}

/// Every wrapped line fits in `width` columns, unless it is a single word
/// longer than that; there is at least one line, and every line is non-empty
/// unless the text has no words or the width is 0 (then the only line is
/// empty).
pub proof fn lemma_wrap_fits(s: Seq<char>, width: nat)
    ensures
        wrap_spec(s, width).len() >= 1,
        forall|i: int|
            0 <= i < wrap_spec(s, width).len() ==> (#[trigger] wrap_spec(s, width)[i]).len() <= width
                || is_word(wrap_spec(s, width)[i]),
        forall|i: int|
            0 <= i < wrap_spec(s, width).len() ==> (#[trigger] wrap_spec(s, width)[i]).len() > 0
                || (wrap_spec(s, width).len() == 1 && (split_ws(s).len() == 0 || width == 0)),
{
    if width > 0 {
        lemma_split_words_are_words(s);
        let words = split_ws(s);
        lemma_wrap_words_inv(words, width);
        lemma_wrap_keeps_words(s, width);
        let st = wrap_words(words, width);
        let r = wrap_spec(s, width);
        if st.1.len() > 0 {
            assert forall|i: int| 0 <= i < r.len() implies (#[trigger] r[i]).len() <= width
                || is_word(r[i]) by {
                if i < st.0.len() {
                    assert(r[i] == st.0[i]);
                }
            }
            assert forall|i: int| 0 <= i < r.len() implies (#[trigger] r[i]).len() > 0 by {
                if i < st.0.len() {
                    assert(r[i] == st.0[i]);
                }
            }
        } else if st.0.len() == 0 {
            let e: Seq<char> = seq![];
            assert(split_ws(e) =~= seq![]);
            assert(flat_words(st.0) =~= seq![]);
            assert(words =~= flat_words(st.0) + split_ws(e));
        }
    }
}

// ─── Executable wrap ────────────────────────────────────────────────────────

/// The words of `v` (`str::split_whitespace`).
pub fn split_words(v: &Vec<char>) -> (out: Vec<Vec<char>>)
    ensures
        views(out@) == split_ws(v@),
{
    let len = v.len();
    let mut out: Vec<Vec<char>> = Vec::new();
    let mut i: usize = 0;
    assert(v@.skip(0) =~= v@);
    while i < len
        invariant
            len == v@.len(),
            i <= len,
            split_ws(v@) == views(out@) + split_ws(v@.skip(i as int)),
        decreases len - i,
    {
        if is_whitespace(v[i]) {
            assert(v@.skip(i as int).skip(1) =~= v@.skip(i + 1));
            i = i + 1;
        } else {
            let mut j = i;
            while j < len && !is_whitespace(v[j])
                invariant
                    len == v@.len(),
                    i <= j <= len,
                    forall|t: int| i <= t < j ==> !is_ws(#[trigger] v@[t]),
                decreases len - j,
            {
                j = j + 1;
            }
            let ghost s = v@.skip(i as int);
            let ghost k = (j - i) as nat;
            assert forall|t: int| 0 <= t < k implies !is_ws(#[trigger] s[t]) by {
                assert(s[t] == v@[i + t]);
            }
            if j < len {
                assert(s[k as int] == v@[j as int]);
            }
            proof {
                lemma_word_len_exact(s, k);
            }
            let mut w: Vec<char> = Vec::new();
            let mut t = i;
            while t < j
                invariant
                    i <= t <= j <= len == v@.len(),
                    w@ =~= v@.subrange(i as int, t as int),
                decreases j - t,
            {
                w.push(v[t]);
                t = t + 1;
            }
            assert(s.take(k as int) =~= w@);
            assert(s.skip(k as int) =~= v@.skip(j as int));
            let ghost before = views(out@);
            out.push(w);
            assert(views(out@) =~= before + seq![w@]);
            i = j;
        }
    }
    assert(v@.skip(len as int) =~= seq![]);
    assert(views(out@) + split_ws(seq![]) =~= views(out@));
    out
}

/// The characters of each string.
pub open spec fn string_views(v: Seq<String>) -> Seq<Seq<char>> {
    Seq::new(v.len(), |i: int| v[i]@)
}

/// Wrap plain text into lines of up to `width` characters: words are packed
/// greedily with single spaces between them; a word longer than `width`
/// gets a line of its own.
pub fn wrap_text(s: &str, width: usize) -> (lines: Vec<String>)
    ensures
        string_views(lines@) == wrap_spec(s@, width as nat),
{
    if width == 0 {
        let mut lines: Vec<String> = Vec::new();
        lines.push(String::new());
        assert(string_views(lines@) =~= seq![seq![]]);
        return lines;
    }
    let chars = chars_of(s);
    let words = split_words(&chars);
    let ghost ws = views(words@);
    let mut lines: Vec<String> = Vec::new();
    let mut cur = String::new();
    let mut cur_w: usize = 0;
    let mut k: usize = 0;
    assert(ws.take(0) =~= seq![]);
    while k < words.len()
        invariant
            ws == views(words@),
            k <= words@.len(),
            cur_w == cur@.len(),
            (string_views(lines@), cur@) == wrap_words(ws.take(k as int), width as nat),
            cur_w <= width,
        decreases words.len() - k,
    {
        let word = &words[k];
        let wl = word.len();
        let ghost old_lines = string_views(lines@);
        let ghost old_cur = cur@;
        assert(ws.take(k + 1).drop_last() =~= ws.take(k as int));
        assert(ws.take(k + 1).last() == word@);
        if cur_w == 0 {
            push_chars(&mut cur, word, 0, wl);
            assert(word@.subrange(0, wl as int) =~= word@);
            cur_w = wl;
            if cur_w > width {
                lines.push(cur);
                cur = String::new();
                cur_w = 0;
                assert(string_views(lines@) =~= old_lines.push(word@));
            }
        } else if cur_w < width && wl <= width - cur_w - 1 {
            push_char(&mut cur, ' ');
            push_chars(&mut cur, word, 0, wl);
            assert(word@.subrange(0, wl as int) =~= word@);
            cur_w = cur_w + 1 + wl;
        } else {
            lines.push(cur);
            assert(string_views(lines@) =~= old_lines.push(old_cur));
            cur = String::new();
            push_chars(&mut cur, word, 0, wl);
            assert(word@.subrange(0, wl as int) =~= word@);
            cur_w = wl;
            if cur_w > width {
                let ghost mid = string_views(lines@);
                lines.push(cur);
                cur = String::new();
                cur_w = 0;
                assert(string_views(lines@) =~= mid.push(word@));
            }
        }
        k = k + 1;
    }
    assert(ws.take(words@.len() as int) =~= ws);
    let ghost before = string_views(lines@);
    if cur_w > 0 {
        lines.push(cur);
        assert(string_views(lines@) =~= before.push(wrap_words(ws, width as nat).1));
    }
    if lines.len() == 0 {
        lines.push(String::new());
        assert(string_views(lines@) =~= seq![seq![]]);
    }
    lines
}

} // verus!

//! Character-level helpers: the visible width of a terminal string (ANSI
//! escape sequences take no columns), padding and truncation.
//!
//! The width is defined over characters.  Every byte that starts a UTF-8
//! sequence is one character, and the escape introducer `ESC [`, its
//! terminator `m` are ASCII, so scanning characters gives the same count as
//! scanning the UTF-8 bytes of the string.
use vstd::prelude::*;

verus! {

/// The escape character that starts an ANSI control sequence.
pub open spec fn esc() -> char {
    '\x1b'
}

/// Visible columns of `s`, scanned from its start; `in_esc` says whether the
/// scan is inside an `ESC [ ... m` sequence.
pub open spec fn scan_width(s: Seq<char>, in_esc: bool) -> nat
    decreases s.len(),
{
    if s.len() == 0 {
        0
    } else if in_esc {
        if s[0] == 'm' {
            scan_width(s.skip(1), false)
        } else {
            scan_width(s.skip(1), true)
        }
    } else if s[0] == esc() && s.len() >= 2 && s[1] == '[' {
        scan_width(s.skip(2), true)
    } else {
        1 + scan_width(s.skip(1), false)
    }
}

/// Whether scanning `s` (from state `in_esc`) ends inside an escape sequence,
/// or on a lone `ESC` that a following `[` would turn into one.
pub open spec fn scan_open(s: Seq<char>, in_esc: bool) -> bool
    decreases s.len(),
{
    if s.len() == 0 {
        in_esc
    } else if in_esc {
        if s[0] == 'm' {
            scan_open(s.skip(1), false)
        } else {
            scan_open(s.skip(1), true)
        }
    } else if s[0] == esc() && s.len() >= 2 && s[1] == '[' {
        scan_open(s.skip(2), true)
    } else if s[0] == esc() && s.len() == 1 {
        true
    } else {
        scan_open(s.skip(1), false)
    }
}

/// Visible column count of `s`: every character counts one, except the
/// characters of `ESC [ ... m` sequences (an unterminated one runs to the end).
pub open spec fn visible_len(s: Seq<char>) -> nat {
    scan_width(s, false)
}

/// `s` leaves no escape sequence open, so text appended after it is measured
/// on its own.
pub open spec fn is_closed(s: Seq<char>) -> bool {
    !scan_open(s, false)
}

/// `s` holds no escape character at all.
pub open spec fn is_plain(s: Seq<char>) -> bool {
    forall|i: int| 0 <= i < s.len() ==> s[i] != esc()
}

/// `n` copies of `c`.
pub open spec fn repeat_char(c: char, n: nat) -> Seq<char> {
    Seq::new(n, |_i: int| c)
}

/// `a - b`, or 0 where `b` exceeds `a`.
pub open spec fn sat_sub(a: nat, b: nat) -> nat {
    if a > b {
        (a - b) as nat
    } else {
        0
    }
}

/// `s` followed by enough spaces to reach `width` visible columns.
pub open spec fn rpad_spec(s: Seq<char>, width: nat) -> Seq<char> {
    s + repeat_char(' ', sat_sub(width, visible_len(s)))
}

/// `s` itself if it has at most `max` characters; otherwise its first
/// `max - 1` characters followed by an ellipsis, or nothing where `max` is 0.
pub open spec fn trunc_spec(s: Seq<char>, max: nat) -> Seq<char> {
    if s.len() <= max {
        s
    } else if max == 0 {
        Seq::empty()
    } else {
        s.take(max - 1) + seq!['\u{2026}']
    }
}

// ─── Lemmas on the width scan ───────────────────────────────────────────────

/// Width is additive over a concatenation whose first part leaves no escape
/// sequence open.
pub proof fn lemma_scan_concat(a: Seq<char>, b: Seq<char>, in_esc: bool)
    requires
        !scan_open(a, in_esc),
    ensures
        scan_width(a + b, in_esc) == scan_width(a, in_esc) + scan_width(b, false),
        scan_open(a + b, in_esc) == scan_open(b, false),
    decreases a.len(),
{
    if a.len() == 0 {
        assert(a + b =~= b);
    } else if in_esc {
        assert((a + b).skip(1) =~= a.skip(1) + b);
        if a[0] == 'm' {
            lemma_scan_concat(a.skip(1), b, false);
        } else {
            lemma_scan_concat(a.skip(1), b, true);
        }
    } else if a[0] == esc() && a.len() >= 2 && a[1] == '[' {
        assert((a + b).skip(2) =~= a.skip(2) + b);
        lemma_scan_concat(a.skip(2), b, true);
    } else {
        assert((a + b).skip(1) =~= a.skip(1) + b);
        lemma_scan_concat(a.skip(1), b, false);
    }
}

/// The visible characters of `s`, scanned from state `in_esc`: those
/// outside `ESC [ ... m` sequences.
pub open spec fn scan_plain(s: Seq<char>, in_esc: bool) -> Seq<char>
    decreases s.len(),
{
    if s.len() == 0 {
        Seq::empty()
    } else if in_esc {
        if s[0] == 'm' {
            scan_plain(s.skip(1), false)
        } else {
            scan_plain(s.skip(1), true)
        }
    } else if s[0] == esc() && s.len() >= 2 && s[1] == '[' {
        scan_plain(s.skip(2), true)
    } else {
        seq![s[0]] + scan_plain(s.skip(1), false)
    }
}

/// The text of `s` with its escape sequences removed.
pub open spec fn plain_text(s: Seq<char>) -> Seq<char> {
    scan_plain(s, false)
}

/// The visible characters are as many as the visible width.
pub proof fn lemma_plain_len(s: Seq<char>, in_esc: bool)
    ensures
        scan_plain(s, in_esc).len() == scan_width(s, in_esc),
    decreases s.len(),
{
    if s.len() > 0 {
        if in_esc {
            if s[0] == 'm' {
                lemma_plain_len(s.skip(1), false);
            } else {
                lemma_plain_len(s.skip(1), true);
            }
        } else if s[0] == esc() && s.len() >= 2 && s[1] == '[' {
            lemma_plain_len(s.skip(2), true);
        } else {
            lemma_plain_len(s.skip(1), false);
        }
    }
}

/// The visible characters of a concatenation whose first part leaves no
/// escape sequence open are those of each part.
pub proof fn lemma_plain_concat(a: Seq<char>, b: Seq<char>, in_esc: bool)
    requires
        !scan_open(a, in_esc),
    ensures
        scan_plain(a + b, in_esc) == scan_plain(a, in_esc) + scan_plain(b, false),
    decreases a.len(),
{
    if a.len() == 0 {
        assert(a + b =~= b);
        assert(scan_plain(a, in_esc) + scan_plain(b, false) =~= scan_plain(b, false));
    } else if in_esc {
        assert((a + b).skip(1) =~= a.skip(1) + b);
        if a[0] == 'm' {
            lemma_plain_concat(a.skip(1), b, false);
        } else {
            lemma_plain_concat(a.skip(1), b, true);
        }
    } else if a[0] == esc() && a.len() >= 2 && a[1] == '[' {
        assert((a + b).skip(2) =~= a.skip(2) + b);
        lemma_plain_concat(a.skip(2), b, true);
    } else {
        assert((a + b).skip(1) =~= a.skip(1) + b);
        lemma_plain_concat(a.skip(1), b, false);
        assert(seq![a[0]] + (scan_plain(a.skip(1), false) + scan_plain(b, false)) =~= (seq![a[0]]
            + scan_plain(a.skip(1), false)) + scan_plain(b, false));
    }
}

/// A string without escape characters is its own visible text.
pub proof fn lemma_plain_text_of_plain(s: Seq<char>)
    requires
        is_plain(s),
    ensures
        plain_text(s) == s,
    decreases s.len(),
{
    if s.len() > 0 {
        assert(is_plain(s.skip(1)));
        lemma_plain_text_of_plain(s.skip(1));
        assert(seq![s[0]] + s.skip(1) =~= s);
    } else {
        assert(plain_text(s) =~= s);
    }
}

/// Width of a concatenation of two closed strings.
pub proof fn lemma_visible_concat(a: Seq<char>, b: Seq<char>)
    requires
        is_closed(a),
    ensures
        visible_len(a + b) == visible_len(a) + visible_len(b),
        is_closed(a + b) == is_closed(b),
{
    lemma_scan_concat(a, b, false);
}

/// A string without escape characters is as wide as it is long, and closed.
pub proof fn lemma_plain(s: Seq<char>)
    requires
        is_plain(s),
    ensures
        visible_len(s) == s.len(),
        is_closed(s),
    decreases s.len(),
{
    if s.len() > 0 {
        assert(s[0] != esc());
        assert(is_plain(s.skip(1)));
        lemma_plain(s.skip(1));
    }
}

/// Inside an escape sequence, a body without `m` takes no columns and stays open.
proof fn lemma_escape_body(s: Seq<char>)
    requires
        forall|i: int| 0 <= i < s.len() ==> s[i] != 'm',
    ensures
        scan_width(s, true) == 0,
        scan_open(s, true),
    decreases s.len(),
{
    if s.len() > 0 {
        lemma_escape_body(s.skip(1));
    }
}

/// An SGR sequence `ESC [ body m` whose body holds no `m` takes no columns
/// and closes itself.
pub proof fn lemma_sgr(body: Seq<char>)
    requires
        forall|i: int| 0 <= i < body.len() ==> body[i] != 'm',
    ensures
        visible_len(seq![esc(), '['] + body + seq!['m']) == 0,
        is_closed(seq![esc(), '['] + body + seq!['m']),
{
    let s = seq![esc(), '['] + body + seq!['m'];
    let t = body + seq!['m'];
    assert(s.skip(2) =~= t);
    lemma_escape_body(body);
    lemma_scan_concat_open(body, seq!['m']);
    let e: Seq<char> = seq![];
    assert(seq!['m'].skip(1) =~= e);
}

/// Scanning `body + "m"` inside an escape sequence: the body takes nothing
/// and the final `m` closes the sequence.
proof fn lemma_scan_concat_open(body: Seq<char>, m: Seq<char>)
    requires
        forall|i: int| 0 <= i < body.len() ==> body[i] != 'm',
        m == seq!['m'],
    ensures
        scan_width(body + m, true) == 0,
        !scan_open(body + m, true),
    decreases body.len(),
{
    if body.len() == 0 {
        assert(body + m =~= m);
        let e: Seq<char> = seq![];
        assert(m.skip(1) =~= e);
        assert(m[0] == 'm');
        assert(scan_width(m, true) == scan_width(e, false));
        assert(scan_open(m, true) == scan_open(e, false));
    } else {
        assert((body + m).skip(1) =~= body.skip(1) + m);
        assert((body + m)[0] == body[0]);
        assert(body[0] != 'm');
        let t = body.skip(1);
        assert forall|i: int| 0 <= i < t.len() implies t[i] != 'm' by {
            assert(t[i] == body[i + 1]);
        }
        lemma_scan_concat_open(t, m);
    }
}

/// `n` copies of a character other than the escape character.
pub proof fn lemma_repeat_plain(c: char, n: nat)
    requires
        c != esc(),
    ensures
        visible_len(repeat_char(c, n)) == n,
        is_closed(repeat_char(c, n)),
{
    lemma_plain(repeat_char(c, n));
}

/// A padded closed string is closed and exactly as wide as the larger of its
/// width and the requested width.
pub proof fn lemma_rpad_width(s: Seq<char>, width: nat)
    requires
        is_closed(s),
    ensures
        visible_len(rpad_spec(s, width)) == if visible_len(s) >= width {
            visible_len(s)
        } else {
            width
        },
        is_closed(rpad_spec(s, width)),
{
    let pad = repeat_char(' ', sat_sub(width, visible_len(s)));
    lemma_repeat_plain(' ', sat_sub(width, visible_len(s)));
    lemma_visible_concat(s, pad);
}

/// Whether scanning `s` (from state `in_esc`) ends inside an `ESC [ ... m`
/// sequence, that is, some `ESC [` in it is not followed later by `m`.
pub open spec fn ends_in_sequence(s: Seq<char>, in_esc: bool) -> bool
    decreases s.len(),
{
    if s.len() == 0 {
        in_esc
    } else if in_esc {
        if s[0] == 'm' {
            ends_in_sequence(s.skip(1), false)
        } else {
            ends_in_sequence(s.skip(1), true)
        }
    } else if s[0] == esc() && s.len() >= 2 && s[1] == '[' {
        ends_in_sequence(s.skip(2), true)
    } else {
        ends_in_sequence(s.skip(1), false)
    }
}

/// Spaces appended to a string that ends outside any escape sequence each
/// add one column (a trailing lone `ESC` stays a visible character).
pub proof fn lemma_pad_width(s: Seq<char>, n: nat, in_esc: bool)
    requires
        !ends_in_sequence(s, in_esc),
    ensures
        scan_width(s + repeat_char(' ', n), in_esc) == scan_width(s, in_esc) + n,
    decreases s.len(),
{
    let sp = repeat_char(' ', n);
    if s.len() == 0 {
        assert(s + sp =~= sp);
        lemma_repeat_plain(' ', n);
    } else if in_esc {
        assert((s + sp).skip(1) =~= s.skip(1) + sp);
        if s[0] == 'm' {
            lemma_pad_width(s.skip(1), n, false);
        } else {
            lemma_pad_width(s.skip(1), n, true);
        }
    } else if s[0] == esc() && s.len() >= 2 && s[1] == '[' {
        assert((s + sp).skip(2) =~= s.skip(2) + sp);
        lemma_pad_width(s.skip(2), n, true);
    } else if s[0] == esc() && s.len() == 1 {
        assert((s + sp).skip(1) =~= sp);
        assert(s.skip(1) =~= Seq::<char>::empty());
        lemma_repeat_plain(' ', n);
        if n > 0 {
            assert((s + sp)[1] == ' ');
        } else {
            assert(s + sp =~= s);
        }
    } else {
        assert((s + sp).skip(1) =~= s.skip(1) + sp);
        lemma_pad_width(s.skip(1), n, false);
    }
}

/// Padding twice is padding once to the larger width: for a string in which
/// every `ESC [` is followed later by `m`,
/// `rpad(rpad(s, a), b) == rpad(s, max(a, b))`; in particular padding is
/// idempotent.
pub proof fn lemma_rpad_twice(s: Seq<char>, a: nat, b: nat)
    requires
        !ends_in_sequence(s, false),
    ensures
        rpad_spec(rpad_spec(s, a), b) == rpad_spec(s, if a >= b { a } else { b }),
{
    let v = visible_len(s);
    let x = sat_sub(a, v);
    lemma_pad_width(s, x, false);
    let y = sat_sub(b, visible_len(rpad_spec(s, a)));
    let m: nat = if a >= b { a } else { b };
    assert(x + y == sat_sub(m, v));
    assert(repeat_char(' ', x) + repeat_char(' ', y) =~= repeat_char(' ', sat_sub(m, v)));
    assert(rpad_spec(rpad_spec(s, a), b) =~= s + (repeat_char(' ', x) + repeat_char(' ', y)));
}

// ─── Executable helpers ─────────────────────────────────────────────────────

/// Appends one character (std `String::push`): the string's characters after
/// the call are those before it followed by `c`.
#[verifier::external_body]
pub(crate) fn push_char(s: &mut String, c: char)
    ensures
        final(s)@ == old(s)@.push(c),
{
    s.push(c);
}

/// The characters of `s`, in order.
pub fn chars_of(s: &str) -> (v: Vec<char>)
    ensures
        v@ == s@,
{
    broadcast use vstd::string::group_string_axioms;

    let mut v: Vec<char> = Vec::new();
    for c in it: s.chars()
        invariant
            v@ == it.seq().take(it.index() as int),
    {
        v.push(c);
    }
    v
}

/// Appends the characters `v[from..to]` to `s`.
pub fn push_chars(s: &mut String, v: &Vec<char>, from: usize, to: usize)
    requires
        from <= to <= v@.len(),
    ensures
        final(s)@ == old(s)@ + v@.subrange(from as int, to as int),
{
    let mut i = from;
    while i < to
        invariant
            from <= i <= to <= v@.len(),
            s@ == old(s)@ + v@.subrange(from as int, i as int),
        decreases to - i,
    {
        push_char(s, v[i]);
        assert(v@.subrange(from as int, i + 1) =~= v@.subrange(from as int, i as int).push(v@[i as int]));
        i = i + 1;
    }
}

/// A string made of the characters of `v`.
pub fn string_of(v: &Vec<char>) -> (s: String)
    ensures
        s@ == v@,
{
    let mut s = String::new();
    push_chars(&mut s, v, 0, v.len());
    assert(v@.subrange(0, v@.len() as int) =~= v@);
    s
}

/// Appends `n` copies of `c` to `s`.
pub fn push_repeat(s: &mut String, c: char, n: usize)
    ensures
        final(s)@ == old(s)@ + repeat_char(c, n as nat),
{
    let mut i: usize = 0;
    while i < n
        invariant
            i <= n,
            s@ == old(s)@ + repeat_char(c, i as nat),
        decreases n - i,
    {
        push_char(s, c);
        assert(repeat_char(c, (i + 1) as nat) =~= repeat_char(c, i as nat).push(c));
        i = i + 1;
    }
}

/// Appends the characters of `t` to `s`.
pub fn push_str(s: &mut String, t: &str)
    ensures
        final(s)@ == old(s)@ + t@,
{
    s.append(t);
}

/// Visible column count: strips ANSI escape sequences (`ESC [` up to and
/// including the next `m`) and counts the remaining characters.
pub fn vlen(s: &str) -> (n: usize)
    ensures
        n == visible_len(s@),
{
    let b = chars_of(s);
    let len = b.len();
    let mut n: usize = 0;
    let mut i: usize = 0;
    assert(b@.skip(0) =~= b@);
    while i < len
        invariant
            len == b@.len(),
            i <= len,
            n <= i,
            visible_len(b@) == n + scan_width(b@.skip(i as int), false),
        decreases len - i,
    {
        if b[i] == '\x1b' && i + 1 < len && b[i + 1] == '[' {
            assert(b@.skip(i as int).skip(2) =~= b@.skip(i + 2));
            let ghost start = i;
            i = i + 2;
            while i < len && b[i] != 'm'
                invariant
                    len == b@.len(),
                    start + 2 <= i <= len,
                    n + 2 <= i,
                    visible_len(b@) == n + scan_width(b@.skip(i as int), true),
                decreases len - i,
            {
                assert(b@.skip(i as int).skip(1) =~= b@.skip(i + 1));
                i = i + 1;
            }
            if i < len {
                assert(b@.skip(i as int).skip(1) =~= b@.skip(i + 1));
                i = i + 1;
            }
        } else {
            assert(b@.skip(i as int).skip(1) =~= b@.skip(i + 1));
            n = n + 1;
            i = i + 1;
        }
    }
    n
}

/// Pad `s` to `width` visible columns with trailing spaces.
pub fn rpad(s: &str, width: usize) -> (r: String)
    ensures
        r@ == rpad_spec(s@, width as nat),
{
    let n = vlen(s);
    let mut r = String::new();
    push_str(&mut r, s);
    push_repeat(&mut r, ' ', width.saturating_sub(n));
    r
}

/// Truncate a plain (no-ANSI) string to at most `max` visible chars, marking
/// a cut with an ellipsis.
pub fn trunc(s: &str, max: usize) -> (r: String)
    ensures
        r@ == trunc_spec(s@, max as nat),
        r@.len() <= max,
        s@.len() <= max ==> r@ == s@,
        s@.len() > max && max > 0 ==> r@.last() == '\u{2026}' && r@.drop_last() =~= s@.take(
            r@.len() - 1,
        ),
{
    let chars = chars_of(s);
    if chars.len() <= max {
        return s.to_owned();
    }
    let mut r = String::new();
    if max == 0 {
        return r;
    }
    push_chars(&mut r, &chars, 0, max - 1);
    push_char(&mut r, '\u{2026}');
    assert(chars@.subrange(0, max - 1) =~= s@.take(max - 1));
    r
}

/// ASCII lower-case of one character; other characters unchanged.
pub open spec fn lower_char(c: char) -> char {
    if 'A' <= c && c <= 'Z' {
        ((c as u32) + 32) as char
    } else {
        c
    }
}

/// ASCII lower-case of every character of `s`.
pub open spec fn lower_seq(s: Seq<char>) -> Seq<char> {
    Seq::new(s.len(), |i: int| lower_char(s[i]))
}

/// ASCII lower-case of one character.
pub fn to_lower_char(c: char) -> (r: char)
    ensures
        r == lower_char(c),
{
    if 'A' <= c && c <= 'Z' {
        let u = (c as u8) + 32;
        u as char
    } else {
        c
    }
}

/// ASCII lower-case copy of `v`.
pub fn lower_chars(v: &Vec<char>) -> (r: Vec<char>)
    ensures
        r@ == lower_seq(v@),
{
    let mut r: Vec<char> = Vec::new();
    let mut i: usize = 0;
    while i < v.len()
        invariant
            i <= v@.len(),
            r@ =~= lower_seq(v@.take(i as int)),
        decreases v.len() - i,
    {
        r.push(to_lower_char(v[i]));
        i = i + 1;
    }
    assert(v@.take(v@.len() as int) =~= v@);
    r
}

/// `p` is a prefix of `s`.
pub open spec fn has_prefix(s: Seq<char>, p: Seq<char>) -> bool {
    p.len() <= s.len() && s.take(p.len() as int) == p
}

/// `p` is a suffix of `s`.
pub open spec fn has_suffix(s: Seq<char>, p: Seq<char>) -> bool {
    p.len() <= s.len() && s.skip(s.len() - p.len()) == p
}

/// Whether `v[at..at + p.len()]` equals `p`.
pub fn matches_at(v: &Vec<char>, at: usize, p: &Vec<char>) -> (b: bool)
    requires
        at <= v@.len(),
    ensures
        b == (at + p@.len() <= v@.len() && v@.subrange(at as int, at + p@.len()) == p@),
{
    if p.len() > v.len() - at {
        return false;
    }
    let mut i: usize = 0;
    while i < p.len()
        invariant
            at + p@.len() <= v@.len(),
            v@.len() <= usize::MAX,
            i <= p@.len(),
            forall|j: int| 0 <= j < i ==> v@[at + j] == p@[j],
        decreases p.len() - i,
    {
        if v[at + i] != p[i] {
            assert(v@.subrange(at as int, at + p@.len())[i as int] != p@[i as int]);
            return false;
        }
        i = i + 1;
    }
    assert(v@.subrange(at as int, at + p@.len()) =~= p@);
    true
}

/// Whether `s` starts with `p` (`str::starts_with`).
pub fn starts_with(s: &str, p: &str) -> (b: bool)
    ensures
        b == has_prefix(s@, p@),
{
    let v = chars_of(s);
    let w = chars_of(p);
    let r = matches_at(&v, 0, &w);
    assert(v@.subrange(0, w@.len() as int) =~= v@.take(w@.len() as int));
    r
}

/// Whether `s` ends with `p` (`str::ends_with`).
pub fn ends_with(s: &str, p: &str) -> (b: bool)
    ensures
        b == has_suffix(s@, p@),
{
    let v = chars_of(s);
    let w = chars_of(p);
    if w.len() > v.len() {
        return false;
    }
    let r = matches_at(&v, v.len() - w.len(), &w);
    assert(v@.subrange(v@.len() - w@.len(), v@.len() as int) =~= v@.skip(v@.len() - w@.len()));
    r
}

/// Whether `a` and `b` hold the same characters.
pub fn str_eq(a: &str, b: &str) -> (r: bool)
    ensures
        r == (a@ == b@),
{
    let v = chars_of(a);
    let w = chars_of(b);
    if v.len() != w.len() {
        return false;
    }
    let r = matches_at(&v, 0, &w);
    assert(v@.subrange(0, w@.len() as int) =~= v@);
    r
}

} // verus!

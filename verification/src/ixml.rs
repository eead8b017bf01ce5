//! Reading values out of an iXML chunk: case-insensitive tag lookup,
//! CDATA unwrapping, whitespace collapsing and entity unescaping.
//!
//! Positions are counted in characters.  Every pattern searched for starts
//! with an ASCII character and ASCII lower-casing keeps every character's
//! length, so these positions match the byte positions of the UTF-8 text.
use vstd::prelude::*;
use crate::text::{chars_of, matches_at, lower_seq, lower_chars, string_of, has_prefix};
use crate::wrap::{is_ws, is_whitespace, split_ws, join_words, split_words, views};

verus! {

/// First position at or after `i` where `p` occurs in `s`.
pub open spec fn find_at(s: Seq<char>, p: Seq<char>, i: int) -> Option<int>
    decreases s.len() + 1 - i,
{
    if i < 0 || i + p.len() > s.len() {
        None
    } else if s.subrange(i, i + p.len()) == p {
        Some(i)
    } else {
        find_at(s, p, i + 1)
    }
}

/// `s` with every non-overlapping occurrence of `pat`, scanning from the
/// left, replaced by `rep` (`str::replace`).
pub open spec fn replace_all(s: Seq<char>, pat: Seq<char>, rep: Seq<char>) -> Seq<char>
    decreases s.len(),
{
    if s.len() == 0 {
        s
    } else if pat.len() > 0 && has_prefix(s, pat) {
        rep + replace_all(s.skip(pat.len() as int), pat, rep)
    } else {
        seq![s[0]] + replace_all(s.skip(1), pat, rep)
    }
}

/// The five predefined XML entities replaced, one after the other, in the
/// order `&lt;`, `&gt;`, `&amp;`, `&quot;`, `&apos;`.
pub open spec fn xml_unescape_spec(s: Seq<char>) -> Seq<char> {
    replace_all(
        replace_all(
            replace_all(replace_all(replace_all(s, "&lt;"@, "<"@), "&gt;"@, ">"@), "&amp;"@, "&"@),
            "&quot;"@,
            "\""@,
        ),
        "&apos;"@,
        "'"@,
    )
}

/// The words of `s` joined by single spaces.
pub open spec fn collapse_spec(s: Seq<char>) -> Seq<char> {
    join_words(split_ws(s))
}

/// Where the content of the first element named `tag` (any case) lies in
/// `xml`: after the `>` that ends the first `<tag` opening, up to the next
/// `</tag>`.
pub open spec fn tag_bounds(xml: Seq<char>, tag: Seq<char>) -> Option<(int, int)> {
    let lower = lower_seq(xml);
    let tl = lower_seq(tag);
    match find_at(lower, seq!['<'] + tl, 0) {
        None => None,
        Some(o) => match find_at(lower, seq!['>'], o) {
            None => None,
            Some(g) => match find_at(lower, seq!['<', '/'] + tl + seq!['>'], g + 1) {
                None => None,
                Some(e) => Some((g + 1, e)),
            },
        },
    }
}

/// The text of the first `tag` element, whitespace collapsed and entities
/// unescaped.
pub open spec fn find_xml_tag_spec(xml: Seq<char>, tag: Seq<char>) -> Option<Seq<char>> {
    match tag_bounds(xml, tag) {
        None => None,
        Some(b) => Some(xml_unescape_spec(collapse_spec(xml.subrange(b.0, b.1)))),
    }
}

/// Number of white-space characters at the start of `s`.
pub open spec fn leading_ws(s: Seq<char>) -> nat
    decreases s.len(),
{
    if s.len() > 0 && is_ws(s[0]) {
        1 + leading_ws(s.skip(1))
    } else {
        0
    }
}

/// A value that starts (after white space) with `<![CDATA[` is cut to what
/// lies between that marker and the next `]]>`, when there is one.
pub open spec fn cdata_spec(val: Seq<char>) -> Seq<char> {
    let open = "<![CDATA["@;
    if has_prefix(val.skip(leading_ws(val) as int), open) {
        match find_at(val, open, 0) {
            None => val,
            Some(s) => match find_at(val, "]]>"@, s + 9) {
                None => val,
                Some(e) => val.subrange(s + 9, e),
            },
        }
    } else {
        val
    }
}

/// The text of the first `tag` element, unwrapped from CDATA, whitespace
/// collapsed and entities unescaped.
pub open spec fn xml_get_spec(xml: Seq<char>, tag: Seq<char>) -> Option<Seq<char>> {
    match tag_bounds(xml, tag) {
        None => None,
        Some(b) => Some(xml_unescape_spec(collapse_spec(cdata_spec(xml.subrange(b.0, b.1))))),
    }
}

// ─── Executable parts ───────────────────────────────────────────────────────

/// First position at or after `from` where `p` occurs in `v`.
pub fn find_from(v: &Vec<char>, p: &Vec<char>, from: usize) -> (r: Option<usize>)
    ensures
        match r {
            Some(i) => find_at(v@, p@, from as int) == Some(i as int) && from <= i && i + p@.len()
                <= v@.len() <= usize::MAX,
            None => find_at(v@, p@, from as int) is None,
        },
{
    let len = v.len();
    if from > len {
        return None;
    }
    let mut i = from;
    while i <= len && p.len() <= len - i
        invariant
            len == v@.len(),
            from <= i,
            i <= len + 1,
            find_at(v@, p@, from as int) == find_at(v@, p@, i as int),
        decreases len + 1 - i,
    {
        if matches_at(v, i, p) {
            proof {
                lemma_find_at_bounds(v@, p@, from as int);
            }
            return Some(i);
        }
        assert(p@.len() > 0) by {
            if p@.len() == 0 {
                assert(v@.subrange(i as int, i as int) =~= p@);
            }
        }
        i = i + 1;
    }
    None
}

proof fn lemma_prefix_at(v: Seq<char>, i: int, p: Seq<char>)
    requires
        0 <= i <= v.len(),
    ensures
        has_prefix(v.skip(i), p) == (i + p.len() <= v.len() && v.subrange(i, i + p.len()) == p),
{
    if i + p.len() <= v.len() {
        assert(v.skip(i).take(p.len() as int) =~= v.subrange(i, i + p.len()));
    }
}

/// `v` with every occurrence of `pat` replaced by `rep` (`str::replace`).
pub fn replace_chars(v: &Vec<char>, pat: &Vec<char>, rep: &Vec<char>) -> (r: Vec<char>)
    requires
        pat@.len() > 0,
    ensures
        r@ == replace_all(v@, pat@, rep@),
{
    let len = v.len();
    let mut out: Vec<char> = Vec::new();
    let mut i: usize = 0;
    assert(v@.skip(0) =~= v@);
    while i < len
        invariant
            len == v@.len(),
            i <= len,
            pat@.len() > 0,
            replace_all(v@, pat@, rep@) == out@ + replace_all(v@.skip(i as int), pat@, rep@),
        decreases len - i,
    {
        proof {
            lemma_prefix_at(v@, i as int, pat@);
        }
        if matches_at(v, i, pat) {
            let mut k: usize = 0;
            let ghost before = out@;
            while k < rep.len()
                invariant
                    k <= rep@.len(),
                    out@ == before + rep@.take(k as int),
                decreases rep.len() - k,
            {
                out.push(rep[k]);
                assert(rep@.take(k + 1) =~= rep@.take(k as int).push(rep@[k as int]));
                k = k + 1;
            }
            assert(rep@.take(rep@.len() as int) =~= rep@);
            assert(v@.skip(i as int).skip(pat@.len() as int) =~= v@.skip(i + pat@.len()));
            i = i + pat.len();
        } else {
            let ghost before = out@;
            out.push(v[i]);
            assert(v@.skip(i as int).skip(1) =~= v@.skip(i + 1));
            assert(out@ =~= before + seq![v@.skip(i as int)[0]]);
            i = i + 1;
        }
    }
    assert(v@.skip(len as int) =~= Seq::<char>::empty());
    assert(out@ + replace_all(Seq::<char>::empty(), pat@, rep@) =~= out@);
    out
}

/// Replaces the XML entities `&lt;`, `&gt;`, `&amp;`, `&quot;` and
/// `&apos;`, one after the other, in that order.
pub fn xml_unescape_chars(v: &Vec<char>) -> (r: Vec<char>)
    ensures
        r@ == xml_unescape_spec(v@),
{
    proof {
        reveal_strlit("&lt;");
        reveal_strlit("&gt;");
        reveal_strlit("&amp;");
        reveal_strlit("&quot;");
        reveal_strlit("&apos;");
    }
    let a = replace_chars(v, &chars_of("&lt;"), &chars_of("<"));
    let b = replace_chars(&a, &chars_of("&gt;"), &chars_of(">"));
    let c = replace_chars(&b, &chars_of("&amp;"), &chars_of("&"));
    let d = replace_chars(&c, &chars_of("&quot;"), &chars_of("\""));
    replace_chars(&d, &chars_of("&apos;"), &chars_of("'"))
}

/// Replaces the XML entities `&lt;`, `&gt;`, `&amp;`, `&quot;` and
/// `&apos;`, one after the other, in that order.
pub fn xml_unescape(s: &str) -> (r: String)
    ensures
        r@ == xml_unescape_spec(s@),
{
    let v = chars_of(s);
    string_of(&xml_unescape_chars(&v))
}

/// The words of `v` joined by single spaces.
pub fn collapse_whitespace(v: &Vec<char>) -> (r: Vec<char>)
    ensures
        r@ == collapse_spec(v@),
{
    let words = split_words(v);
    let ghost ws = views(words@);
    let mut out: Vec<char> = Vec::new();
    let mut k: usize = 0;
    assert(ws.take(0) =~= Seq::<Seq<char>>::empty());
    while k < words.len()
        invariant
            ws == views(words@),
            k <= words@.len(),
            out@ == join_words(ws.take(k as int)),
        decreases words.len() - k,
    {
        let w = &words[k];
        let ghost before = out@;
        if k > 0 {
            out.push(' ');
        }
        let mut t: usize = 0;
        while t < w.len()
            invariant
                t <= w@.len(),
                out@ == (if k > 0 {
                    before + seq![' ']
                } else {
                    before
                }) + w@.take(t as int),
            decreases w.len() - t,
        {
            out.push(w[t]);
            assert(w@.take(t + 1) =~= w@.take(t as int).push(w@[t as int]));
            t = t + 1;
        }
        assert(w@.take(w@.len() as int) =~= w@);
        assert(ws.take(k + 1).drop_last() =~= ws.take(k as int));
        assert(ws[k as int] == w@);
        if k == 0 {
            assert(before =~= Seq::<char>::empty());
            assert(ws.take(1) =~= seq![w@]);
        }
        k = k + 1;
    }
    assert(ws.take(words@.len() as int) =~= ws);
    out
}

/// The characters `v[from..to]`.
fn sub_chars(v: &Vec<char>, from: usize, to: usize) -> (r: Vec<char>)
    requires
        from <= to <= v@.len(),
    ensures
        r@ == v@.subrange(from as int, to as int),
{
    let mut r: Vec<char> = Vec::new();
    let mut i = from;
    while i < to
        invariant
            from <= i <= to <= v@.len(),
            r@ =~= v@.subrange(from as int, i as int),
        decreases to - i,
    {
        r.push(v[i]);
        i = i + 1;
    }
    r
}

/// Where the content of the first `tag` element lies in `x`.
fn tag_range(x: &Vec<char>, tag: &str) -> (r: Option<(usize, usize)>)
    ensures
        match r {
            None => tag_bounds(x@, tag@) is None,
            Some(b) => tag_bounds(x@, tag@) == Some((b.0 as int, b.1 as int)) && b.0 <= b.1 <= x@.len(),
        },
{
    let lower = lower_chars(x);
    let tl = lower_chars(&chars_of(tag));
    let mut open: Vec<char> = Vec::new();
    open.push('<');
    let mut k: usize = 0;
    while k < tl.len()
        invariant
            k <= tl@.len(),
            open@ =~= seq!['<'] + tl@.take(k as int),
        decreases tl.len() - k,
    {
        open.push(tl[k]);
        k = k + 1;
    }
    assert(tl@.take(tl@.len() as int) =~= tl@);
    let mut close: Vec<char> = Vec::new();
    close.push('<');
    close.push('/');
    let mut k: usize = 0;
    while k < tl.len()
        invariant
            k <= tl@.len(),
            close@ =~= seq!['<', '/'] + tl@.take(k as int),
        decreases tl.len() - k,
    {
        close.push(tl[k]);
        k = k + 1;
    }
    assert(tl@.take(tl@.len() as int) =~= tl@);
    close.push('>');
    assert(close@ =~= seq!['<', '/'] + tl@ + seq!['>']);
    let mut gt: Vec<char> = Vec::new();
    gt.push('>');
    assert(gt@ =~= seq!['>']);
    let o = match find_from(&lower, &open, 0) {
        Some(o) => o,
        None => return None,
    };
    let g = match find_from(&lower, &gt, o) {
        Some(g) => g,
        None => return None,
    };
    let e = match find_from(&lower, &close, g + 1) {
        Some(e) => e,
        None => return None,
    };
    Some((g + 1, e))
}

/// A match found at or after `i` lies inside `s`, at or after `i`.
proof fn lemma_find_at_bounds(s: Seq<char>, p: Seq<char>, i: int)
    ensures
        find_at(s, p, i) matches Some(j) ==> i <= j && j + p.len() <= s.len(),
    decreases s.len() + 1 - i,
{
    if !(i < 0 || i + p.len() > s.len()) && s.subrange(i, i + p.len()) != p {
        lemma_find_at_bounds(s, p, i + 1);
    }
}

/// Text of the first `tag` element (case-insensitive), whitespace collapsed
/// and entities unescaped.
pub fn find_xml_tag(xml: &str, tag: &str) -> (r: Option<String>)
    ensures
        r.deep_view() == find_xml_tag_spec(xml@, tag@),
{
    let x = chars_of(xml);
    let (start, end) = match tag_range(&x, tag) {
        Some(b) => b,
        None => return None,
    };
    let val = sub_chars(&x, start, end);
    let collapsed = collapse_whitespace(&val);
    Some(string_of(&xml_unescape_chars(&collapsed)))
}

/// Number of white-space characters at the start of `v`.
fn count_leading_ws(v: &Vec<char>) -> (n: usize)
    ensures
        n == leading_ws(v@),
        n <= v@.len(),
{
    let mut n: usize = 0;
    assert(v@.skip(0) =~= v@);
    while n < v.len() && is_whitespace(v[n])
        invariant
            n <= v@.len(),
            leading_ws(v@) == n + leading_ws(v@.skip(n as int)),
        decreases v.len() - n,
    {
        assert(v@.skip(n as int).skip(1) =~= v@.skip(n + 1));
        n = n + 1;
    }
    n
}

/// Cuts a CDATA-wrapped value to what the wrapper holds.
fn unwrap_cdata(val: Vec<char>) -> (r: Vec<char>)
    ensures
        r@ == cdata_spec(val@),
{
    let open = chars_of("<![CDATA[");
    let close = chars_of("]]>");
    proof {
        reveal_strlit("<![CDATA[");
        reveal_strlit("]]>");
    }
    let lead = count_leading_ws(&val);
    proof {
        lemma_prefix_at(val@, lead as int, open@);
    }
    if !matches_at(&val, lead, &open) {
        return val;
    }
    let s = match find_from(&val, &open, 0) {
        Some(s) => s,
        None => return val,
    };
    let s1 = s + 9;
    let e = match find_from(&val, &close, s1) {
        Some(e) => e,
        None => return val,
    };
    sub_chars(&val, s1, e)
}

/// Text of the first `tag` element (case-insensitive), unwrapped from CDATA,
/// whitespace collapsed and entities unescaped.
pub fn xml_get(xml: &str, tag: &str) -> (r: Option<String>)
    ensures
        r.deep_view() == xml_get_spec(xml@, tag@),
{
    let x = chars_of(xml);
    let (start, end) = match tag_range(&x, tag) {
        Some(b) => b,
        None => return None,
    };
    let val = unwrap_cdata(sub_chars(&x, start, end));
    let collapsed = collapse_whitespace(&val);
    Some(string_of(&xml_unescape_chars(&collapsed)))
}

/// Production metadata read from an iXML chunk.
pub struct Ixml {
    pub project: Option<String>,
    pub scene: Option<String>,
    pub take: Option<String>,
    pub tape: Option<String>,
    pub note: Option<String>,
    pub location: Option<String>,
    pub ixml_version: Option<String>,
    pub timecode: Option<String>,
    pub tc_rate: Option<String>,
    pub tc_flag: Option<String>,
    pub speed_sample_rate: Option<String>,
}

/// Reads the fields of an iXML chunk, each from the element of its name.
pub fn parse_ixml(xml: &str) -> (x: Ixml)
    ensures
        x.project.deep_view() == xml_get_spec(xml@, "PROJECT"@),
        x.scene.deep_view() == xml_get_spec(xml@, "SCENE"@),
        x.take.deep_view() == xml_get_spec(xml@, "TAKE"@),
        x.tape.deep_view() == xml_get_spec(xml@, "TAPE"@),
        x.note.deep_view() == xml_get_spec(xml@, "NOTE"@),
        x.location.deep_view() == xml_get_spec(xml@, "LOCATION"@),
        x.ixml_version.deep_view() == xml_get_spec(xml@, "IXML_VERSION"@),
        x.timecode.deep_view() == xml_get_spec(xml@, "TIMECODE"@),
        x.tc_rate.deep_view() == xml_get_spec(xml@, "TIMECODE_RATE"@),
        x.tc_flag.deep_view() == xml_get_spec(xml@, "TIMECODE_FLAG"@),
        x.speed_sample_rate.deep_view() == xml_get_spec(xml@, "SAMPLE_RATE"@),
{
    let mut x = Ixml {
        project: None,
        scene: None,
        take: None,
        tape: None,
        note: None,
        location: None,
        ixml_version: None,
        timecode: None,
        tc_rate: None,
        tc_flag: None,
        speed_sample_rate: None,
    };
    x.project = xml_get(xml, "PROJECT");
    x.scene = xml_get(xml, "SCENE");
    x.take = xml_get(xml, "TAKE");
    x.tape = xml_get(xml, "TAPE");
    x.note = xml_get(xml, "NOTE");
    x.location = xml_get(xml, "LOCATION");
    x.ixml_version = xml_get(xml, "IXML_VERSION");
    x.timecode = xml_get(xml, "TIMECODE");
    x.tc_rate = xml_get(xml, "TIMECODE_RATE");
    x.tc_flag = xml_get(xml, "TIMECODE_FLAG");
    if let Some(sr) = xml_get(xml, "SAMPLE_RATE") {
        x.speed_sample_rate = Some(sr);
    }
    x
}

// ─── Laws ───────────────────────────────────────────────────────────────────

/// Replacing a pattern that starts with `&` leaves text without `&` as it is.
proof fn lemma_replace_absent(s: Seq<char>, pat: Seq<char>, rep: Seq<char>)
    requires
        pat.len() > 0,
        pat[0] == '&',
        forall|i: int| 0 <= i < s.len() ==> s[i] != '&',
    ensures
        replace_all(s, pat, rep) == s,
    decreases s.len(),
{
    if s.len() > 0 {
        assert(!has_prefix(s, pat)) by {
            if has_prefix(s, pat) {
                assert(s.take(pat.len() as int)[0] == s[0]);
            }
        }
        lemma_replace_absent(s.skip(1), pat, rep);
        assert(seq![s[0]] + s.skip(1) =~= s);
    }
}

/// Text without `&` holds no entity, so unescaping leaves it unchanged.
pub proof fn lemma_unescape_plain(s: Seq<char>)
    requires
        forall|i: int| 0 <= i < s.len() ==> s[i] != '&',
    ensures
        xml_unescape_spec(s) == s,
{
    reveal_strlit("&lt;");
    reveal_strlit("&gt;");
    reveal_strlit("&amp;");
    reveal_strlit("&quot;");
    reveal_strlit("&apos;");
    lemma_replace_absent(s, "&lt;"@, "<"@);
    lemma_replace_absent(s, "&gt;"@, ">"@);
    lemma_replace_absent(s, "&amp;"@, "&"@);
    lemma_replace_absent(s, "&quot;"@, "\""@);
    lemma_replace_absent(s, "&apos;"@, "'"@);
}

/// Tag names are matched case-insensitively: names equal up to ASCII case
/// find the same element.
pub proof fn lemma_tag_case_insensitive(xml: Seq<char>, t1: Seq<char>, t2: Seq<char>)
    requires
        lower_seq(t1) == lower_seq(t2),
    ensures
        xml_get_spec(xml, t1) == xml_get_spec(xml, t2),
        find_xml_tag_spec(xml, t1) == find_xml_tag_spec(xml, t2),
{
}

} // verus!

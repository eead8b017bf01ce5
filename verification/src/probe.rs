//! What the preview knows about a file: the probe's format and first audio
//! stream fields, the file's name and size, and the values derived from them.
use vstd::prelude::*;
use crate::text::{chars_of, lower_seq, lower_chars, push_str, push_char};
use crate::fields::opt_view;
use crate::tags::{TagEntry, entries_view, get_ci_spec, get_ci, keys_view};
use crate::ixml::{find_at, find_from};
use crate::units::dec;

verus! {

/// A probe field: text, an unsigned integer, or anything else (absent,
/// null, negative or fractional numbers, other kinds of value).
pub enum Scalar {
    Text(String),
    Unsigned(u64),
    Other,
}

/// The facts the preview shows about one audio file.
pub struct AudioInfo {
    /// The file's name, without its directories.
    pub filename: String,
    /// The file name's extension, where it has one and it is valid text.
    pub extension: Option<String>,
    /// The file's size in bytes, where it could be read.
    pub file_size: Option<u64>,
    /// The duration in whole seconds, where the probe gave one.
    pub duration_secs: Option<u64>,
    pub format_name: Scalar,
    pub format_long_name: Scalar,
    pub bit_rate: Scalar,
    /// The container's tags, where the probe gave an object of them.
    pub format_tags: Option<Vec<TagEntry>>,
    pub codec_name: Scalar,
    pub codec_long_name: Scalar,
    pub sample_fmt: Scalar,
    pub channels: Scalar,
    pub channel_layout: Scalar,
    pub sample_rate: Scalar,
    pub bits_per_sample: Scalar,
    pub stream_bit_rate: Scalar,
    pub block_align: Scalar,
    pub time_base: Scalar,
    pub start_time: Scalar,
    pub nb_frames: Scalar,
    pub duration_ts: Scalar,
    /// The audio stream's tags, where the probe gave an object of them.
    pub stream_tags: Option<Vec<TagEntry>>,
}

/// The text of a field that is text.
pub open spec fn text_of(s: Scalar) -> Option<Seq<char>> {
    match s {
        Scalar::Text(t) => Some(t@),
        _ => None,
    }
}

/// The value of a field that is an unsigned integer.
pub open spec fn u64_of(s: Scalar) -> Option<u64> {
    match s {
        Scalar::Unsigned(n) => Some(n),
        _ => None,
    }
}

/// The text of a field that is text.
pub fn scalar_str(s: &Scalar) -> (r: Option<&str>)
    ensures
        opt_view(r) == text_of(*s),
{
    match s {
        Scalar::Text(t) => Some(t.as_str()),
        _ => None,
    }
}

/// The value of a field that is an unsigned integer.
pub fn scalar_u64(s: &Scalar) -> (r: Option<u64>)
    ensures
        r == u64_of(*s),
{
    match s {
        Scalar::Unsigned(n) => Some(*n),
        _ => None,
    }
}

// ─── Unsigned integer parsing ───────────────────────────────────────────────

pub open spec fn is_digit(c: char) -> bool {
    '0' <= c && c <= '9'
}

/// The value of a string of decimal digits.
pub open spec fn digits_value(d: Seq<char>) -> nat
    decreases d.len(),
{
    if d.len() == 0 {
        0
    } else {
        10 * digits_value(d.drop_last()) + ((d.last() as int) - 48) as nat
    }
}

/// The digits of an unsigned number: an optional leading `+` removed.
pub open spec fn unsigned_digits(s: Seq<char>) -> Seq<char> {
    if s.len() > 0 && s[0] == '+' {
        s.skip(1)
    } else {
        s
    }
}

/// An unsigned decimal at most `max` (`str::parse` of `u64` or `u32`): an
/// optional `+`, then one or more ASCII digits.
pub open spec fn parse_uint_spec(s: Seq<char>, max: nat) -> Option<nat> {
    let d = unsigned_digits(s);
    if d.len() > 0 && (forall|i: int| 0 <= i < d.len() ==> is_digit(#[trigger] d[i]))
        && digits_value(d) <= max {
        Some(digits_value(d))
    } else {
        None
    }
}

/// Parses an unsigned decimal no larger than `max`.
pub fn parse_uint(s: &str, max: u64) -> (r: Option<u64>)
    ensures
        match r {
            Some(v) => parse_uint_spec(s@, max as nat) == Some(v as nat),
            None => parse_uint_spec(s@, max as nat) is None,
        },
{
    let v = chars_of(s);
    let mut i: usize = 0;
    if v.len() > 0 && v[0] == '+' {
        i = 1;
    }
    let ghost d = unsigned_digits(s@);
    assert(d =~= v@.skip(i as int));
    if i == v.len() {
        return None;
    }
    let start = i;
    let cap: u128 = max as u128 + 1;
    let mut acc: u128 = 0;
    while i < v.len()
        invariant
            start <= i <= v@.len(),
            d == unsigned_digits(s@),
            d.len() > 0,
            d =~= v@.skip(start as int),
            cap == max + 1,
            forall|j: int| 0 <= j < i - start ==> is_digit(#[trigger] d[j]),
            acc == if digits_value(d.take(i - start)) > max {
                cap as nat
            } else {
                digits_value(d.take(i - start))
            },
        decreases v.len() - i,
    {
        let c = v[i];
        if !('0' <= c && c <= '9') {
            assert(d[i - start] == c);
            assert(!is_digit(d[i - start]));
            assert(parse_uint_spec(s@, max as nat) is None);
            return None;
        }
        let dig = (c as u32 - 48) as u128;
        let ghost p = d.take(i - start);
        assert(d.take(i - start + 1).drop_last() =~= p);
        assert(d.take(i - start + 1).last() == c);
        if acc >= cap {
            acc = cap;
        } else {
            let nxt = acc * 10 + dig;
            acc = if nxt > max as u128 {
                cap
            } else {
                nxt
            };
        }
        i = i + 1;
    }
    assert(d.take(d.len() as int) =~= d);
    if acc >= cap {
        None
    } else {
        Some(acc as u64)
    }
}

// ─── Derived values ─────────────────────────────────────────────────────────

/// The first of two optional values that is present.
pub open spec fn or_else<T>(a: Option<T>, b: Option<T>) -> Option<T> {
    match a {
        Some(x) => Some(x),
        None => b,
    }
}

/// The container: its long name, or else its short name.
pub open spec fn container_spec(info: AudioInfo) -> Option<Seq<char>> {
    or_else(text_of(info.format_long_name), text_of(info.format_name))
}

/// The codec: its long name, or else its short name.
pub open spec fn codec_spec(info: AudioInfo) -> Option<Seq<char>> {
    or_else(text_of(info.codec_long_name), text_of(info.codec_name))
}

/// An optional text parsed as an unsigned number up to `max`.
pub open spec fn parsed(t: Option<Seq<char>>, max: nat) -> Option<nat> {
    match t {
        Some(s) => parse_uint_spec(s, max),
        None => None,
    }
}

/// The container's overall bit rate.
pub open spec fn overall_bit_rate_spec(info: AudioInfo) -> Option<nat> {
    parsed(text_of(info.bit_rate), u64::MAX as nat)
}

/// The stream's sample rate.
pub open spec fn sample_rate_spec(info: AudioInfo) -> Option<nat> {
    parsed(text_of(info.sample_rate), u32::MAX as nat)
}

/// The stream's bit rate.
pub open spec fn stream_bit_rate_spec(info: AudioInfo) -> Option<nat> {
    parsed(text_of(info.stream_bit_rate), u64::MAX as nat)
}

/// The stream's bit depth, where it is given and positive.
pub open spec fn bit_depth_spec(info: AudioInfo) -> Option<u64> {
    match u64_of(info.bits_per_sample) {
        Some(b) if b > 0 => Some(b),
        _ => None,
    }
}

/// The first text value under any of `keys`, in the container's tags, then
/// in the stream's.
pub open spec fn lookup_spec(info: AudioInfo, keys: Seq<Seq<char>>) -> Option<Seq<char>> {
    let f = match info.format_tags {
        Some(v) => get_ci_spec(entries_view(v@), keys),
        None => None,
    };
    let s = match info.stream_tags {
        Some(v) => get_ci_spec(entries_view(v@), keys),
        None => None,
    };
    or_else(f, s)
}

/// Whether an optional text is present and non-empty.
pub open spec fn filled_text(t: Option<Seq<char>>) -> bool {
    match t {
        Some(s) => s.len() > 0,
        None => false,
    }
}

/// ASCII upper-case of one character.
pub open spec fn upper_char(c: char) -> char {
    if 'a' <= c && c <= 'z' {
        ((c as u32) - 32) as char
    } else {
        c
    }
}

/// ASCII upper-case of every character.
pub open spec fn upper_seq(s: Seq<char>) -> Seq<char> {
    Seq::new(s.len(), |i: int| upper_char(s[i]))
}

/// The characters of `s` before its first comma (all of `s` without one).
pub open spec fn before_comma(s: Seq<char>) -> Seq<char> {
    match find_at(s, seq![','], 0) {
        Some(i) => s.take(i),
        None => s,
    }
}

/// The short name of the format, or empty text.
pub open spec fn format_name_text(info: AudioInfo) -> Seq<char> {
    match text_of(info.format_name) {
        Some(t) => t,
        None => seq![],
    }
}

/// The file type named in messages: the extension in capitals, or else the
/// first of the format's names in capitals.
pub open spec fn file_type_spec(info: AudioInfo) -> Seq<char> {
    match info.extension {
        Some(e) => upper_seq(e@),
        None => upper_seq(before_comma(format_name_text(info))),
    }
}

/// `p` occurs in `s`.
pub open spec fn contains_spec(s: Seq<char>, p: Seq<char>) -> bool {
    find_at(s, p, 0) is Some
}

/// WAV-like containers (WAV, RF64, BW64) carry the iXML, BEXT and technical
/// sections.
pub open spec fn is_wav_like_spec(info: AudioInfo) -> bool {
    let l = lower_seq(format_name_text(info));
    contains_spec(l, "wav"@) || contains_spec(l, "rf64"@) || contains_spec(l, "bw64"@)
}

// ─── Executable derivations ─────────────────────────────────────────────────

/// The first of two optional strings that is present.
fn or_str<'a>(a: Option<&'a str>, b: Option<&'a str>) -> (r: Option<&'a str>)
    ensures
        opt_view(r) == or_else(opt_view(a), opt_view(b)),
{
    match a {
        Some(x) => Some(x),
        None => b,
    }
}

pub fn container(info: &AudioInfo) -> (r: Option<&str>)
    ensures
        opt_view(r) == container_spec(*info),
{
    or_str(scalar_str(&info.format_long_name), scalar_str(&info.format_name))
}

pub fn codec(info: &AudioInfo) -> (r: Option<&str>)
    ensures
        opt_view(r) == codec_spec(*info),
{
    or_str(scalar_str(&info.codec_long_name), scalar_str(&info.codec_name))
}

/// An optional text parsed as an unsigned number up to `max`.
pub fn parse_opt(t: Option<&str>, max: u64) -> (r: Option<u64>)
    ensures
        match r {
            Some(v) => parsed(opt_view(t), max as nat) == Some(v as nat),
            None => parsed(opt_view(t), max as nat) is None,
        },
{
    match t {
        Some(s) => parse_uint(s, max),
        None => None,
    }
}

pub fn bit_depth(info: &AudioInfo) -> (r: Option<u64>)
    ensures
        r == bit_depth_spec(*info),
{
    match scalar_u64(&info.bits_per_sample) {
        Some(b) if b > 0 => Some(b),
        _ => None,
    }
}

/// The first text value under any of `keys`, in the container's tags, then
/// in the stream's.
pub fn lookup(info: &AudioInfo, keys: &[&str]) -> (r: Option<String>)
    ensures
        r.deep_view() == lookup_spec(*info, keys_view(keys@)),
{
    let f = match &info.format_tags {
        Some(v) => get_ci(Some(v), keys),
        None => None,
    };
    match f {
        Some(x) => Some(x),
        None => match &info.stream_tags {
            Some(v) => get_ci(Some(v), keys),
            None => None,
        },
    }
}

/// Whether an optional text is present and non-empty.
pub fn is_filled_text(t: &Option<String>) -> (b: bool)
    ensures
        b == filled_text(t.deep_view()),
{
    match t {
        Some(s) => !s.as_str().is_empty(),
        None => false,
    }
}

/// The characters of an optional string.
pub fn opt_str(o: &Option<String>) -> (r: Option<&str>)
    ensures
        opt_view(r) == o.deep_view(),
{
    match o {
        Some(s) => Some(s.as_str()),
        None => None,
    }
}

/// ASCII upper-case copy of `s`.
pub fn to_upper(s: &Vec<char>) -> (r: String)
    ensures
        r@ == upper_seq(s@),
{
    let mut r = String::new();
    let mut i: usize = 0;
    while i < s.len()
        invariant
            i <= s@.len(),
            r@ =~= upper_seq(s@.take(i as int)),
        decreases s.len() - i,
    {
        let c = s[i];
        let u = if 'a' <= c && c <= 'z' {
            ((c as u8) - 32) as char
        } else {
            c
        };
        push_char(&mut r, u);
        i = i + 1;
    }
    assert(s@.take(s@.len() as int) =~= s@);
    r
}

pub fn file_type(info: &AudioInfo) -> (r: String)
    ensures
        r@ == file_type_spec(*info),
{
    match &info.extension {
        Some(e) => to_upper(&chars_of(e.as_str())),
        None => {
            let name = match scalar_str(&info.format_name) {
                Some(t) => chars_of(t),
                None => Vec::new(),
            };
            assert(name@ == format_name_text(*info));
            let mut comma: Vec<char> = Vec::new();
            comma.push(',');
            assert(comma@ =~= seq![',']);
            match find_from(&name, &comma, 0) {
                Some(i) => {
                    let mut head: Vec<char> = Vec::new();
                    let mut k: usize = 0;
                    while k < i
                        invariant
                            k <= i <= name@.len(),
                            head@ =~= name@.take(k as int),
                        decreases i - k,
                    {
                        head.push(name[k]);
                        k = k + 1;
                    }
                    to_upper(&head)
                },
                None => to_upper(&name),
            }
        },
    }
}

pub fn is_wav_like(info: &AudioInfo) -> (b: bool)
    ensures
        b == is_wav_like_spec(*info),
{
    let name = match scalar_str(&info.format_name) {
        Some(t) => chars_of(t),
        None => Vec::new(),
    };
    assert(name@ == format_name_text(*info));
    let l = lower_chars(&name);
    find_from(&l, &chars_of("wav"), 0).is_some() || find_from(&l, &chars_of("rf64"), 0).is_some()
        || find_from(&l, &chars_of("bw64"), 0).is_some()
}

/// `text` followed by `suffix`.
pub fn with_suffix(text: &str, suffix: &str) -> (r: String)
    ensures
        r@ == text@ + suffix@,
{
    let mut r = String::new();
    push_str(&mut r, text);
    push_str(&mut r, suffix);
    r
}

/// An optional text followed by `suffix`.
pub open spec fn suffixed(t: Option<Seq<char>>, suffix: Seq<char>) -> Option<Seq<char>> {
    match t {
        Some(s) => Some(s + suffix),
        None => None,
    }
}

/// An optional text followed by `suffix`.
pub fn suffix_opt(t: &Option<String>, suffix: &str) -> (r: Option<String>)
    ensures
        r.deep_view() == suffixed(t.deep_view(), suffix@),
{
    match t {
        Some(s) => Some(with_suffix(s.as_str(), suffix)),
        None => None,
    }
}

/// An optional number in decimal followed by `suffix`.
pub open spec fn dec_suffixed(n: Option<nat>, suffix: Seq<char>) -> Option<Seq<char>> {
    match n {
        Some(v) => Some(dec(v) + suffix),
        None => None,
    }
}

/// An optional number in decimal followed by `suffix`.
pub fn dec_suffix_opt(n: Option<u64>, suffix: &str) -> (r: Option<String>)
    ensures
        r.deep_view() == dec_suffixed(
            match n {
                Some(v) => Some(v as nat),
                None => None,
            },
            suffix@,
        ),
{
    match n {
        Some(v) => {
            let mut s = crate::units::decimal(v);
            push_str(&mut s, suffix);
            Some(s)
        },
        None => None,
    }
}

} // verus!

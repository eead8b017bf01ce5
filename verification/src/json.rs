//! The probe's JSON report: parsed by serde_json into a plain tree, then
//! read field by field into the facts the preview shows.
use vstd::prelude::*;
use crate::probe::{Scalar, AudioInfo, text_of, u64_of};
use crate::tags::{TagEntry, entries_view};
use crate::text::str_eq;

verus! {

/// A JSON value.  A number keeps only its value as an unsigned 64-bit
/// integer, where it is one; an object keeps its members in the order the
/// parser's map gives them.
pub enum Json {
    Null,
    Bool(bool),
    Number(Option<u64>),
    Text(String),
    Array(Vec<Json>),
    Object(Vec<(String, Json)>),
}

#[verifier::external_type_specification]
#[verifier::external_body]
pub struct ExJsonValue(serde_json::Value);

/// The tree serde_json parses `bytes` into, or `None` where they are not a
/// JSON document.
pub uninterp spec fn json_of_bytes(bytes: Seq<u8>) -> Option<Json>;

/// serde_json `from_slice` into a `serde_json::Value`, converted into a
/// `Json` tree; `None` where serde_json reports an error.  The result is
/// named, not stated: it is whatever serde_json's parser makes of the bytes.
#[verifier::external_body]
fn parse_json(bytes: &[u8]) -> (r: Option<Json>)
    ensures
        r == json_of_bytes(bytes@),
{
    serde_json::from_slice::<serde_json::Value>(bytes).ok().map(|v| json_of_value(&v))
}

/// A `serde_json::Value` as a `Json` tree, variant for variant; a number
/// through serde_json's `Number::as_u64`.
#[verifier::external_body]
fn json_of_value(v: &serde_json::Value) -> Json {
    match v {
        serde_json::Value::Null => Json::Null,
        serde_json::Value::Bool(b) => Json::Bool(*b),
        serde_json::Value::Number(n) => Json::Number(n.as_u64()),
        serde_json::Value::String(s) => Json::Text(s.clone()),
        serde_json::Value::Array(a) => Json::Array(a.iter().map(json_of_value).collect()),
        serde_json::Value::Object(m) => Json::Object(
            m.iter().map(|(k, x)| (k.clone(), json_of_value(x))).collect(),
        ),
    }
}

// ─── Reading the report ─────────────────────────────────────────────────────

/// The value behind an optional reference.
pub open spec fn deref_opt(r: Option<&Json>) -> Option<Json> {
    match r {
        Some(x) => Some(*x),
        None => None,
    }
}

/// The value of the first member named `key`.
pub open spec fn member(fields: Seq<(String, Json)>, key: Seq<char>) -> Option<Json>
    decreases fields.len(),
{
    if fields.len() == 0 {
        None
    } else if fields[0].0@ == key {
        Some(fields[0].1)
    } else {
        member(fields.skip(1), key)
    }
}

/// Member `key` of an object; nothing for any other value, or none.
pub open spec fn field(j: Option<Json>, key: Seq<char>) -> Option<Json> {
    match j {
        Some(Json::Object(f)) => member(f@, key),
        _ => None,
    }
}

/// The text of a value that is text.
pub open spec fn json_text(j: Option<Json>) -> Option<Seq<char>> {
    match j {
        Some(Json::Text(t)) => Some(t@),
        _ => None,
    }
}

/// The value of a number that is an unsigned 64-bit integer.
pub open spec fn json_unsigned(j: Option<Json>) -> Option<u64> {
    match j {
        Some(Json::Number(Some(n))) => Some(n),
        _ => None,
    }
}

/// A stream whose `codec_type` is the text "audio".
pub open spec fn is_audio_stream(s: Json) -> bool {
    json_text(field(Some(s), "codec_type"@)) == Some("audio"@)
}

/// The first audio stream of a list of streams.
pub open spec fn first_audio(ss: Seq<Json>) -> Option<Json>
    decreases ss.len(),
{
    if ss.len() == 0 {
        None
    } else if is_audio_stream(ss[0]) {
        Some(ss[0])
    } else {
        first_audio(ss.skip(1))
    }
}

/// The report's `format` object.
pub open spec fn format_of(doc: Option<Json>) -> Option<Json> {
    field(doc, "format"@)
}

/// The report's first stream whose `codec_type` is "audio", where its
/// `streams` member is an array holding one.
pub open spec fn audio_stream(doc: Option<Json>) -> Option<Json> {
    match field(doc, "streams"@) {
        Some(Json::Array(ss)) => first_audio(ss@),
        _ => None,
    }
}

/// `s` is the field `j`: text for text, an unsigned integer for a number
/// that is one, `Other` for anything else or nothing.
pub open spec fn scalar_from(s: Scalar, j: Option<Json>) -> bool {
    &&& text_of(s) == json_text(j)
    &&& u64_of(s) == json_unsigned(j)
}

/// Each member of a tag object as its key and its text, where it is text.
pub open spec fn tag_view(fields: Seq<(String, Json)>) -> Seq<(Seq<char>, Option<Seq<char>>)> {
    Seq::new(fields.len(), |i: int| (fields[i].0@, json_text(Some(fields[i].1))))
}

/// `t` holds the members of the tag object `j`, in order; none where `j` is
/// not an object.
pub open spec fn tags_from(t: Option<Vec<TagEntry>>, j: Option<Json>) -> bool {
    match j {
        Some(Json::Object(f)) => t matches Some(v) && entries_view(v@) == tag_view(f@),
        _ => t is None,
    }
}

/// The probe fields of `info` are those of the report `doc`: the format's
/// from its `format` object, the stream's from its first audio stream.
pub open spec fn info_from(info: AudioInfo, doc: Option<Json>) -> bool {
    let f = format_of(doc);
    let a = audio_stream(doc);
    &&& scalar_from(info.format_name, field(f, "format_name"@))
    &&& scalar_from(info.format_long_name, field(f, "format_long_name"@))
    &&& scalar_from(info.bit_rate, field(f, "bit_rate"@))
    &&& tags_from(info.format_tags, field(f, "tags"@))
    &&& scalar_from(info.codec_name, field(a, "codec_name"@))
    &&& scalar_from(info.codec_long_name, field(a, "codec_long_name"@))
    &&& scalar_from(info.sample_fmt, field(a, "sample_fmt"@))
    &&& scalar_from(info.channels, field(a, "channels"@))
    &&& scalar_from(info.channel_layout, field(a, "channel_layout"@))
    &&& scalar_from(info.sample_rate, field(a, "sample_rate"@))
    &&& scalar_from(info.bits_per_sample, field(a, "bits_per_sample"@))
    &&& scalar_from(info.stream_bit_rate, field(a, "bit_rate"@))
    &&& scalar_from(info.block_align, field(a, "block_align"@))
    &&& scalar_from(info.time_base, field(a, "time_base"@))
    &&& scalar_from(info.start_time, field(a, "start_time"@))
    &&& scalar_from(info.nb_frames, field(a, "nb_frames"@))
    &&& scalar_from(info.duration_ts, field(a, "duration_ts"@))
    &&& tags_from(info.stream_tags, field(a, "tags"@))
}

/// The value of the first member of `fields` named `key`.
fn member_exec<'a>(fields: &'a Vec<(String, Json)>, key: &str) -> (r: Option<&'a Json>)
    ensures
        deref_opt(r) == member(fields@, key@),
{
    let mut i: usize = 0;
    assert(fields@.skip(0) =~= fields@);
    while i < fields.len()
        invariant
            i <= fields@.len(),
            member(fields@, key@) == member(fields@.skip(i as int), key@),
        decreases fields.len() - i,
    {
        assert(fields@.skip(i as int)[0] == fields@[i as int]);
        if str_eq(fields[i].0.as_str(), key) {
            return Some(&fields[i].1);
        }
        assert(fields@.skip(i as int).skip(1) =~= fields@.skip(i + 1));
        i = i + 1;
    }
    None
}

/// Member `key` of `j` where `j` is an object.
fn field_exec<'a>(j: Option<&'a Json>, key: &str) -> (r: Option<&'a Json>)
    ensures
        deref_opt(r) == field(deref_opt(j), key@),
{
    match j {
        Some(Json::Object(f)) => member_exec(f, key),
        _ => None,
    }
}

/// The first stream of `ss` whose `codec_type` is "audio".
fn first_audio_exec<'a>(ss: &'a Vec<Json>) -> (r: Option<&'a Json>)
    ensures
        deref_opt(r) == first_audio(ss@),
{
    let mut i: usize = 0;
    assert(ss@.skip(0) =~= ss@);
    while i < ss.len()
        invariant
            i <= ss@.len(),
            first_audio(ss@) == first_audio(ss@.skip(i as int)),
        decreases ss.len() - i,
    {
        assert(ss@.skip(i as int)[0] == ss@[i as int]);
        let t = field_exec(Some(&ss[i]), "codec_type");
        let is_audio = match t {
            Some(Json::Text(s)) => str_eq(s.as_str(), "audio"),
            _ => false,
        };
        if is_audio {
            return Some(&ss[i]);
        }
        assert(ss@.skip(i as int).skip(1) =~= ss@.skip(i + 1));
        i = i + 1;
    }
    None
}

/// A field as the preview reads it.
fn scalar_exec(j: Option<&Json>) -> (s: Scalar)
    ensures
        scalar_from(s, deref_opt(j)),
{
    match j {
        Some(Json::Text(t)) => Scalar::Text(t.clone()),
        Some(Json::Number(Some(n))) => Scalar::Unsigned(*n),
        _ => Scalar::Other,
    }
}

/// A tag object as its keys and text values, in order.
fn tags_exec(j: Option<&Json>) -> (t: Option<Vec<TagEntry>>)
    ensures
        tags_from(t, deref_opt(j)),
{
    let f = match j {
        Some(Json::Object(f)) => f,
        _ => return None,
    };
    let mut out: Vec<TagEntry> = Vec::new();
    let mut i: usize = 0;
    while i < f.len()
        invariant
            i <= f@.len(),
            out@.len() == i,
            entries_view(out@) == tag_view(f@).take(i as int),
        decreases f.len() - i,
    {
        let entry = &f[i];
        let text = match &entry.1 {
            Json::Text(s) => Some(s.clone()),
            _ => None,
        };
        assert(text.deep_view() == json_text(Some(f@[i as int].1)));
        let key = entry.0.clone();
        assert(key@ == f@[i as int].0@);
        let ghost before = out@;
        out.push(TagEntry { key, text });
        assert(out@ == before.push(TagEntry { key, text }));
        assert(entries_view(out@) =~= tag_view(f@).take(i + 1)) by {
            assert(entries_view(out@).len() == i + 1);
            assert forall|t: int| 0 <= t < i + 1 implies entries_view(out@)[t] == tag_view(f@).take(i + 1)[t] by {
                if t < i {
                    assert(out@[t] == before[t]);
                    assert(entries_view(before)[t] == tag_view(f@).take(i as int)[t]);
                }
            }
        }
        i = i + 1;
    }
    assert(tag_view(f@).take(f@.len() as int) =~= tag_view(f@));
    Some(out)
}

/// The probe report parsed, where there is one: `None` without a report or
/// where serde_json cannot parse it.
pub fn probe_document(report: Option<&[u8]>) -> (doc: Option<Json>)
    ensures
        doc == match report {
            Some(b) => json_of_bytes(b@),
            None => None,
        },
{
    match report {
        Some(b) => parse_json(b),
        None => None,
    }
}

/// The report's duration field, where it is text (seconds with a decimal
/// fraction).
pub fn duration_text(doc: &Option<Json>) -> (r: Option<String>)
    ensures
        r.deep_view() == json_text(field(format_of(*doc), "duration"@)),
{
    let d = match doc {
        Some(j) => Some(j),
        None => None,
    };
    let f = field_exec(d, "format");
    match field_exec(f, "duration") {
        Some(Json::Text(t)) => Some(t.clone()),
        _ => None,
    }
}

/// The facts the preview shows, the probe fields read from the report: the
/// format's from its `format` object, the stream's from its first stream
/// whose `codec_type` is "audio" (all missing where there is none or the
/// report could not be parsed).
pub fn audio_info(
    doc: &Option<Json>,
    filename: String,
    extension: Option<String>,
    file_size: Option<u64>,
    duration_secs: Option<u64>,
) -> (info: AudioInfo)
    ensures
        info_from(info, *doc),
        info.filename == filename,
        info.extension == extension,
        info.file_size == file_size,
        info.duration_secs == duration_secs,
{
    let d = match doc {
        Some(j) => Some(j),
        None => None,
    };
    let f = field_exec(d, "format");
    let a = match field_exec(d, "streams") {
        Some(Json::Array(ss)) => first_audio_exec(ss),
        _ => None,
    };
    AudioInfo {
        filename,
        extension,
        file_size,
        duration_secs,
        format_name: scalar_exec(field_exec(f, "format_name")),
        format_long_name: scalar_exec(field_exec(f, "format_long_name")),
        bit_rate: scalar_exec(field_exec(f, "bit_rate")),
        format_tags: tags_exec(field_exec(f, "tags")),
        codec_name: scalar_exec(field_exec(a, "codec_name")),
        codec_long_name: scalar_exec(field_exec(a, "codec_long_name")),
        sample_fmt: scalar_exec(field_exec(a, "sample_fmt")),
        channels: scalar_exec(field_exec(a, "channels")),
        channel_layout: scalar_exec(field_exec(a, "channel_layout")),
        sample_rate: scalar_exec(field_exec(a, "sample_rate")),
        bits_per_sample: scalar_exec(field_exec(a, "bits_per_sample")),
        stream_bit_rate: scalar_exec(field_exec(a, "bit_rate")),
        block_align: scalar_exec(field_exec(a, "block_align")),
        time_base: scalar_exec(field_exec(a, "time_base")),
        start_time: scalar_exec(field_exec(a, "start_time")),
        nb_frames: scalar_exec(field_exec(a, "nb_frames")),
        duration_ts: scalar_exec(field_exec(a, "duration_ts")),
        stream_tags: tags_exec(field_exec(a, "tags")),
    }
}

} // verus!

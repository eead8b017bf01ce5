//! The preview frames: the box of sections first shown while loudness is
//! being measured, and the same box with the measured loudness filled in.
//!
//! Fixed row order within each section; missing values become grey N/A so
//! positions never shift.
use vstd::prelude::*;
use crate::text::{
    sat_sub, trunc_spec, trunc, push_str, chars_of, visible_len, is_closed, is_plain, lemma_plain,
    lemma_visible_concat,
};
use crate::ansi::{
    lemma_codes_invisible, reset, grey, white, bold, cyan, yellow, blue, magenta, red, green, orange, blink, purple,
    reset_seq, grey_seq, bold_seq, cyan_seq, white_seq, yellow_seq, blue_seq, magenta_seq, red_seq,
    green_seq, orange_seq, blink_seq, purple_seq,
};
use crate::frame::{
    top_border_spec, section_border_spec, meta_row_spec, wave_row_spec, bottom_border_spec,
    lemma_top_border_width, top_border, section_border, meta_row, wave_row, bottom_border,
};
use crate::fields::{
    opt_view, kv_spec, kvc_spec, kvc_opt_spec, detail2_c_opt_spec, kv, kvc, kvc_opt, detail2_c_opt,
};
use crate::wrapped::{detail_leftwrap_spec, detail2_leftwrap_spec, detail_leftwrap, detail2_leftwrap};
use crate::wrap::string_views;
use crate::units::{dec, duration_spec, human_size_spec, fmt_duration_secs, human_size, decimal};
use crate::encoding::{derive_encoding_spec, derive_encoding};
use crate::ixml::{xml_get_spec, parse_ixml, find_from};
use crate::waveform::{waveform_spec, renderable, drawable, render_waveform};
use crate::tags::keys_view;
use crate::probe::{
    scalar_str, scalar_u64, parse_opt, opt_str, container, codec, bit_depth, dec_suffix_opt, lookup,
    is_filled_text, suffix_opt, is_wav_like, file_type, parse_uint, with_suffix,
    Scalar, AudioInfo, text_of, u64_of, container_spec, codec_spec, overall_bit_rate_spec,
    sample_rate_spec, stream_bit_rate_spec, bit_depth_spec, lookup_spec, filled_text, file_type_spec,
    is_wav_like_spec, contains_spec, suffixed, dec_suffixed, or_else, parsed, parse_uint_spec,
};

verus! {

/// A section title: the name in `color`.
pub open spec fn title_spec(color: Seq<char>, name: Seq<char>) -> Seq<char> {
    color + name + reset_seq()
}

/// A grey message row.
pub open spec fn note_row(msg: Seq<char>, width: nat) -> Seq<char> {
    meta_row_spec(grey_seq() + msg + reset_seq(), width)
}

/// A number of bits per second shown in whole kilobits.
pub open spec fn kbps(n: Option<nat>) -> Option<Seq<char>> {
    match n {
        Some(b) => Some(dec(b / 1000) + " kbps"@),
        None => None,
    }
}

/// Two values side by side with white values.
pub open spec fn pair(
    l1: Seq<char>,
    v1: Option<Seq<char>>,
    l2: Seq<char>,
    v2: Option<Seq<char>>,
    width: nat,
) -> Seq<char> {
    detail2_c_opt_spec(l1, v1, white_seq(), l2, v2, white_seq(), width)
}

pub open spec fn header_rows(info: AudioInfo, width: nat) -> Seq<Seq<char>> {
    seq![
        top_border_spec(
            bold_seq() + trunc_spec(info.filename@, sat_sub(width, 7)) + reset_seq(),
            width,
        ),
    ]
}

pub open spec fn summary_rows(info: AudioInfo, width: nat) -> Seq<Seq<char>> {
    let dur = match info.duration_secs {
        Some(t) => Some(duration_spec(t as nat)),
        None => None,
    };
    let size = match info.file_size {
        Some(b) => Some(human_size_spec(b as nat)),
        None => None,
    };
    seq![
        section_border_spec(title_spec(cyan_seq(), "SUMMARY"@), width),
        meta_row_spec(kvc_opt_spec("Duration"@, dur, white_seq()), width),
        meta_row_spec(kvc_opt_spec("Size"@, size, white_seq()), width),
        meta_row_spec(kvc_opt_spec("Overall BR"@, kbps(overall_bit_rate_spec(info)), white_seq()), width),
    ]
}

/// The text of a field, or empty text.
pub open spec fn text_or_empty(s: Scalar) -> Seq<char> {
    match text_of(s) {
        Some(t) => t,
        None => seq![],
    }
}

pub open spec fn format_rows(info: AudioInfo, width: nat) -> Seq<Seq<char>> {
    let enc = derive_encoding_spec(text_or_empty(info.codec_name), text_or_empty(info.sample_fmt));
    seq![
        section_border_spec(title_spec(yellow_seq(), "FORMAT"@), width),
        pair("Container"@, container_spec(info), "Codec"@, codec_spec(info), width),
        pair("Encoding"@, enc.0, "Endianness"@, enc.1, width),
    ]
}

/// Channel count, with the layout in brackets where there is one.
pub open spec fn channels_text(info: AudioInfo) -> Option<Seq<char>> {
    match u64_of(info.channels) {
        Some(ch) => Some(
            match text_of(info.channel_layout) {
                Some(l) => dec(ch as nat) + " ("@ + l + ")"@,
                None => dec(ch as nat),
            },
        ),
        None => None,
    }
}

pub open spec fn audio_rows(info: AudioInfo, width: nat) -> Seq<Seq<char>> {
    let bd = match bit_depth_spec(info) {
        Some(b) => Some(b as nat),
        None => None,
    };
    seq![
        section_border_spec(title_spec(blue_seq(), "AUDIO"@), width),
        pair(
            "Channels"@,
            channels_text(info),
            "Sample Rate"@,
            dec_suffixed(sample_rate_spec(info), " Hz"@),
            width,
        ),
        pair("Bit Depth"@, dec_suffixed(bd, " bit"@), "Bitrate"@, kbps(stream_bit_rate_spec(info)), width),
    ]
}

pub open spec fn keys1(a: Seq<char>) -> Seq<Seq<char>> {
    seq![a]
}

pub open spec fn keys2(a: Seq<char>, b: Seq<char>) -> Seq<Seq<char>> {
    seq![a, b]
}

pub open spec fn keys3(a: Seq<char>, b: Seq<char>, c: Seq<char>) -> Seq<Seq<char>> {
    seq![a, b, c]
}

pub open spec fn keys4(a: Seq<char>, b: Seq<char>, c: Seq<char>, d: Seq<char>) -> Seq<Seq<char>> {
    seq![a, b, c, d]
}

pub open spec fn tags_rows(info: AudioInfo, width: nat) -> Seq<Seq<char>> {
    let title = lookup_spec(info, keys2("title"@, "inam"@));
    let artist = lookup_spec(info, keys3("artist"@, "iart"@, "author"@));
    let album = lookup_spec(info, keys2("album"@, "iprd"@));
    let track = lookup_spec(info, keys4("track"@, "tracknumber"@, "track_number"@, "itrk"@));
    let year = lookup_spec(info, keys3("date"@, "year"@, "icrd"@));
    let genre = lookup_spec(info, keys2("genre"@, "ignr"@));
    let comment = lookup_spec(info, keys3("comment"@, "description"@, "icmt"@));
    let encoder = lookup_spec(info, keys3("encoder"@, "isft"@, "software"@));
    let has = filled_text(title) || filled_text(artist) || filled_text(album) || filled_text(track)
        || filled_text(year) || filled_text(genre) || filled_text(comment) || filled_text(
        encoder,
    );
    seq![
        section_border_spec(
            title_spec(
                if has {
                    magenta_seq()
                } else {
                    grey_seq()
                },
                "TAGS"@,
            ),
            width,
        ),
    ] + if has {
        seq![
            pair("Title"@, title, "Artist"@, artist, width),
            pair("Album"@, album, "Track"@, track, width),
            pair("Year"@, year, "Genre"@, genre, width),
        ] + match comment {
            Some(c) => detail2_leftwrap_spec(
                "Comment"@,
                c,
                white_seq(),
                "Encoder"@,
                encoder,
                white_seq(),
                width,
            ),
            None => seq![pair("Comment"@, None, "Encoder"@, encoder, width)],
        }
    } else {
        seq![note_row("No tags present"@, width)]
    }
}

/// "Unavailable for TYPE"
pub open spec fn unavailable_row(info: AudioInfo, width: nat) -> Seq<char> {
    note_row("Unavailable for "@ + file_type_spec(info), width)
}

/// Timecode rate with its flag in brackets, or whichever of them is present.
pub open spec fn tc_rate_text(rate: Option<Seq<char>>, flag: Option<Seq<char>>) -> Option<Seq<char>> {
    match (rate, flag) {
        (Some(r), Some(f)) => Some(r + " ("@ + f + ")"@),
        (Some(r), None) => Some(r),
        (None, Some(f)) => Some(f),
        _ => None,
    }
}

pub open spec fn ixml_rows(info: AudioInfo, width: nat) -> Seq<Seq<char>> {
    let raw = lookup_spec(info, keys1("ixml"@));
    let wav = is_wav_like_spec(info);
    let has = wav && filled_text(raw);
    seq![
        section_border_spec(
            title_spec(
                if has {
                    red_seq()
                } else {
                    grey_seq()
                },
                "iXML"@,
            ),
            width,
        ),
    ] + if wav {
        if has {
            let x = raw.unwrap();
            seq![
                pair("Project"@, xml_get_spec(x, "PROJECT"@), "Scene"@, xml_get_spec(x, "SCENE"@), width),
                pair("Take"@, xml_get_spec(x, "TAKE"@), "Tape"@, xml_get_spec(x, "TAPE"@), width),
                pair("Note"@, xml_get_spec(x, "NOTE"@), "Location"@, xml_get_spec(x, "LOCATION"@), width),
                pair(
                    "Timecode"@,
                    xml_get_spec(x, "TIMECODE"@),
                    "TC Rate"@,
                    tc_rate_text(xml_get_spec(x, "TIMECODE_RATE"@), xml_get_spec(x, "TIMECODE_FLAG"@)),
                    width,
                ),
                pair(
                    "iXML Version"@,
                    xml_get_spec(x, "IXML_VERSION"@),
                    "Speed SR"@,
                    suffixed(xml_get_spec(x, "SAMPLE_RATE"@), " Hz"@),
                    width,
                ),
            ]
        } else {
            seq![note_row("No iXML data"@, width)]
        }
    } else {
        seq![unavailable_row(info, width)]
    }
}

/// A 64-bit time reference from its low and high 32-bit halves: the high
/// half shifted up 32 bits (bits beyond 64 dropped), plus the low half.
pub open spec fn tref_sum(lo: nat, hi: nat) -> nat {
    (hi * 0x1_0000_0000) % 0x1_0000_0000_0000_0000 + lo
}

/// The low and high halves of the time reference, where both parse.
pub open spec fn tref_halves(info: AudioInfo) -> Option<(nat, nat)> {
    let low = lookup_spec(info, keys1("time_reference_low"@));
    let high = lookup_spec(info, keys1("time_reference_high"@));
    match (low, high) {
        (Some(l), Some(h)) => match (
            parse_uint_spec(l, u64::MAX as nat),
            parse_uint_spec(h, u64::MAX as nat),
        ) {
            (Some(lo), Some(hi)) => Some((lo, hi)),
            _ => None,
        },
        _ => None,
    }
}

/// The time reference: given whole, or combined from its two halves.
pub open spec fn tref_spec(info: AudioInfo) -> Option<Seq<char>> {
    or_else(
        lookup_spec(info, keys1("time_reference"@)),
        match tref_halves(info) {
            Some(p) => Some(dec(tref_sum(p.0, p.1))),
            None => None,
        },
    )
}

/// Origination date and time, separated by a space, or whichever is present.
pub open spec fn origination_text(d: Option<Seq<char>>, t: Option<Seq<char>>) -> Option<Seq<char>> {
    match (d, t) {
        (Some(a), Some(b)) => Some(a + " "@ + b),
        (Some(a), None) => Some(a),
        (None, Some(b)) => Some(b),
        _ => None,
    }
}

pub open spec fn bext_rows(info: AudioInfo, width: nat) -> Seq<Seq<char>> {
    if is_wav_like_spec(info) {
        let desc = lookup_spec(info, keys1("description"@));
        let origin = lookup_spec(info, keys1("originator"@));
        let origin_ref = lookup_spec(info, keys2("originator_reference"@, "originator_ref"@));
        let odate = lookup_spec(info, keys1("origination_date"@));
        let otime = lookup_spec(info, keys1("origination_time"@));
        let umid = lookup_spec(info, keys1("umid"@));
        let chist = lookup_spec(info, keys1("coding_history"@));
        let tref = tref_spec(info);
        let lv = lookup_spec(info, keys1("loudness_value"@));
        let lra = lookup_spec(info, keys1("loudness_range"@));
        let mtp = lookup_spec(info, keys1("max_true_peak_level"@));
        let mst = lookup_spec(info, keys1("max_short_term_loudness"@));
        let mm = lookup_spec(info, keys1("max_momentary_loudness"@));
        let has = filled_text(desc) || filled_text(origin) || filled_text(origin_ref) || filled_text(
            odate,
        ) || filled_text(otime) || filled_text(tref) || filled_text(umid) || filled_text(chist)
            || filled_text(lv) || filled_text(lra) || filled_text(mtp) || filled_text(mst)
            || filled_text(mm);
        seq![
            section_border_spec(
                title_spec(
                    if has {
                        green_seq()
                    } else {
                        grey_seq()
                    },
                    "BEXT"@,
                ),
                width,
            ),
        ] + if has {
            seq![
                pair("Description"@, desc, "Originator"@, origin, width),
                pair("Originator Ref"@, origin_ref, "Origination"@, origination_text(odate, otime), width),
                pair("Time Reference"@, suffixed(tref, " samples"@), "UMID"@, umid, width),
            ] + (if lv is Some || lra is Some {
                seq![
                    pair(
                        "Loudness (LV)"@,
                        suffixed(lv, " LUFS"@),
                        "LRA"@,
                        suffixed(lra, " LU"@),
                        width,
                    ),
                ]
            } else {
                seq![]
            }) + (if mtp is Some || mst is Some || mm is Some {
                seq![
                    pair(
                        "Max True Peak"@,
                        suffixed(mtp, " dBTP"@),
                        "Max Short-term"@,
                        or_else(suffixed(mst, " LUFS"@), suffixed(mm, " LUFS"@)),
                        width,
                    ),
                ]
            } else {
                seq![]
            }) + match chist {
                Some(h) => detail_leftwrap_spec("Coding History"@, h, white_seq(), width),
                None => seq![],
            }
        } else {
            seq![note_row("No BEXT data"@, width)]
        }
    } else {
        seq![
            section_border_spec(title_spec(grey_seq(), "BEXT"@), width),
            unavailable_row(info, width),
        ]
    }
}

/// An unsigned field in decimal.
pub open spec fn u64_text(n: Option<u64>) -> Option<Seq<char>> {
    match n {
        Some(v) => Some(dec(v as nat)),
        None => None,
    }
}

/// Block alignment: a number, or text holding one.
pub open spec fn block_align_spec(info: AudioInfo) -> Option<nat> {
    or_else(
        match u64_of(info.block_align) {
            Some(n) => Some(n as nat),
            None => None,
        },
        parsed(text_of(info.block_align), u64::MAX as nat),
    )
}

/// Bytes per second from sample rate, channels and bit depth, where all
/// three are known.
pub open spec fn byte_rate_spec(info: AudioInfo) -> Option<nat> {
    match (sample_rate_spec(info), u64_of(info.channels), bit_depth_spec(info)) {
        (Some(sr), Some(ch), Some(bd)) => Some(((sr * ch * bd) / 8) as nat),
        _ => None,
    }
}

/// A field given as text, or as a number shown in decimal.
pub open spec fn text_or_number(s: Scalar) -> Option<Seq<char>> {
    or_else(text_of(s), u64_text(u64_of(s)))
}

pub open spec fn tech_rows(info: AudioInfo, width: nat) -> Seq<Seq<char>> {
    let ba = block_align_spec(info);
    let br = byte_rate_spec(info);
    let tb = text_of(info.time_base);
    let st = text_of(info.start_time);
    let nbf = text_or_number(info.nb_frames);
    let dts = text_or_number(info.duration_ts);
    let sf = text_or_empty(info.sample_fmt);
    let layout = text_of(info.channel_layout);
    let has = ba is Some || br is Some || tb is Some || st is Some || nbf is Some || dts is Some
        || sf.len() > 0 || layout is Some;
    let wav = is_wav_like_spec(info);
    seq![
        section_border_spec(
            title_spec(
                if wav && has {
                    white_seq()
                } else {
                    grey_seq()
                },
                "TECHNICAL"@,
            ),
            width,
        ),
    ] + if wav {
        if has {
            seq![
                pair(
                    "Block Align"@,
                    dec_suffixed(ba, " bytes"@),
                    "Byte Rate"@,
                    dec_suffixed(br, " B/s"@),
                    width,
                ),
                pair("Time Base"@, tb, "Start Time"@, st, width),
                pair("Frames"@, nbf, "Duration TS"@, dts, width),
                pair(
                    "Sample Format"@,
                    if sf.len() == 0 {
                        None
                    } else {
                        Some(sf)
                    },
                    "Layout"@,
                    layout,
                    width,
                ),
            ]
        } else {
            seq![note_row("No technical data"@, width)]
        }
    } else {
        seq![unavailable_row(info, width)]
    }
}

pub open spec fn loudness_rows(width: nat) -> Seq<Seq<char>> {
    seq![
        section_border_spec(title_spec(orange_seq(), "LOUDNESS"@), width),
        meta_row_spec(
            kv_spec("Integrated LUFS"@, grey_seq() + blink_seq() + "Calculating..."@ + reset_seq()),
            width,
        ),
    ]
}

pub open spec fn wave_rows(raw: Seq<u8>, width: nat, height: nat) -> Seq<Seq<char>> {
    let w = waveform_spec(raw, sat_sub(width, 2), height);
    seq![
        section_border_spec(
            title_spec(
                if raw.len() >= 4 {
                    purple_seq()
                } else {
                    grey_seq()
                },
                "WAVEFORM"@,
            ),
            width,
        ),
    ] + Seq::new(w.len(), |i: int| wave_row_spec(w[i])) + seq![bottom_border_spec(width)]
}

/// The metadata rows: header, then the SUMMARY, FORMAT, AUDIO, TAGS, iXML,
/// BEXT, TECHNICAL and LOUDNESS sections.
#[verifier::opaque]
pub open spec fn metadata_rows(info: AudioInfo, width: nat) -> Seq<Seq<char>> {
    header_rows(info, width) + summary_rows(info, width) + format_rows(info, width) + audio_rows(
        info,
        width,
    ) + tags_rows(info, width) + ixml_rows(info, width) + bext_rows(info, width) + tech_rows(
        info,
        width,
    ) + loudness_rows(width)
}

/// The first frame: the metadata rows, then the WAVEFORM section and the
/// bottom border.
pub open spec fn first_frame_spec(info: AudioInfo, raw: Seq<u8>, width: nat, height: nat) -> Seq<
    Seq<char>,
> {
    metadata_rows(info, width) + wave_rows(raw, width, height)
}

/// Metadata is shown even if the waveform cannot be generated: for every
/// input the metadata rows come first, unchanged whatever audio there is,
/// and where there is no audio, no room or too few samples the waveform
/// section holds a note in place of the drawing.
pub proof fn lemma_metadata_without_audio(
    info: AudioInfo,
    raw: Seq<u8>,
    width: nat,
    height: nat,
)
    ensures
        first_frame_spec(info, raw, width, height).take(metadata_rows(info, width).len() as int)
            == metadata_rows(info, width),
        first_frame_spec(info, raw, width, height).skip(metadata_rows(info, width).len() as int)
            == wave_rows(raw, width, height),
        raw.len() < 4 ==> wave_rows(raw, width, height) == seq![
            section_border_spec(title_spec(grey_seq(), "WAVEFORM"@), width),
            wave_row_spec("(no audio data)"@),
            bottom_border_spec(width),
        ],
        raw.len() >= 4 && width <= 2 ==> wave_rows(raw, width, height) == seq![
            section_border_spec(title_spec(purple_seq(), "WAVEFORM"@), width),
            wave_row_spec("(no room)"@),
            bottom_border_spec(width),
        ],
        raw.len() >= 4 && width > 2 && !drawable(raw, sat_sub(width, 2)) ==> wave_rows(
            raw,
            width,
            height,
        ) == seq![
            section_border_spec(title_spec(purple_seq(), "WAVEFORM"@), width),
            wave_row_spec("(too short to draw)"@),
            bottom_border_spec(width),
        ],
{
    let m = metadata_rows(info, width);
    let wr = wave_rows(raw, width, height);
    assert((m + wr).take(m.len() as int) =~= m);
    assert((m + wr).skip(m.len() as int) =~= wr);
    let w = waveform_spec(raw, sat_sub(width, 2), height);
    if raw.len() < 4 {
        assert(Seq::new(w.len(), |i: int| wave_row_spec(w[i])) =~= seq![wave_row_spec("(no audio data)"@)]);
    } else if width <= 2 {
        assert(Seq::new(w.len(), |i: int| wave_row_spec(w[i])) =~= seq![wave_row_spec("(no room)"@)]);
    } else if !drawable(raw, sat_sub(width, 2)) {
        assert(Seq::new(w.len(), |i: int| wave_row_spec(w[i])) =~= seq![wave_row_spec("(too short to draw)"@)]);
    }
}

/// The file name is cut to leave room for the header's fixed parts
/// ("╭─ " and at least " ─╮"): with a plain file name and a box at least 8
/// columns wide, the header is exactly as wide as the box.
pub proof fn lemma_header_width(info: AudioInfo, width: nat)
    requires
        width >= 8,
        is_plain(info.filename@),
    ensures
        visible_len(header_rows(info, width)[0]) == width,
{
    lemma_codes_invisible();
    let name = trunc_spec(info.filename@, sat_sub(width, 7));
    assert(is_plain(name)) by {
        if info.filename@.len() > sat_sub(width, 7) {
            let t = info.filename@.take(sat_sub(sat_sub(width, 7), 1) as int);
            assert(name =~= t + seq!['\u{2026}']);
            assert forall|i: int| 0 <= i < name.len() implies name[i] != crate::text::esc() by {
                if i < t.len() {
                    assert(name[i] == info.filename@[i]);
                }
            }
        }
    }
    lemma_plain(name);
    let t = bold_seq() + name + reset_seq();
    lemma_visible_concat(bold_seq(), name);
    lemma_visible_concat(bold_seq() + name, reset_seq());
    lemma_top_border_width(t, width);
}

/// Fixed row order: the SUMMARY, FORMAT, AUDIO and LOUDNESS sections have
/// the same rows whichever values are present; missing ones show as N/A.
pub proof fn lemma_fixed_sections(info: AudioInfo, width: nat)
    ensures
        summary_rows(info, width).len() == 4,
        format_rows(info, width).len() == 3,
        audio_rows(info, width).len() == 3,
        loudness_rows(width).len() == 2,
        header_rows(info, width).len() == 1,
{
}

/// What the frame can be built for: the waveform's dot rows can be counted
/// in `usize`, and the derived numbers fit in 64 bits.  The box width and
/// the amount of audio are not limited: a waveform that cannot be drawn is
/// replaced by a note.
pub open spec fn frame_ok(info: AudioInfo, raw: Seq<u8>, width: nat, height: nat) -> bool {
    &&& renderable(raw, sat_sub(width, 2), height)
    &&& (byte_rate_spec(info) is Some ==> match (
        sample_rate_spec(info),
        u64_of(info.channels),
        bit_depth_spec(info),
    ) {
        (Some(sr), Some(ch), Some(bd)) => sr * ch * bd <= u64::MAX,
        _ => true,
    })
    &&& (is_wav_like_spec(info) && lookup_spec(info, keys1("time_reference"@)) is None ==> match tref_halves(info) {
        Some(p) => tref_sum(p.0, p.1) <= u64::MAX,
        None => true,
    })
}

// ─── Building the sections ──────────────────────────────────────────────────

fn push_row(out: &mut Vec<String>, row: String)
    ensures
        string_views(final(out)@) == string_views(old(out)@).push(row@),
{
    out.push(row);
    assert(string_views(out@) =~= string_views(old(out)@).push(row@));
}

fn push_rows(out: &mut Vec<String>, rows: &Vec<String>)
    ensures
        string_views(final(out)@) == string_views(old(out)@) + string_views(rows@),
{
    let mut i: usize = 0;
    while i < rows.len()
        invariant
            i <= rows@.len(),
            string_views(out@) == string_views(old(out)@) + string_views(rows@).take(i as int),
        decreases rows.len() - i,
    {
        let ghost before = string_views(out@);
        out.push(rows[i].clone());
        assert(string_views(out@) =~= before.push(rows@[i as int]@));
        assert(string_views(rows@).take(i + 1) =~= string_views(rows@).take(i as int).push(
            rows@[i as int]@,
        ));
        i = i + 1;
    }
    assert(string_views(rows@).take(rows@.len() as int) =~= string_views(rows@));
}

/// The name in `color`.
fn title(color: &str, name: &str) -> (r: String)
    ensures
        r@ == title_spec(color@, name@),
{
    let mut r = String::new();
    push_str(&mut r, color);
    push_str(&mut r, name);
    push_str(&mut r, reset());
    r
}

/// A grey message row.
fn note(msg: &str, width: usize) -> (r: String)
    ensures
        r@ == note_row(msg@, width as nat),
{
    meta_row(title(grey(), msg).as_str(), width)
}

/// Two values side by side with white values.
fn pair_row(l1: &str, v1: Option<&str>, l2: &str, v2: Option<&str>, width: usize) -> (r: String)
    ensures
        r@ == pair(l1@, opt_view(v1), l2@, opt_view(v2), width as nat),
{
    detail2_c_opt(l1, v1, white(), l2, v2, white(), width)
}

/// A number of bits per second shown in whole kilobits.
fn kbps_text(n: Option<u64>) -> (r: Option<String>)
    ensures
        r.deep_view() == kbps(
            match n {
                Some(v) => Some(v as nat),
                None => None,
            },
        ),
{
    match n {
        Some(b) => {
            let mut s = decimal(b / 1000);
            push_str(&mut s, " kbps");
            Some(s)
        },
        None => None,
    }
}

fn header_section(info: &AudioInfo, width: usize) -> (rows: Vec<String>)
    ensures
        string_views(rows@) == header_rows(*info, width as nat),
{
    let name = trunc(info.filename.as_str(), width.saturating_sub(7));
    let mut rows: Vec<String> = Vec::new();
    push_row(&mut rows, top_border(title(bold(), name.as_str()).as_str(), width));
    assert(string_views(rows@) =~= header_rows(*info, width as nat));
    rows
}

fn summary_section(info: &AudioInfo, width: usize) -> (rows: Vec<String>)
    ensures
        string_views(rows@) == summary_rows(*info, width as nat),
{
    let dur = match info.duration_secs {
        Some(t) => Some(fmt_duration_secs(t)),
        None => None,
    };
    let size = match info.file_size {
        Some(b) => Some(human_size(b)),
        None => None,
    };
    let br = kbps_text(parse_opt(scalar_str(&info.bit_rate), u64::MAX));
    let mut rows: Vec<String> = Vec::new();
    push_row(&mut rows, section_border(title(cyan(), "SUMMARY").as_str(), width));
    push_row(&mut rows, meta_row(kvc_opt("Duration", opt_str(&dur), white()).as_str(), width));
    push_row(&mut rows, meta_row(kvc_opt("Size", opt_str(&size), white()).as_str(), width));
    push_row(&mut rows, meta_row(kvc_opt("Overall BR", opt_str(&br), white()).as_str(), width));
    assert(string_views(rows@) =~= summary_rows(*info, width as nat));
    rows
}

/// The text of a field, or empty text.
fn str_or_empty(s: &Scalar) -> (r: &str)
    ensures
        r@ == text_or_empty(*s),
{
    match scalar_str(s) {
        Some(t) => t,
        None => {
            proof {
                reveal_strlit("");
            }
            ""
        },
    }
}

fn format_section(info: &AudioInfo, width: usize) -> (rows: Vec<String>)
    ensures
        string_views(rows@) == format_rows(*info, width as nat),
{
    let (encoding, endian) = derive_encoding(str_or_empty(&info.codec_name), str_or_empty(&info.sample_fmt));
    let mut rows: Vec<String> = Vec::new();
    push_row(&mut rows, section_border(title(yellow(), "FORMAT").as_str(), width));
    push_row(&mut rows, pair_row("Container", container(info), "Codec", codec(info), width));
    push_row(&mut rows, pair_row("Encoding", encoding, "Endianness", endian, width));
    assert(string_views(rows@) =~= format_rows(*info, width as nat));
    rows
}

fn audio_section(info: &AudioInfo, width: usize) -> (rows: Vec<String>)
    ensures
        string_views(rows@) == audio_rows(*info, width as nat),
{
    let ch_val = match scalar_u64(&info.channels) {
        Some(ch) => {
            let mut s = decimal(ch);
            match scalar_str(&info.channel_layout) {
                Some(l) => {
                    push_str(&mut s, " (");
                    push_str(&mut s, l);
                    push_str(&mut s, ")");
                },
                None => {},
            }
            Some(s)
        },
        None => None,
    };
    let sr_val = dec_suffix_opt(parse_opt(scalar_str(&info.sample_rate), u32::MAX as u64), " Hz");
    let bd_val = dec_suffix_opt(bit_depth(info), " bit");
    let br_val = kbps_text(parse_opt(scalar_str(&info.stream_bit_rate), u64::MAX));
    let mut rows: Vec<String> = Vec::new();
    push_row(&mut rows, section_border(title(blue(), "AUDIO").as_str(), width));
    push_row(&mut rows, pair_row("Channels", opt_str(&ch_val), "Sample Rate", opt_str(&sr_val), width));
    push_row(&mut rows, pair_row("Bit Depth", opt_str(&bd_val), "Bitrate", opt_str(&br_val), width));
    assert(string_views(rows@) =~= audio_rows(*info, width as nat));
    rows
}

/// Lookup under one key.
fn lookup1(info: &AudioInfo, a: &str) -> (r: Option<String>)
    ensures
        r.deep_view() == lookup_spec(*info, keys1(a@)),
{
    let k = [a];
    let r = lookup(info, &k);
    assert(keys_view(k@) =~= keys1(a@));
    r
}

/// Lookup under either of two keys.
fn lookup2(info: &AudioInfo, a: &str, b: &str) -> (r: Option<String>)
    ensures
        r.deep_view() == lookup_spec(*info, keys2(a@, b@)),
{
    let k = [a, b];
    let r = lookup(info, &k);
    assert(keys_view(k@) =~= keys2(a@, b@));
    r
}

/// Lookup under any of three keys.
fn lookup3(info: &AudioInfo, a: &str, b: &str, c: &str) -> (r: Option<String>)
    ensures
        r.deep_view() == lookup_spec(*info, keys3(a@, b@, c@)),
{
    let k = [a, b, c];
    let r = lookup(info, &k);
    assert(keys_view(k@) =~= keys3(a@, b@, c@));
    r
}

/// Lookup under any of four keys.
fn lookup4(info: &AudioInfo, a: &str, b: &str, c: &str, d: &str) -> (r: Option<String>)
    ensures
        r.deep_view() == lookup_spec(*info, keys4(a@, b@, c@, d@)),
{
    let k = [a, b, c, d];
    let r = lookup(info, &k);
    assert(keys_view(k@) =~= keys4(a@, b@, c@, d@));
    r
}

fn tags_section(info: &AudioInfo, width: usize) -> (rows: Vec<String>)
    ensures
        string_views(rows@) == tags_rows(*info, width as nat),
{
    let title_v = lookup2(info, "title", "inam");
    let artist = lookup3(info, "artist", "iart", "author");
    let album = lookup2(info, "album", "iprd");
    let track = lookup4(info, "track", "tracknumber", "track_number", "itrk");
    let year = lookup3(info, "date", "year", "icrd");
    let genre = lookup2(info, "genre", "ignr");
    let comment = lookup3(info, "comment", "description", "icmt");
    let encoder = lookup3(info, "encoder", "isft", "software");
    let has = is_filled_text(&title_v) || is_filled_text(&artist) || is_filled_text(&album)
        || is_filled_text(&track) || is_filled_text(&year) || is_filled_text(&genre)
        || is_filled_text(&comment) || is_filled_text(&encoder);
    let color = if has {
        magenta()
    } else {
        grey()
    };
    let mut rows: Vec<String> = Vec::new();
    push_row(&mut rows, section_border(title(color, "TAGS").as_str(), width));
    if has {
        push_row(&mut rows, pair_row("Title", opt_str(&title_v), "Artist", opt_str(&artist), width));
        push_row(&mut rows, pair_row("Album", opt_str(&album), "Track", opt_str(&track), width));
        push_row(&mut rows, pair_row("Year", opt_str(&year), "Genre", opt_str(&genre), width));
        match &comment {
            Some(cmt) => {
                let wrapped = detail2_leftwrap(
                    "Comment",
                    cmt.as_str(),
                    white(),
                    "Encoder",
                    opt_str(&encoder),
                    white(),
                    width,
                );
                push_rows(&mut rows, &wrapped);
            },
            None => {
                push_row(&mut rows, pair_row("Comment", None, "Encoder", opt_str(&encoder), width));
            },
        }
    } else {
        push_row(&mut rows, note("No tags present", width));
    }
    assert(string_views(rows@) =~= tags_rows(*info, width as nat));
    rows
}

/// "Unavailable for TYPE"
fn unavailable(info: &AudioInfo, width: usize) -> (r: String)
    ensures
        r@ == unavailable_row(*info, width as nat),
{
    let ft = file_type(info);
    let msg = with_suffix("Unavailable for ", ft.as_str());
    note(msg.as_str(), width)
}

/// Timecode rate with its flag in brackets, or whichever is present.
fn tc_rate(rate: &Option<String>, flag: &Option<String>) -> (r: Option<String>)
    ensures
        r.deep_view() == tc_rate_text(rate.deep_view(), flag.deep_view()),
{
    match (rate, flag) {
        (Some(r), Some(f)) => {
            let mut s = String::new();
            push_str(&mut s, r.as_str());
            push_str(&mut s, " (");
            push_str(&mut s, f.as_str());
            push_str(&mut s, ")");
            Some(s)
        },
        (Some(r), None) => Some(r.clone()),
        (None, Some(f)) => Some(f.clone()),
        _ => None,
    }
}

fn ixml_section(info: &AudioInfo, width: usize) -> (rows: Vec<String>)
    ensures
        string_views(rows@) == ixml_rows(*info, width as nat),
{
    let raw = lookup1(info, "ixml");
    let wav = is_wav_like(info);
    let filled = is_filled_text(&raw);
    let has = wav && filled;
    let color = if has {
        red()
    } else {
        grey()
    };
    let mut rows: Vec<String> = Vec::new();
    push_row(&mut rows, section_border(title(color, "iXML").as_str(), width));
    if wav {
        match &raw {
            Some(s) if filled => {
                let ix = parse_ixml(s.as_str());
                let tc = tc_rate(&ix.tc_rate, &ix.tc_flag);
                let sr = suffix_opt(&ix.speed_sample_rate, " Hz");
                push_row(&mut rows, pair_row("Project", opt_str(&ix.project), "Scene", opt_str(&ix.scene), width));
                push_row(&mut rows, pair_row("Take", opt_str(&ix.take), "Tape", opt_str(&ix.tape), width));
                push_row(&mut rows, pair_row("Note", opt_str(&ix.note), "Location", opt_str(&ix.location), width));
                push_row(&mut rows, pair_row("Timecode", opt_str(&ix.timecode), "TC Rate", opt_str(&tc), width));
                push_row(
                    &mut rows,
                    pair_row("iXML Version", opt_str(&ix.ixml_version), "Speed SR", opt_str(&sr), width),
                );
            },
            _ => {
                push_row(&mut rows, note("No iXML data", width));
            },
        }
    } else {
        push_row(&mut rows, unavailable(info, width));
    }
    assert(string_views(rows@) =~= ixml_rows(*info, width as nat));
    rows
}

/// Origination date and time, separated by a space, or whichever is present.
fn origination(d: &Option<String>, t: &Option<String>) -> (r: Option<String>)
    ensures
        r.deep_view() == origination_text(d.deep_view(), t.deep_view()),
{
    match (d, t) {
        (Some(a), Some(b)) => {
            let mut s = String::new();
            push_str(&mut s, a.as_str());
            push_str(&mut s, " ");
            push_str(&mut s, b.as_str());
            Some(s)
        },
        (Some(a), None) => Some(a.clone()),
        (None, Some(b)) => Some(b.clone()),
        _ => None,
    }
}

/// The time reference: given whole, or combined from its two halves.
fn time_reference(info: &AudioInfo) -> (r: Option<String>)
    requires
        lookup_spec(*info, keys1("time_reference"@)) is None ==> match tref_halves(*info) {
            Some(p) => tref_sum(p.0, p.1) <= u64::MAX,
            None => true,
        },
    ensures
        r.deep_view() == tref_spec(*info),
{
    match lookup1(info, "time_reference") {
        Some(t) => Some(t),
        None => {
            let low = lookup1(info, "time_reference_low");
            let high = lookup1(info, "time_reference_high");
            match (&low, &high) {
                (Some(l), Some(h)) => match (parse_uint(l.as_str(), u64::MAX), parse_uint(h.as_str(), u64::MAX)) {
                    (Some(lo), Some(hi)) => {
                        let shifted = hi << 32;
                        assert(shifted == (hi % 0x1_0000_0000) * 0x1_0000_0000) by (bit_vector)
                            requires
                                shifted == hi << 32,
                        ;
                        assert(((hi as nat) * 0x1_0000_0000) % 0x1_0000_0000_0000_0000 == ((hi as nat)
                            % 0x1_0000_0000) * 0x1_0000_0000) by (nonlinear_arith)
                            requires
                                hi < 0x1_0000_0000_0000_0000,
                        {
                            let q = (hi as nat) / 0x1_0000_0000;
                            let r = (hi as nat) % 0x1_0000_0000;
                            assert(hi as nat == q * 0x1_0000_0000 + r);
                            assert((hi as nat) * 0x1_0000_0000 == q * 0x1_0000_0000_0000_0000 + r * 0x1_0000_0000);
                            assert(r * 0x1_0000_0000 < 0x1_0000_0000_0000_0000);
                        }
                        Some(decimal(shifted + lo))
                    },
                    _ => None,
                },
                _ => None,
            }
        },
    }
}

#[verifier::rlimit(60)]
fn bext_section(info: &AudioInfo, width: usize) -> (rows: Vec<String>)
    requires
        is_wav_like_spec(*info) && lookup_spec(*info, keys1("time_reference"@)) is None ==> match tref_halves(*info) {
            Some(p) => tref_sum(p.0, p.1) <= u64::MAX,
            None => true,
        },
    ensures
        string_views(rows@) == bext_rows(*info, width as nat),
{
    let mut rows: Vec<String> = Vec::new();
    if !is_wav_like(info) {
        push_row(&mut rows, section_border(title(grey(), "BEXT").as_str(), width));
        push_row(&mut rows, unavailable(info, width));
        assert(string_views(rows@) =~= bext_rows(*info, width as nat));
        return rows;
    }
    let desc = lookup1(info, "description");
    let origin = lookup1(info, "originator");
    let origin_ref = lookup2(info, "originator_reference", "originator_ref");
    let odate = lookup1(info, "origination_date");
    let otime = lookup1(info, "origination_time");
    let umid = lookup1(info, "umid");
    let chist = lookup1(info, "coding_history");
    let tref = time_reference(info);
    let lv = lookup1(info, "loudness_value");
    let lra = lookup1(info, "loudness_range");
    let mtp = lookup1(info, "max_true_peak_level");
    let mst = lookup1(info, "max_short_term_loudness");
    let mm = lookup1(info, "max_momentary_loudness");
    let has = is_filled_text(&desc) || is_filled_text(&origin) || is_filled_text(&origin_ref)
        || is_filled_text(&odate) || is_filled_text(&otime) || is_filled_text(&tref)
        || is_filled_text(&umid) || is_filled_text(&chist) || is_filled_text(&lv) || is_filled_text(
        &lra,
    ) || is_filled_text(&mtp) || is_filled_text(&mst) || is_filled_text(&mm);
    let color = if has {
        green()
    } else {
        grey()
    };
    push_row(&mut rows, section_border(title(color, "BEXT").as_str(), width));
    if has {
        push_row(&mut rows, pair_row("Description", opt_str(&desc), "Originator", opt_str(&origin), width));
        let dt = origination(&odate, &otime);
        push_row(
            &mut rows,
            pair_row("Originator Ref", opt_str(&origin_ref), "Origination", opt_str(&dt), width),
        );
        let tref_disp = suffix_opt(&tref, " samples");
        push_row(&mut rows, pair_row("Time Reference", opt_str(&tref_disp), "UMID", opt_str(&umid), width));
        if lv.is_some() || lra.is_some() {
            let lv_disp = suffix_opt(&lv, " LUFS");
            let lra_disp = suffix_opt(&lra, " LU");
            push_row(
                &mut rows,
                pair_row("Loudness (LV)", opt_str(&lv_disp), "LRA", opt_str(&lra_disp), width),
            );
        }
        if mtp.is_some() || mst.is_some() || mm.is_some() {
            let mtp_disp = suffix_opt(&mtp, " dBTP");
            let right = match suffix_opt(&mst, " LUFS") {
                Some(x) => Some(x),
                None => suffix_opt(&mm, " LUFS"),
            };
            push_row(
                &mut rows,
                pair_row("Max True Peak", opt_str(&mtp_disp), "Max Short-term", opt_str(&right), width),
            );
        }
        match &chist {
            Some(h) => {
                let wrapped = detail_leftwrap("Coding History", h.as_str(), white(), width);
                push_rows(&mut rows, &wrapped);
            },
            None => {},
        }
    } else {
        push_row(&mut rows, note("No BEXT data", width));
    }
    assert(string_views(rows@) =~= bext_rows(*info, width as nat));
    rows
}

/// A field given as text, or as a number shown in decimal.
fn text_or_num(s: &Scalar) -> (r: Option<String>)
    ensures
        r.deep_view() == text_or_number(*s),
{
    match scalar_str(s) {
        Some(t) => Some(String::from_str(t)),
        None => match scalar_u64(s) {
            Some(n) => Some(decimal(n)),
            None => None,
        },
    }
}

#[verifier::rlimit(60)]
fn tech_section(info: &AudioInfo, width: usize) -> (rows: Vec<String>)
    requires
        byte_rate_spec(*info) is Some ==> match (
            sample_rate_spec(*info),
            u64_of(info.channels),
            bit_depth_spec(*info),
        ) {
            (Some(sr), Some(ch), Some(bd)) => sr * ch * bd <= u64::MAX,
            _ => true,
        },
    ensures
        string_views(rows@) == tech_rows(*info, width as nat),
{
    let ba = match scalar_u64(&info.block_align) {
        Some(n) => Some(n),
        None => parse_opt(scalar_str(&info.block_align), u64::MAX),
    };
    let br = match (
        parse_opt(scalar_str(&info.sample_rate), u32::MAX as u64),
        scalar_u64(&info.channels),
        bit_depth(info),
    ) {
        (Some(sr), Some(ch), Some(bd)) => {
            assert(sr * ch <= sr * ch * bd) by (nonlinear_arith)
                requires
                    bd >= 1,
            ;
            Some(sr * ch * bd / 8)
        },
        _ => None,
    };
    let tb = scalar_str(&info.time_base);
    let st = scalar_str(&info.start_time);
    let nbf = text_or_num(&info.nb_frames);
    let dts = text_or_num(&info.duration_ts);
    let sf = str_or_empty(&info.sample_fmt);
    let layout = scalar_str(&info.channel_layout);
    let has = ba.is_some() || br.is_some() || tb.is_some() || st.is_some() || nbf.is_some()
        || dts.is_some() || !sf.is_empty() || layout.is_some();
    let wav = is_wav_like(info);
    let color = if wav && has {
        white()
    } else {
        grey()
    };
    let mut rows: Vec<String> = Vec::new();
    push_row(&mut rows, section_border(title(color, "TECHNICAL").as_str(), width));
    if wav {
        if has {
            let ba_disp = dec_suffix_opt(ba, " bytes");
            let br_disp = dec_suffix_opt(br, " B/s");
            push_row(
                &mut rows,
                pair_row("Block Align", opt_str(&ba_disp), "Byte Rate", opt_str(&br_disp), width),
            );
            push_row(&mut rows, pair_row("Time Base", tb, "Start Time", st, width));
            push_row(&mut rows, pair_row("Frames", opt_str(&nbf), "Duration TS", opt_str(&dts), width));
            let sf_opt = if sf.is_empty() {
                None
            } else {
                Some(sf)
            };
            push_row(&mut rows, pair_row("Sample Format", sf_opt, "Layout", layout, width));
        } else {
            push_row(&mut rows, note("No technical data", width));
        }
    } else {
        push_row(&mut rows, unavailable(info, width));
    }
    assert(string_views(rows@) =~= tech_rows(*info, width as nat));
    rows
}

fn loudness_section(width: usize) -> (rows: Vec<String>)
    ensures
        string_views(rows@) == loudness_rows(width as nat),
{
    let mut rows: Vec<String> = Vec::new();
    push_row(&mut rows, section_border(title(orange(), "LOUDNESS").as_str(), width));
    let mut calc = String::new();
    push_str(&mut calc, grey());
    push_str(&mut calc, blink());
    push_str(&mut calc, "Calculating...");
    push_str(&mut calc, reset());
    push_row(&mut rows, meta_row(kv("Integrated LUFS", calc.as_str()).as_str(), width));
    assert(string_views(rows@) =~= loudness_rows(width as nat));
    rows
}

fn wave_section(raw: &[u8], width: usize, height: usize) -> (rows: Vec<String>)
    requires
        renderable(raw@, sat_sub(width as nat, 2), height as nat),
    ensures
        string_views(rows@) == wave_rows(raw@, width as nat, height as nat),
{
    let inner = width.saturating_sub(2);
    let color = if raw.len() >= 4 {
        purple()
    } else {
        grey()
    };
    let mut rows: Vec<String> = Vec::new();
    push_row(&mut rows, section_border(title(color, "WAVEFORM").as_str(), width));
    let wave = render_waveform(raw, inner, height);
    let ghost ws = string_views(wave@);
    let ghost head = string_views(rows@);
    let mut i: usize = 0;
    while i < wave.len()
        invariant
            ws == string_views(wave@),
            i <= wave@.len(),
            string_views(rows@) == head + Seq::new(i as nat, |j: int| wave_row_spec(ws[j])),
        decreases wave.len() - i,
    {
        let ghost before = string_views(rows@);
        push_row(&mut rows, wave_row(wave[i].as_str()));
        assert(string_views(rows@) =~= head + Seq::new((i + 1) as nat, |j: int| wave_row_spec(ws[j])));
        i = i + 1;
    }
    push_row(&mut rows, bottom_border(width));
    assert(string_views(rows@) =~= wave_rows(raw@, width as nat, height as nat));
    rows
}

/// The first frame of the preview: every section, with loudness still
/// being calculated.
pub fn first_frame(info: &AudioInfo, raw: &[u8], width: usize, height: usize) -> (rows: Vec<String>)
    requires
        frame_ok(*info, raw@, width as nat, height as nat),
    ensures
        string_views(rows@) == first_frame_spec(*info, raw@, width as nat, height as nat),
{
    let mut rows = header_section(info, width);
    push_rows(&mut rows, &summary_section(info, width));
    push_rows(&mut rows, &format_section(info, width));
    push_rows(&mut rows, &audio_section(info, width));
    push_rows(&mut rows, &tags_section(info, width));
    push_rows(&mut rows, &ixml_section(info, width));
    push_rows(&mut rows, &bext_section(info, width));
    push_rows(&mut rows, &tech_section(info, width));
    push_rows(&mut rows, &loudness_section(width));
    push_rows(&mut rows, &wave_section(raw, width, height));
    proof {
        reveal(metadata_rows);
    }
    assert(string_views(rows@) =~= first_frame_spec(*info, raw@, width as nat, height as nat));
    rows
}

/// First row at or after `k` that contains "LOUDNESS".
pub open spec fn loudness_index(frame: Seq<Seq<char>>, k: int) -> Option<int>
    decreases frame.len() - k,
{
    if k < 0 || k >= frame.len() {
        None
    } else if contains_spec(frame[k], "LOUDNESS"@) {
        Some(k)
    } else {
        loudness_index(frame, k + 1)
    }
}

/// The measured-loudness rows: the LOUDNESS title, orange where anything was
/// measured, and the integrated loudness (grey N/A when not measured).
pub open spec fn measured_rows(li: Option<Seq<char>>, lra: Option<Seq<char>>, width: nat) -> Seq<Seq<char>> {
    seq![
        section_border_spec(
            title_spec(
                if li is Some || lra is Some {
                    orange_seq()
                } else {
                    grey_seq()
                },
                "LOUDNESS"@,
            ),
            width,
        ),
        meta_row_spec(
            kvc_spec(
                "Integrated LUFS"@,
                match li {
                    Some(v) => v,
                    None => grey_seq() + "N/A"@ + reset_seq(),
                },
                white_seq(),
            ),
            width,
        ),
    ] + match lra {
        Some(v) => seq![meta_row_spec(kvc_spec("LRA"@, v, white_seq()), width)],
        None => seq![],
    }
}

/// The final frame: the first row containing "LOUDNESS" and the row after
/// it replaced by the measured-loudness rows; unchanged where no row
/// contains "LOUDNESS".
pub open spec fn final_frame_spec(
    frame: Seq<Seq<char>>,
    li: Option<Seq<char>>,
    lra: Option<Seq<char>>,
    width: nat,
) -> Seq<Seq<char>> {
    match loudness_index(frame, 0) {
        None => frame,
        Some(idx) => frame.take(idx) + measured_rows(li, lra, width) + frame.skip(idx + 2),
    }
}

/// Whether `s` contains `p`.
fn contains_str(s: &str, p: &str) -> (b: bool)
    ensures
        b == contains_spec(s@, p@),
{
    find_from(&chars_of(s), &chars_of(p), 0).is_some()
}

/// The preview with the measured loudness filled in: the LOUDNESS title
/// turns orange where a value was measured, the integrated loudness replaces
/// the placeholder (grey N/A when not measured), and a loudness-range row
/// follows when one was measured.
///
/// The LOUDNESS section is found as the first row containing "LOUDNESS", so
/// a file name, tag or other value holding that word earlier in the frame
/// makes that row, and the one after it, the ones replaced.
pub fn final_frame(
    frame: &Vec<String>,
    loud_i: &Option<String>,
    loud_lra: &Option<String>,
    width: usize,
) -> (rows: Vec<String>)
    requires
        loudness_index(string_views(frame@), 0) matches Some(idx) ==> idx + 1 < frame@.len(),
    ensures
        string_views(rows@) == final_frame_spec(
            string_views(frame@),
            loud_i.deep_view(),
            loud_lra.deep_view(),
            width as nat,
        ),
{
    let ghost fv = string_views(frame@);
    let n = frame.len();
    let mut idx: usize = 0;
    while idx < n && !contains_str(frame[idx].as_str(), "LOUDNESS")
        invariant
            n == frame@.len(),
            fv == string_views(frame@),
            idx <= n,
            loudness_index(fv, 0) == loudness_index(fv, idx as int),
        decreases n - idx,
    {
        idx = idx + 1;
    }
    if idx == n {
        let mut rows: Vec<String> = Vec::new();
        push_rows(&mut rows, frame);
        return rows;
    }
    let mut rows: Vec<String> = Vec::new();
    let mut j: usize = 0;
    while j < idx
        invariant
            j <= idx < n,
            n == frame@.len(),
            fv == string_views(frame@),
            string_views(rows@) == fv.take(j as int),
        decreases idx - j,
    {
        push_row(&mut rows, frame[j].clone());
        assert(fv.take(j + 1) =~= fv.take(j as int).push(fv[j as int]));
        j = j + 1;
    }
    let ghost head = string_views(rows@);
    let color = if loud_i.is_some() || loud_lra.is_some() {
        orange()
    } else {
        grey()
    };
    push_row(&mut rows, section_border(title(color, "LOUDNESS").as_str(), width));
    let value = match loud_i {
        Some(v) => v.clone(),
        None => {
            let mut na = String::new();
            push_str(&mut na, grey());
            push_str(&mut na, "N/A");
            push_str(&mut na, reset());
            na
        },
    };
    push_row(&mut rows, meta_row(kvc("Integrated LUFS", value.as_str(), white()).as_str(), width));
    match loud_lra {
        Some(v) => {
            push_row(&mut rows, meta_row(kvc("LRA", v.as_str(), white()).as_str(), width));
        },
        None => {},
    }
    assert(string_views(rows@) =~= head + measured_rows(loud_i.deep_view(), loud_lra.deep_view(), width as nat));
    let ghost mid = string_views(rows@);
    let mut k = idx + 2;
    assert(fv.skip(idx + 2).take(0) =~= Seq::<Seq<char>>::empty());
    while k < n
        invariant
            idx + 2 <= k <= n,
            n == frame@.len(),
            fv == string_views(frame@),
            string_views(rows@) == mid + fv.skip(idx + 2).take(k - idx - 2),
        decreases n - k,
    {
        push_row(&mut rows, frame[k].clone());
        assert(fv.skip(idx + 2).take(k - idx - 1) =~= fv.skip(idx + 2).take(k - idx - 2).push(fv[k as int]));
        k = k + 1;
    }
    assert(fv.skip(idx + 2).take(n - idx - 2) =~= fv.skip(idx + 2));
    rows
}

/// Filling in the loudness changes nothing outside the loudness rows: the
/// rows before the LOUDNESS title, and those after the placeholder row, are
/// kept in order.
pub proof fn lemma_final_frame_keeps_other_rows(
    frame: Seq<Seq<char>>,
    li: Option<Seq<char>>,
    lra: Option<Seq<char>>,
    width: nat,
)
    requires
        loudness_index(frame, 0) matches Some(idx) ==> idx + 1 < frame.len(),
    ensures
        loudness_index(frame, 0) matches Some(idx) ==> {
            let r = final_frame_spec(frame, li, lra, width);
            let m = measured_rows(li, lra, width).len();
            &&& r.len() == frame.len() + m - 2
            &&& forall|j: int| 0 <= j < idx ==> #[trigger] r[j] == frame[j]
            &&& forall|j: int| idx + 2 <= j < frame.len() ==> #[trigger] r[j + m - 2] == frame[j]
        },
        loudness_index(frame, 0) is None ==> final_frame_spec(frame, li, lra, width) == frame,
{
    if let Some(idx) = loudness_index(frame, 0) {
        lemma_loudness_index_bounds(frame, 0);
        let r = final_frame_spec(frame, li, lra, width);
        let m = measured_rows(li, lra, width);
        assert forall|j: int| idx + 2 <= j < frame.len() implies #[trigger] r[j + m.len() - 2] == frame[j] by {
            assert(r[j + m.len() - 2] == frame.skip(idx + 2)[j - idx - 2]);
        }
    }
}

/// A found index lies in the frame, at or after where the search started.
proof fn lemma_loudness_index_bounds(frame: Seq<Seq<char>>, k: int)
    ensures
        loudness_index(frame, k) matches Some(i) ==> k <= i < frame.len(),
    decreases frame.len() - k,
{
    if 0 <= k < frame.len() && !contains_spec(frame[k], "LOUDNESS"@) {
        lemma_loudness_index_bounds(frame, k + 1);
    }
}

// ─── Checks of the inputs ───────────────────────────────────────────────────

/// The low and high halves of the time reference, where both parse.
fn time_reference_halves(info: &AudioInfo) -> (r: Option<(u64, u64)>)
    ensures
        match r {
            Some(p) => tref_halves(*info) == Some((p.0 as nat, p.1 as nat)),
            None => tref_halves(*info) is None,
        },
{
    let low = lookup1(info, "time_reference_low");
    let high = lookup1(info, "time_reference_high");
    match (&low, &high) {
        (Some(l), Some(h)) => match (parse_uint(l.as_str(), u64::MAX), parse_uint(h.as_str(), u64::MAX)) {
            (Some(lo), Some(hi)) => Some((lo, hi)),
            _ => None,
        },
        _ => None,
    }
}

/// Whether the first frame can be built for these inputs (`frame_ok`).
pub fn frame_inputs_ok(info: &AudioInfo, raw: &[u8], width: usize, height: usize) -> (b: bool)
    ensures
        b == frame_ok(*info, raw@, width as nat, height as nat),
{
    let wave_ok = raw.len() < 4 || height <= usize::MAX / 4;
    let rate_ok = match (
        parse_opt(scalar_str(&info.sample_rate), u32::MAX as u64),
        scalar_u64(&info.channels),
        bit_depth(info),
    ) {
        (Some(sr), Some(ch), Some(bd)) => match sr.checked_mul(ch) {
            Some(p) => {
                let r = p.checked_mul(bd);
                r.is_some()
            },
            None => {
                assert(sr * ch * bd > u64::MAX) by (nonlinear_arith)
                    requires
                        sr * ch > u64::MAX,
                        bd >= 1,
                ;
                false
            },
        },
        _ => true,
    };
    let tref_ok = if is_wav_like(info) && lookup1(info, "time_reference").is_none() {
        match time_reference_halves(info) {
            Some((lo, hi)) => {
                let high = (hi % 0x1_0000_0000) * 0x1_0000_0000;
                assert(((hi as nat) * 0x1_0000_0000) % 0x1_0000_0000_0000_0000 == ((hi as nat)
                    % 0x1_0000_0000) * 0x1_0000_0000) by (nonlinear_arith)
                    requires
                        hi < 0x1_0000_0000_0000_0000,
                {
                    let q = (hi as nat) / 0x1_0000_0000;
                    let r = (hi as nat) % 0x1_0000_0000;
                    assert(hi as nat == q * 0x1_0000_0000 + r);
                    assert((hi as nat) * 0x1_0000_0000 == q * 0x1_0000_0000_0000_0000 + r * 0x1_0000_0000);
                    assert(r * 0x1_0000_0000 < 0x1_0000_0000_0000_0000);
                }
                high.checked_add(lo).is_some()
            },
            None => true,
        }
    } else {
        true
    };
    wave_ok && rate_ok && tref_ok
}

/// Whether a row after the first row holding "LOUDNESS" exists, as the
/// final frame needs.
pub fn final_frame_ok(frame: &Vec<String>) -> (b: bool)
    ensures
        b == (loudness_index(string_views(frame@), 0) matches Some(idx) ==> idx + 1 < frame@.len()),
{
    let ghost fv = string_views(frame@);
    let n = frame.len();
    let mut idx: usize = 0;
    while idx < n && !contains_str(frame[idx].as_str(), "LOUDNESS")
        invariant
            n == frame@.len(),
            fv == string_views(frame@),
            idx <= n,
            loudness_index(fv, 0) == loudness_index(fv, idx as int),
        decreases n - idx,
    {
        idx = idx + 1;
    }
    idx == n || idx + 1 < n
}

// ─── Laws on what the first frame shows ─────────────────────────────────────

proof fn lemma_contains_concat(a: Seq<Seq<char>>, b: Seq<Seq<char>>, x: Seq<char>)
    ensures
        a.contains(x) ==> (a + b).contains(x),
        b.contains(x) ==> (a + b).contains(x),
{
    if a.contains(x) {
        let i = choose|i: int| 0 <= i < a.len() && a[i] == x;
        assert((a + b)[i] == x);
    }
    if b.contains(x) {
        let i = choose|i: int| 0 <= i < b.len() && b[i] == x;
        assert((a + b)[a.len() + i] == x);
    }
}

/// Every row of the FORMAT, AUDIO, TAGS, iXML and BEXT sections is a row of
/// the first frame.
proof fn lemma_section_rows_in_frame(
    info: AudioInfo,
    raw: Seq<u8>,
    width: nat,
    height: nat,
    x: Seq<char>,
)
    requires
        format_rows(info, width).contains(x) || audio_rows(info, width).contains(x) || tags_rows(
            info,
            width,
        ).contains(x) || ixml_rows(info, width).contains(x) || bext_rows(info, width).contains(x),
    ensures
        first_frame_spec(info, raw, width, height).contains(x),
{
    reveal(metadata_rows);
    let s0 = header_rows(info, width) + summary_rows(info, width);
    let s1 = s0 + format_rows(info, width);
    let s2 = s1 + audio_rows(info, width);
    let s3 = s2 + tags_rows(info, width);
    let s4 = s3 + ixml_rows(info, width);
    let s5 = s4 + bext_rows(info, width);
    let s6 = s5 + tech_rows(info, width);
    let s7 = s6 + loudness_rows(width);
    lemma_contains_concat(s0, format_rows(info, width), x);
    lemma_contains_concat(s1, audio_rows(info, width), x);
    lemma_contains_concat(s2, tags_rows(info, width), x);
    lemma_contains_concat(s3, ixml_rows(info, width), x);
    lemma_contains_concat(s4, bext_rows(info, width), x);
    lemma_contains_concat(s5, tech_rows(info, width), x);
    lemma_contains_concat(s6, loudness_rows(width), x);
    lemma_contains_concat(s7, wave_rows(raw, width, height), x);
    assert(metadata_rows(info, width) == s7);
}

/// The BEXT origination of a WAV-like file shows the date and the time: with
/// a non-empty origination date `d` and an origination time `t`, the first
/// frame holds an "Origination" cell with `d + " " + t`; with the date
/// alone, with `d`.
#[verifier::spinoff_prover]
#[verifier::rlimit(40)]
pub proof fn lemma_origination_shown(
    info: AudioInfo,
    raw: Seq<u8>,
    width: nat,
    height: nat,
    d: Seq<char>,
    t: Seq<char>,
)
    requires
        is_wav_like_spec(info),
        lookup_spec(info, seq!["origination_date"@]) == Some(d),
        d.len() > 0,
    ensures
        lookup_spec(info, seq!["origination_time"@]) == Some(t) ==> exists|r: Option<Seq<char>>|
            #[trigger] first_frame_spec(info, raw, width, height).contains(
                pair("Originator Ref"@, r, "Origination"@, Some(d + " "@ + t), width),
            ),
        lookup_spec(info, seq!["origination_time"@]) is None ==> exists|r: Option<Seq<char>>|
            #[trigger] first_frame_spec(info, raw, width, height).contains(
                pair("Originator Ref"@, r, "Origination"@, Some(d), width),
            ),
{
    assert(keys1("origination_date"@) == seq!["origination_date"@]);
    assert(keys1("origination_time"@) == seq!["origination_time"@]);
    let r = lookup_spec(info, keys2("originator_reference"@, "originator_ref"@));
    let b = bext_rows(info, width);
    let row = b[2];
    assert(b.contains(row));
    lemma_section_rows_in_frame(info, raw, width, height, row);
}

/// The iXML TC Rate of a WAV-like file starts with the timecode rate: with
/// a rate `r` and a flag `f` it is `r + " (" + f + ")"`, with the rate
/// alone it is `r`.
#[verifier::spinoff_prover]
#[verifier::rlimit(40)]
pub proof fn lemma_tc_rate_shown(
    info: AudioInfo,
    raw: Seq<u8>,
    width: nat,
    height: nat,
    x: Seq<char>,
    r: Seq<char>,
)
    requires
        is_wav_like_spec(info),
        lookup_spec(info, seq!["ixml"@]) == Some(x),
        x.len() > 0,
        xml_get_spec(x, "TIMECODE_RATE"@) == Some(r),
    ensures
        xml_get_spec(x, "TIMECODE_FLAG"@) matches Some(f) ==> exists|tc: Option<Seq<char>>|
            #[trigger] first_frame_spec(info, raw, width, height).contains(
                pair("Timecode"@, tc, "TC Rate"@, Some(r + " ("@ + f + ")"@), width),
            ),
        xml_get_spec(x, "TIMECODE_FLAG"@) is None ==> exists|tc: Option<Seq<char>>|
            #[trigger] first_frame_spec(info, raw, width, height).contains(
                pair("Timecode"@, tc, "TC Rate"@, Some(r), width),
            ),
{
    assert(keys1("ixml"@) == seq!["ixml"@]);
    let tc = xml_get_spec(x, "TIMECODE"@);
    let rows = ixml_rows(info, width);
    let row = rows[4];
    assert(rows.contains(row));
    lemma_section_rows_in_frame(info, raw, width, height, row);
}

/// The TAGS Year is the first text tag named "date", "year" or "icrd"
/// (ignoring ASCII case; container tags before stream tags): where that is
/// a non-empty `y`, the first frame holds a "Year" cell with `y`.
#[verifier::spinoff_prover]
#[verifier::rlimit(40)]
pub proof fn lemma_year_shown(info: AudioInfo, raw: Seq<u8>, width: nat, height: nat, y: Seq<char>)
    requires
        lookup_spec(info, seq!["date"@, "year"@, "icrd"@]) == Some(y),
        y.len() > 0,
    ensures
        exists|g: Option<Seq<char>>| #[trigger] first_frame_spec(info, raw, width, height).contains(
            pair("Year"@, Some(y), "Genre"@, g, width),
        ),
{
    assert(keys3("date"@, "year"@, "icrd"@) == seq!["date"@, "year"@, "icrd"@]);
    let g = lookup_spec(info, keys2("genre"@, "ignr"@));
    let rows = tags_rows(info, width);
    let row = rows[3];
    assert(rows.contains(row));
    lemma_section_rows_in_frame(info, raw, width, height, row);
}

/// The AUDIO Channels value is there whenever the channel count is known:
/// the count in decimal, followed by the layout in brackets where there is
/// one; N/A only where the count is missing.
#[verifier::spinoff_prover]
#[verifier::rlimit(40)]
pub proof fn lemma_channels_shown(info: AudioInfo, raw: Seq<u8>, width: nat, height: nat)
    ensures
        u64_of(info.channels) matches Some(ch) ==> (text_of(info.channel_layout) is None ==> exists|
            sr: Option<Seq<char>>,
        |
            #[trigger] first_frame_spec(info, raw, width, height).contains(
                pair("Channels"@, Some(dec(ch as nat)), "Sample Rate"@, sr, width),
            )),
        u64_of(info.channels) matches Some(ch) ==> (text_of(info.channel_layout) matches Some(l)
            ==> exists|sr: Option<Seq<char>>|
            #[trigger] first_frame_spec(info, raw, width, height).contains(
                pair("Channels"@, Some(dec(ch as nat) + " ("@ + l + ")"@), "Sample Rate"@, sr, width),
            )),
        u64_of(info.channels) is None ==> exists|sr: Option<Seq<char>>|
            #[trigger] first_frame_spec(info, raw, width, height).contains(
                pair("Channels"@, None, "Sample Rate"@, sr, width),
            ),
{
    let sr = dec_suffixed(sample_rate_spec(info), " Hz"@);
    let rows = audio_rows(info, width);
    let row = rows[1];
    assert(rows.contains(row));
    lemma_section_rows_in_frame(info, raw, width, height, row);
}

/// The FORMAT section shows the container (its long name, else its short
/// name), the codec (likewise), and the encoding and endianness derived
/// from the codec name and sample format.
#[verifier::spinoff_prover]
#[verifier::rlimit(40)]
pub proof fn lemma_format_cells_shown(info: AudioInfo, raw: Seq<u8>, width: nat, height: nat)
    ensures
        ({
            let ff = first_frame_spec(info, raw, width, height);
            let codec_name = match text_of(info.codec_name) {
                Some(c) => c,
                None => Seq::empty(),
            };
            let fmt = match text_of(info.sample_fmt) {
                Some(f) => f,
                None => Seq::empty(),
            };
            let enc = derive_encoding_spec(codec_name, fmt);
            &&& ff.contains(
                pair(
                    "Container"@,
                    or_else(text_of(info.format_long_name), text_of(info.format_name)),
                    "Codec"@,
                    or_else(text_of(info.codec_long_name), text_of(info.codec_name)),
                    width,
                ),
            )
            &&& ff.contains(pair("Encoding"@, enc.0, "Endianness"@, enc.1, width))
        }),
{
    let rows = format_rows(info, width);
    assert(rows.contains(rows[1]));
    assert(rows.contains(rows[2]));
    lemma_section_rows_in_frame(info, raw, width, height, rows[1]);
    lemma_section_rows_in_frame(info, raw, width, height, rows[2]);
}

/// The AUDIO section shows the channel count (with the layout in brackets
/// where there is one), the sample rate in Hz, the bit depth in bits (where
/// it is positive) and the stream's bit rate in whole kilobits.
#[verifier::spinoff_prover]
#[verifier::rlimit(40)]
pub proof fn lemma_audio_cells_shown(info: AudioInfo, raw: Seq<u8>, width: nat, height: nat)
    ensures
        ({
            let ff = first_frame_spec(info, raw, width, height);
            let sr = match parsed(text_of(info.sample_rate), u32::MAX as nat) {
                Some(v) => Some(dec(v) + " Hz"@),
                None => None,
            };
            let bd = match u64_of(info.bits_per_sample) {
                Some(b) => if b > 0 {
                    Some(dec(b as nat) + " bit"@)
                } else {
                    None
                },
                None => None,
            };
            let br = match parsed(text_of(info.stream_bit_rate), u64::MAX as nat) {
                Some(v) => Some(dec(v / 1000) + " kbps"@),
                None => None,
            };
            let ch = match u64_of(info.channels) {
                Some(c) => Some(
                    match text_of(info.channel_layout) {
                        Some(l) => dec(c as nat) + " ("@ + l + ")"@,
                        None => dec(c as nat),
                    },
                ),
                None => None,
            };
            &&& ff.contains(pair("Channels"@, ch, "Sample Rate"@, sr, width))
            &&& ff.contains(pair("Bit Depth"@, bd, "Bitrate"@, br, width))
        }),
{
    let rows = audio_rows(info, width);
    assert(rows.contains(rows[1]));
    assert(rows.contains(rows[2]));
    lemma_section_rows_in_frame(info, raw, width, height, rows[1]);
    lemma_section_rows_in_frame(info, raw, width, height, rows[2]);
    let ch = channels_text(info);
    let ff = first_frame_spec(info, raw, width, height);
    let sr = match parsed(text_of(info.sample_rate), u32::MAX as nat) {
        Some(v) => Some(dec(v) + " Hz"@),
        None => None,
    };
    let bd = match u64_of(info.bits_per_sample) {
        Some(b) => if b > 0 {
            Some(dec(b as nat) + " bit"@)
        } else {
            None
        },
        None => None,
    };
    let br = match parsed(text_of(info.stream_bit_rate), u64::MAX as nat) {
        Some(v) => Some(dec(v / 1000) + " kbps"@),
        None => None,
    };
    assert(sr == dec_suffixed(sample_rate_spec(info), " Hz"@));
    assert(rows[1] == pair("Channels"@, ch, "Sample Rate"@, sr, width));
    assert(rows[2] == pair("Bit Depth"@, bd, "Bitrate"@, br, width));
    assert(ff.contains(pair("Channels"@, ch, "Sample Rate"@, sr, width)));
}

/// Where any tag is present, the TAGS section shows title, artist, album,
/// track, year and genre, each the first text tag under its names
/// (ignoring ASCII case; container tags before stream tags).
#[verifier::spinoff_prover]
#[verifier::rlimit(40)]
pub proof fn lemma_tag_cells_shown(info: AudioInfo, raw: Seq<u8>, width: nat, height: nat)
    requires
        filled_text(lookup_spec(info, seq!["title"@, "inam"@])) || filled_text(
            lookup_spec(info, seq!["artist"@, "iart"@, "author"@]),
        ) || filled_text(lookup_spec(info, seq!["album"@, "iprd"@])),
    ensures
        ({
            let ff = first_frame_spec(info, raw, width, height);
            &&& ff.contains(
                pair(
                    "Title"@,
                    lookup_spec(info, seq!["title"@, "inam"@]),
                    "Artist"@,
                    lookup_spec(info, seq!["artist"@, "iart"@, "author"@]),
                    width,
                ),
            )
            &&& ff.contains(
                pair(
                    "Album"@,
                    lookup_spec(info, seq!["album"@, "iprd"@]),
                    "Track"@,
                    lookup_spec(info, seq!["track"@, "tracknumber"@, "track_number"@, "itrk"@]),
                    width,
                ),
            )
            &&& ff.contains(
                pair(
                    "Year"@,
                    lookup_spec(info, seq!["date"@, "year"@, "icrd"@]),
                    "Genre"@,
                    lookup_spec(info, seq!["genre"@, "ignr"@]),
                    width,
                ),
            )
        }),
{
    assert(keys2("title"@, "inam"@) == seq!["title"@, "inam"@]);
    assert(keys3("artist"@, "iart"@, "author"@) == seq!["artist"@, "iart"@, "author"@]);
    assert(keys2("album"@, "iprd"@) == seq!["album"@, "iprd"@]);
    assert(keys4("track"@, "tracknumber"@, "track_number"@, "itrk"@) == seq![
        "track"@,
        "tracknumber"@,
        "track_number"@,
        "itrk"@,
    ]);
    assert(keys3("date"@, "year"@, "icrd"@) == seq!["date"@, "year"@, "icrd"@]);
    assert(keys2("genre"@, "ignr"@) == seq!["genre"@, "ignr"@]);
    let rows = tags_rows(info, width);
    assert(rows.contains(rows[1]));
    assert(rows.contains(rows[2]));
    assert(rows.contains(rows[3]));
    lemma_section_rows_in_frame(info, raw, width, height, rows[1]);
    lemma_section_rows_in_frame(info, raw, width, height, rows[2]);
    lemma_section_rows_in_frame(info, raw, width, height, rows[3]);
}

/// The iXML section of a WAV-like file with iXML data shows project, scene,
/// take, tape, note, location, timecode, iXML version and the speed sample
/// rate in Hz, each the text of its element.
#[verifier::spinoff_prover]
#[verifier::rlimit(40)]
pub proof fn lemma_ixml_cells_shown(
    info: AudioInfo,
    raw: Seq<u8>,
    width: nat,
    height: nat,
    x: Seq<char>,
)
    requires
        is_wav_like_spec(info),
        lookup_spec(info, seq!["ixml"@]) == Some(x),
        x.len() > 0,
    ensures
        ({
            let ff = first_frame_spec(info, raw, width, height);
            let sr = match xml_get_spec(x, "SAMPLE_RATE"@) {
                Some(v) => Some(v + " Hz"@),
                None => None,
            };
            &&& ff.contains(
                pair("Project"@, xml_get_spec(x, "PROJECT"@), "Scene"@, xml_get_spec(x, "SCENE"@), width),
            )
            &&& ff.contains(
                pair("Take"@, xml_get_spec(x, "TAKE"@), "Tape"@, xml_get_spec(x, "TAPE"@), width),
            )
            &&& ff.contains(
                pair(
                    "Note"@,
                    xml_get_spec(x, "NOTE"@),
                    "Location"@,
                    xml_get_spec(x, "LOCATION"@),
                    width,
                ),
            )
            &&& exists|tc: Option<Seq<char>>| #[trigger] ff.contains(
                pair("Timecode"@, xml_get_spec(x, "TIMECODE"@), "TC Rate"@, tc, width),
            )
            &&& ff.contains(
                pair("iXML Version"@, xml_get_spec(x, "IXML_VERSION"@), "Speed SR"@, sr, width),
            )
        }),
{
    assert(keys1("ixml"@) == seq!["ixml"@]);
    let rows = ixml_rows(info, width);
    assert(rows.contains(rows[1]));
    assert(rows.contains(rows[2]));
    assert(rows.contains(rows[3]));
    assert(rows.contains(rows[4]));
    assert(rows.contains(rows[5]));
    lemma_section_rows_in_frame(info, raw, width, height, rows[1]);
    lemma_section_rows_in_frame(info, raw, width, height, rows[2]);
    lemma_section_rows_in_frame(info, raw, width, height, rows[3]);
    lemma_section_rows_in_frame(info, raw, width, height, rows[4]);
    lemma_section_rows_in_frame(info, raw, width, height, rows[5]);
}

/// The BEXT section of a WAV-like file with a description or an originator
/// shows both, then the originator reference and the origination: date and
/// time separated by a space, or whichever of them is present.
#[verifier::spinoff_prover]
#[verifier::rlimit(40)]
pub proof fn lemma_bext_cells_shown(info: AudioInfo, raw: Seq<u8>, width: nat, height: nat)
    requires
        is_wav_like_spec(info),
        filled_text(lookup_spec(info, seq!["description"@])) || filled_text(
            lookup_spec(info, seq!["originator"@]),
        ),
    ensures
        ({
            let ff = first_frame_spec(info, raw, width, height);
            &&& ff.contains(
                pair(
                    "Description"@,
                    lookup_spec(info, seq!["description"@]),
                    "Originator"@,
                    lookup_spec(info, seq!["originator"@]),
                    width,
                ),
            )
            &&& ff.contains(
                pair(
                    "Originator Ref"@,
                    lookup_spec(info, seq!["originator_reference"@, "originator_ref"@]),
                    "Origination"@,
                    match (
                        lookup_spec(info, seq!["origination_date"@]),
                        lookup_spec(info, seq!["origination_time"@]),
                    ) {
                        (Some(d), Some(t)) => Some(d + " "@ + t),
                        (Some(d), None) => Some(d),
                        (None, Some(t)) => Some(t),
                        (None, None) => None,
                    },
                    width,
                ),
            )
        }),
{
    assert(keys1("description"@) == seq!["description"@]);
    assert(keys1("originator"@) == seq!["originator"@]);
    assert(keys2("originator_reference"@, "originator_ref"@) == seq![
        "originator_reference"@,
        "originator_ref"@,
    ]);
    assert(keys1("origination_date"@) == seq!["origination_date"@]);
    assert(keys1("origination_time"@) == seq!["origination_time"@]);
    let rows = bext_rows(info, width);
    assert(rows.contains(rows[1]));
    assert(rows.contains(rows[2]));
    lemma_section_rows_in_frame(info, raw, width, height, rows[1]);
    lemma_section_rows_in_frame(info, raw, width, height, rows[2]);
}

} // verus!

//! Encoding and byte order named after the codec and sample format.
use vstd::prelude::*;
use crate::text::{has_prefix, has_suffix, starts_with, ends_with, str_eq};
use crate::fields::opt_view;

verus! {

/// The display name of a non-PCM codec, where it is one the preview knows.
pub open spec fn codec_name_spec(codec: Seq<char>) -> Option<Seq<char>> {
    if codec == "mp3"@ {
        Some("MP3"@)
    } else if codec == "aac"@ {
        Some("AAC"@)
    } else if codec == "flac"@ {
        Some("FLAC"@)
    } else if codec == "alac"@ {
        Some("ALAC"@)
    } else if codec == "opus"@ {
        Some("Opus"@)
    } else if codec == "vorbis"@ {
        Some("Vorbis"@)
    } else if codec == "ac3"@ {
        Some("AC-3"@)
    } else if codec == "eac3"@ {
        Some("E-AC-3"@)
    } else if codec == "dts"@ {
        Some("DTS"@)
    } else {
        None
    }
}

/// Encoding and endianness: PCM codecs (`pcm_*`) are "PCM", little- or
/// big-endian after an `le`/`be` suffix of the codec or the sample format
/// (the codec's `le` first); known compressed codecs get their display name
/// and no endianness; anything else gives neither.
pub open spec fn derive_encoding_spec(codec: Seq<char>, fmt: Seq<char>) -> (
    Option<Seq<char>>,
    Option<Seq<char>>,
) {
    if has_prefix(codec, "pcm_"@) {
        let end = if has_suffix(codec, "le"@) || has_suffix(fmt, "le"@) {
            Some("little-endian"@)
        } else if has_suffix(codec, "be"@) || has_suffix(fmt, "be"@) {
            Some("big-endian"@)
        } else {
            None
        };
        (Some("PCM"@), end)
    } else {
        (codec_name_spec(codec), None)
    }
}

pub fn derive_encoding(codec: &str, fmt: &str) -> (r: (Option<&'static str>, Option<&'static str>))
    ensures
        (opt_view(r.0), opt_view(r.1)) == derive_encoding_spec(codec@, fmt@),
{
    if starts_with(codec, "pcm_") {
        let end = if ends_with(codec, "le") || ends_with(fmt, "le") {
            Some("little-endian")
        } else if ends_with(codec, "be") || ends_with(fmt, "be") {
            Some("big-endian")
        } else {
            None
        };
        (Some("PCM"), end)
    } else {
        let enc = if str_eq(codec, "mp3") {
            "MP3"
        } else if str_eq(codec, "aac") {
            "AAC"
        } else if str_eq(codec, "flac") {
            "FLAC"
        } else if str_eq(codec, "alac") {
            "ALAC"
        } else if str_eq(codec, "opus") {
            "Opus"
        } else if str_eq(codec, "vorbis") {
            "Vorbis"
        } else if str_eq(codec, "ac3") {
            "AC-3"
        } else if str_eq(codec, "eac3") {
            "E-AC-3"
        } else if str_eq(codec, "dts") {
            "DTS"
        } else {
            return (None, None);
        };
        (Some(enc), None)
    }
}

/// Every compressed codec the preview knows is shown by its display name,
/// whatever the sample format, and with no endianness: mp3 as MP3, aac as
/// AAC, flac as FLAC, alac as ALAC, opus as Opus, vorbis as Vorbis, ac3 as
/// AC-3, eac3 as E-AC-3 and dts as DTS.
pub proof fn lemma_known_codec_names(fmt: Seq<char>)
    ensures
        derive_encoding_spec("mp3"@, fmt) == (Some("MP3"@), None::<Seq<char>>),
        derive_encoding_spec("aac"@, fmt) == (Some("AAC"@), None::<Seq<char>>),
        derive_encoding_spec("flac"@, fmt) == (Some("FLAC"@), None::<Seq<char>>),
        derive_encoding_spec("alac"@, fmt) == (Some("ALAC"@), None::<Seq<char>>),
        derive_encoding_spec("opus"@, fmt) == (Some("Opus"@), None::<Seq<char>>),
        derive_encoding_spec("vorbis"@, fmt) == (Some("Vorbis"@), None::<Seq<char>>),
        derive_encoding_spec("ac3"@, fmt) == (Some("AC-3"@), None::<Seq<char>>),
        derive_encoding_spec("eac3"@, fmt) == (Some("E-AC-3"@), None::<Seq<char>>),
        derive_encoding_spec("dts"@, fmt) == (Some("DTS"@), None::<Seq<char>>),
{
    reveal_strlit("pcm_");
    reveal_strlit("mp3");
    reveal_strlit("MP3");
    reveal_strlit("aac");
    reveal_strlit("AAC");
    reveal_strlit("flac");
    reveal_strlit("FLAC");
    reveal_strlit("alac");
    reveal_strlit("ALAC");
    reveal_strlit("opus");
    reveal_strlit("Opus");
    reveal_strlit("vorbis");
    reveal_strlit("Vorbis");
    reveal_strlit("ac3");
    reveal_strlit("AC-3");
    reveal_strlit("eac3");
    reveal_strlit("E-AC-3");
    reveal_strlit("dts");
    reveal_strlit("DTS");
    assert(!has_prefix("mp3"@, "pcm_"@));
    assert(!has_prefix("aac"@, "pcm_"@));
    assert("aac"@ != "mp3"@) by {
        assert("aac"@[0] != "mp3"@[0]);
    }
    assert(!has_prefix("flac"@, "pcm_"@)) by {
        assert("flac"@.take(4)[0] != "pcm_"@[0]);
    }
    assert("flac"@ != "mp3"@) by {
        assert("flac"@.len() != "mp3"@.len());
    }
    assert("flac"@ != "aac"@) by {
        assert("flac"@.len() != "aac"@.len());
    }
    assert(!has_prefix("alac"@, "pcm_"@)) by {
        assert("alac"@.take(4)[0] != "pcm_"@[0]);
    }
    assert("alac"@ != "mp3"@) by {
        assert("alac"@.len() != "mp3"@.len());
    }
    assert("alac"@ != "aac"@) by {
        assert("alac"@.len() != "aac"@.len());
    }
    assert("alac"@ != "flac"@) by {
        assert("alac"@[0] != "flac"@[0]);
    }
    assert(!has_prefix("opus"@, "pcm_"@)) by {
        assert("opus"@.take(4)[0] != "pcm_"@[0]);
    }
    assert("opus"@ != "mp3"@) by {
        assert("opus"@.len() != "mp3"@.len());
    }
    assert("opus"@ != "aac"@) by {
        assert("opus"@.len() != "aac"@.len());
    }
    assert("opus"@ != "flac"@) by {
        assert("opus"@[0] != "flac"@[0]);
    }
    assert("opus"@ != "alac"@) by {
        assert("opus"@[0] != "alac"@[0]);
    }
    assert(!has_prefix("vorbis"@, "pcm_"@)) by {
        assert("vorbis"@.take(4)[0] != "pcm_"@[0]);
    }
    assert("vorbis"@ != "mp3"@) by {
        assert("vorbis"@.len() != "mp3"@.len());
    }
    assert("vorbis"@ != "aac"@) by {
        assert("vorbis"@.len() != "aac"@.len());
    }
    assert("vorbis"@ != "flac"@) by {
        assert("vorbis"@.len() != "flac"@.len());
    }
    assert("vorbis"@ != "alac"@) by {
        assert("vorbis"@.len() != "alac"@.len());
    }
    assert("vorbis"@ != "opus"@) by {
        assert("vorbis"@.len() != "opus"@.len());
    }
    assert(!has_prefix("ac3"@, "pcm_"@));
    assert("ac3"@ != "mp3"@) by {
        assert("ac3"@[0] != "mp3"@[0]);
    }
    assert("ac3"@ != "aac"@) by {
        assert("ac3"@[1] != "aac"@[1]);
    }
    assert("ac3"@ != "flac"@) by {
        assert("ac3"@.len() != "flac"@.len());
    }
    assert("ac3"@ != "alac"@) by {
        assert("ac3"@.len() != "alac"@.len());
    }
    assert("ac3"@ != "opus"@) by {
        assert("ac3"@.len() != "opus"@.len());
    }
    assert("ac3"@ != "vorbis"@) by {
        assert("ac3"@.len() != "vorbis"@.len());
    }
    assert(!has_prefix("eac3"@, "pcm_"@)) by {
        assert("eac3"@.take(4)[0] != "pcm_"@[0]);
    }
    assert("eac3"@ != "mp3"@) by {
        assert("eac3"@.len() != "mp3"@.len());
    }
    assert("eac3"@ != "aac"@) by {
        assert("eac3"@.len() != "aac"@.len());
    }
    assert("eac3"@ != "flac"@) by {
        assert("eac3"@[0] != "flac"@[0]);
    }
    assert("eac3"@ != "alac"@) by {
        assert("eac3"@[0] != "alac"@[0]);
    }
    assert("eac3"@ != "opus"@) by {
        assert("eac3"@[0] != "opus"@[0]);
    }
    assert("eac3"@ != "vorbis"@) by {
        assert("eac3"@.len() != "vorbis"@.len());
    }
    assert("eac3"@ != "ac3"@) by {
        assert("eac3"@.len() != "ac3"@.len());
    }
    assert(!has_prefix("dts"@, "pcm_"@));
    assert("dts"@ != "mp3"@) by {
        assert("dts"@[0] != "mp3"@[0]);
    }
    assert("dts"@ != "aac"@) by {
        assert("dts"@[0] != "aac"@[0]);
    }
    assert("dts"@ != "flac"@) by {
        assert("dts"@.len() != "flac"@.len());
    }
    assert("dts"@ != "alac"@) by {
        assert("dts"@.len() != "alac"@.len());
    }
    assert("dts"@ != "opus"@) by {
        assert("dts"@.len() != "opus"@.len());
    }
    assert("dts"@ != "vorbis"@) by {
        assert("dts"@.len() != "vorbis"@.len());
    }
    assert("dts"@ != "ac3"@) by {
        assert("dts"@[0] != "ac3"@[0]);
    }
    assert("dts"@ != "eac3"@) by {
        assert("dts"@.len() != "eac3"@.len());
    }
}

/// A PCM codec is always shown as PCM.
pub proof fn lemma_pcm_is_pcm(codec: Seq<char>, fmt: Seq<char>)
    requires
        codec.len() >= 4 && codec[0] == 'p' && codec[1] == 'c' && codec[2] == 'm' && codec[3] == '_',
    ensures
        derive_encoding_spec(codec, fmt).0 == Some("PCM"@),
{
    reveal_strlit("pcm_");
    assert(codec.take(4) =~= "pcm_"@);
}

} // verus!

//! DLNA feature strings (`contentFeatures.dlna.org` and the fourth field of a
//! protocol info).

use vstd::prelude::*;

use crate::renderer::{ConfigView, RendererConfiguration};
use crate::text::{push_str, str_eq, string_from};

verus! {

/// `DLNA.ORG_OP`: `10` time seek, `01` byte-range seek, `11` both, `00` none.
/// A transcoded stream never offers byte-range seek.
pub open spec fn op_flag(seek_by_time: Seq<char>, transcoded: bool) -> Seq<char> {
    if transcoded {
        if seek_by_time == "true"@ || seek_by_time == "exclusive"@ {
            "10"@
        } else {
            "00"@
        }
    } else if seek_by_time == "true"@ {
        "11"@
    } else if seek_by_time == "exclusive"@ {
        "10"@
    } else {
        "01"@
    }
}

/// `DLNA.ORG_CI`: `1` for transcoded content, `0` for content sent as it is.
pub open spec fn ci_flag(transcoded: bool) -> Seq<char> {
    if transcoded {
        "1"@
    } else {
        "0"@
    }
}

/// `DLNA.ORG_FLAGS` for streaming.
pub open spec fn stream_flags() -> Seq<char> {
    "01700000000000000000000000000000"@
}

/// The DLNA profile of content of the given MIME type sent as it is.
pub open spec fn native_profile(mime: Seq<char>) -> Seq<char> {
    if mime == "video/mpeg"@ || mime == "video/mp2t"@ || mime == "video/vnd.dlna.mpeg-tts"@ {
        "MPEG_TS_SD_NA"@
    } else if mime == "video/mp4"@ {
        "AVC_MP4_BL_CIF15_AAC_520"@
    } else if mime == "video/x-matroska"@ || mime == "video/mkv"@ {
        "AVC_MKV_MP_HD_AAC_MULT5"@
    } else if mime == "audio/mpeg"@ {
        "MP3"@
    } else if mime == "audio/mp4"@ || mime == "audio/aac"@ {
        "AAC_ISO"@
    } else if mime == "audio/L16"@ {
        "LPCM"@
    } else {
        "*"@
    }
}

/// The `DLNA.ORG_PN` value: the wildcard for transcoded content, the native
/// profile otherwise, then replaced as the renderer's profile changes say.
pub open spec fn pn_value(mime: Seq<char>, c: ConfigView, transcoded: bool) -> Seq<char> {
    let base = if transcoded {
        "*"@
    } else {
        native_profile(mime)
    };
    if c.dlna_profile_changes.contains_key(base) {
        c.dlna_profile_changes[base]
    } else {
        base
    }
}

/// The `OP`, `CI` and `FLAGS` fields.
pub open spec fn op_ci_flags(c: ConfigView, transcoded: bool) -> Seq<char> {
    "DLNA.ORG_OP="@ + op_flag(c.seek_by_time, transcoded) + ";DLNA.ORG_CI="@ + ci_flag(
        transcoded,
    ) + ";DLNA.ORG_FLAGS="@ + stream_flags()
}

/// The DLNA feature string for content of type `mime` sent to renderer `c`:
/// empty when the renderer wants no flags, without `DLNA.ORG_PN` when it
/// wants no profile names.
pub open spec fn dlna_features(mime: Seq<char>, c: ConfigView, transcoded: bool) -> Seq<char> {
    if !c.send_dlna_org_flags {
        Seq::empty()
    } else if !c.dlna_org_pn_used {
        op_ci_flags(c, transcoded)
    } else {
        "DLNA.ORG_PN="@ + pn_value(mime, c, transcoded) + ";"@ + op_ci_flags(c, transcoded)
    }
}

/// The `OP` field value.
fn op_flag_exec(seek_by_time: &String, transcoded: bool) -> (r: String)
    ensures
        r@ == op_flag(seek_by_time@, transcoded),
{
    let is_true = str_eq(seek_by_time.as_str(), "true");
    let is_exclusive = str_eq(seek_by_time.as_str(), "exclusive");
    if transcoded {
        if is_true || is_exclusive {
            string_from("10")
        } else {
            string_from("00")
        }
    } else if is_true {
        string_from("11")
    } else if is_exclusive {
        string_from("10")
    } else {
        string_from("01")
    }
}

/// The native DLNA profile of a MIME type.
fn native_profile_exec(mime: &str) -> (r: String)
    ensures
        r@ == native_profile(mime@),
{
    if str_eq(mime, "video/mpeg") || str_eq(mime, "video/mp2t") || str_eq(
        mime,
        "video/vnd.dlna.mpeg-tts",
    ) {
        string_from("MPEG_TS_SD_NA")
    } else if str_eq(mime, "video/mp4") {
        string_from("AVC_MP4_BL_CIF15_AAC_520")
    } else if str_eq(mime, "video/x-matroska") || str_eq(mime, "video/mkv") {
        string_from("AVC_MKV_MP_HD_AAC_MULT5")
    } else if str_eq(mime, "audio/mpeg") {
        string_from("MP3")
    } else if str_eq(mime, "audio/mp4") || str_eq(mime, "audio/aac") {
        string_from("AAC_ISO")
    } else if str_eq(mime, "audio/L16") {
        string_from("LPCM")
    } else {
        string_from("*")
    }
}

/// Returns the DLNA feature string (`DLNA.ORG_PN`, `OP`, `CI`, `FLAGS`) for
/// content of type `mime_type` sent to `renderer`, transcoded or not.
pub fn get_dlna_org_pn_flags(
    mime_type: &str,
    renderer: &RendererConfiguration,
    is_transcoded: bool,
) -> (r: String)
    ensures
        r@ == dlna_features(mime_type@, renderer@, is_transcoded),
{
    if !renderer.send_dlna_org_flags {
        return String::new();
    }
    let op = op_flag_exec(&renderer.seek_by_time, is_transcoded);
    let ci = if is_transcoded {
        string_from("1")
    } else {
        string_from("0")
    };
    let mut tail = string_from("DLNA.ORG_OP=");
    push_str(&mut tail, op.as_str());
    push_str(&mut tail, ";DLNA.ORG_CI=");
    push_str(&mut tail, ci.as_str());
    push_str(&mut tail, ";DLNA.ORG_FLAGS=");
    push_str(&mut tail, "01700000000000000000000000000000");
    assert(tail@ == op_ci_flags(renderer@, is_transcoded));
    if !renderer.dlna_org_pn_used {
        return tail;
    }
    let base = if is_transcoded {
        string_from("*")
    } else {
        native_profile_exec(mime_type)
    };
    let pn = match renderer.dlna_profile_changes.get(base.as_str()) {
        Some(replacement) => replacement.clone(),
        None => base,
    };
    let mut out = string_from("DLNA.ORG_PN=");
    push_str(&mut out, pn.as_str());
    push_str(&mut out, ";");
    push_str(&mut out, tail.as_str());
    assert(out@ =~= dlna_features(mime_type@, renderer@, is_transcoded));
    out
}

/// A stream of transcoded content never offers byte-range seeking: its `OP`
/// field is `10` or `00`.
pub proof fn lemma_transcoded_no_byte_seek(seek_by_time: Seq<char>)
    ensures
        op_flag(seek_by_time, true) == "10"@ || op_flag(seek_by_time, true) == "00"@,
{
}

/// The feature string is empty exactly when the renderer asks for no DLNA flags.
pub proof fn lemma_features_empty_iff_disabled(mime: Seq<char>, c: ConfigView, transcoded: bool)
    ensures
        (dlna_features(mime, c, transcoded).len() == 0) <==> !c.send_dlna_org_flags,
{
    reveal_strlit("DLNA.ORG_OP=");
    reveal_strlit("DLNA.ORG_PN=");
}

/// Content sent as it is to a renderer that wants profile names and changes
/// none of them is announced with the DLNA profile of its MIME type: MPEG
/// streams as `MPEG_TS_SD_NA`, MP4 video as `AVC_MP4_BL_CIF15_AAC_520`,
/// Matroska as `AVC_MKV_MP_HD_AAC_MULT5`, MPEG audio as `MP3`, MP4 and AAC
/// audio as `AAC_ISO`, linear PCM as `LPCM`, anything else as `*`.
pub proof fn lemma_native_profile_names(mime: Seq<char>, c: ConfigView)
    requires
        c.send_dlna_org_flags,
        c.dlna_org_pn_used,
        c.dlna_profile_changes == Map::<Seq<char>, Seq<char>>::empty(),
    ensures
        mime == "video/mpeg"@ || mime == "video/mp2t"@ || mime == "video/vnd.dlna.mpeg-tts"@
            ==> dlna_features(mime, c, false) == "DLNA.ORG_PN="@ + "MPEG_TS_SD_NA"@ + ";"@ + op_ci_flags(c, false),
        mime == "video/mp4"@ ==> dlna_features(mime, c, false) == "DLNA.ORG_PN="@
            + "AVC_MP4_BL_CIF15_AAC_520"@ + ";"@ + op_ci_flags(c, false),
        mime == "video/x-matroska"@ || mime == "video/mkv"@ ==> dlna_features(mime, c, false)
            == "DLNA.ORG_PN="@ + "AVC_MKV_MP_HD_AAC_MULT5"@ + ";"@ + op_ci_flags(c, false),
        mime == "audio/mpeg"@ ==> dlna_features(mime, c, false) == "DLNA.ORG_PN="@ + "MP3"@ + ";"@
            + op_ci_flags(c, false),
        mime == "audio/mp4"@ || mime == "audio/aac"@ ==> dlna_features(mime, c, false)
            == "DLNA.ORG_PN="@ + "AAC_ISO"@ + ";"@ + op_ci_flags(c, false),
        mime == "audio/L16"@ ==> dlna_features(mime, c, false) == "DLNA.ORG_PN="@ + "LPCM"@ + ";"@
            + op_ci_flags(c, false),
        !(mime == "video/mpeg"@ || mime == "video/mp2t"@ || mime == "video/vnd.dlna.mpeg-tts"@
            || mime == "video/mp4"@ || mime == "video/x-matroska"@ || mime == "video/mkv"@
            || mime == "audio/mpeg"@ || mime == "audio/mp4"@ || mime == "audio/aac"@
            || mime == "audio/L16"@) ==> dlna_features(mime, c, false) == "DLNA.ORG_PN="@ + "*"@
            + ";"@ + op_ci_flags(c, false),
{
    reveal_strlit("video/mpeg");
    reveal_strlit("video/mp2t");
    reveal_strlit("video/vnd.dlna.mpeg-tts");
    reveal_strlit("video/mp4");
    reveal_strlit("video/x-matroska");
    reveal_strlit("video/mkv");
    reveal_strlit("audio/mpeg");
    reveal_strlit("audio/mp4");
    reveal_strlit("audio/aac");
    reveal_strlit("audio/L16");
    if mime == "video/mp4"@ {
        assert(mime.len() != "video/mpeg"@.len());
        assert(mime.len() != "video/mp2t"@.len());
        assert(mime[6] != "video/vnd.dlna.mpeg-tts"@[6]);
    }
    if mime == "video/x-matroska"@ {
        assert(mime[6] != "video/mpeg"@[6]);
        assert(mime[6] != "video/mp2t"@[6]);
        assert(mime[6] != "video/vnd.dlna.mpeg-tts"@[6]);
        assert(mime[6] != "video/mp4"@[6]);
    }
    if mime == "video/mkv"@ {
        assert(mime[7] != "video/mpeg"@[7]);
        assert(mime[7] != "video/mp2t"@[7]);
        assert(mime[6] != "video/vnd.dlna.mpeg-tts"@[6]);
        assert(mime[7] != "video/mp4"@[7]);
        assert(mime[6] != "video/x-matroska"@[6]);
    }
    if mime == "audio/mpeg"@ || mime == "audio/mp4"@ || mime == "audio/aac"@ || mime == "audio/L16"@ {
        assert(mime[0] != "video/mpeg"@[0]);
        assert(mime[0] != "video/mp2t"@[0]);
        assert(mime[0] != "video/vnd.dlna.mpeg-tts"@[0]);
        assert(mime[0] != "video/mp4"@[0]);
        assert(mime[0] != "video/x-matroska"@[0]);
        assert(mime[0] != "video/mkv"@[0]);
    }
    if mime == "audio/mp4"@ || mime == "audio/aac"@ || mime == "audio/L16"@ {
        assert(mime.len() != "audio/mpeg"@.len());
    }
    if mime == "audio/aac"@ || mime == "audio/L16"@ {
        assert(mime[6] != "audio/mp4"@[6]);
    }
    if mime == "audio/L16"@ {
        assert(mime[6] != "audio/aac"@[6]);
    }
}

} // verus!

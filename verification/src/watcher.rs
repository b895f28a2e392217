//! What the library watcher decides: which files are media, what a file's ID
//! is, and the item that a probe of a file describes.

use std::path::PathBuf;
use vstd::prelude::*;

use crate::media_item::MediaItem;
use crate::text::{
    chars_of, decimal, eq_chars, lowercase, push_decimal, push_str, parse_u64, parse_u64_exec, push_char, split_char,
    split_char_exec, string_from, string_of, sub_vec, to_lowercase,
};

verus! {

// ---------------------------------------------------------------------------
// File names
// ---------------------------------------------------------------------------

/// The last position of `c` in `s`.
pub open spec fn last_index_of(s: Seq<char>, c: char) -> Option<int>
    decreases s.len(),
{
    if s.len() == 0 {
        None
    } else if s.last() == c {
        Some(s.len() - 1)
    } else {
        last_index_of(s.drop_last(), c)
    }
}

/// The extension of a file name as `Path::extension` finds it: the text after
/// the last `.`, unless there is none, the name begins with its only dot, or
/// the name is `..`.
pub open spec fn file_extension(name: Seq<char>) -> Option<Seq<char>> {
    if name == seq!['.', '.'] {
        None
    } else {
        match last_index_of(name, '.') {
            Some(i) => if i == 0 {
                None
            } else {
                Some(name.skip(i + 1))
            },
            None => None,
        }
    }
}

/// The extensions of the media files the library serves.
pub open spec fn media_extensions() -> Seq<Seq<char>> {
    seq!["mp4"@, "mkv"@, "avi"@, "mov"@, "ts"@]
}

/// The file is served: its extension, lower-cased, is a media extension.
pub open spec fn is_media_file(name: Seq<char>) -> bool {
    match file_extension(name) {
        Some(e) => media_extensions().contains(lowercase(e)),
        None => false,
    }
}

/// The last position of `c` in `s`.
fn last_index_of_exec(s: &[char], c: char) -> (r: Option<usize>)
    ensures
        r matches Some(i) ==> last_index_of(s@, c) == Some(i as int),
        r is None ==> last_index_of(s@, c) is None,
{
    let mut n: usize = s.len();
    assert(s@.take(n as int) =~= s@);
    while n > 0
        invariant
            n <= s@.len(),
            last_index_of(s@, c) == last_index_of(s@.take(n as int), c),
        decreases n,
    {
        if s[n - 1] == c {
            return Some(n - 1);
        }
        assert(s@.take(n as int).drop_last() =~= s@.take(n - 1));
        n -= 1;
    }
    None
}

/// The extension of a file name, as `Path::extension` finds it.
pub fn extension_of(name: &str) -> (r: Option<String>)
    ensures
        r is Some <==> file_extension(name@) is Some,
        r matches Some(e) ==> file_extension(name@) == Some(e@),
{
    let v = chars_of(name);
    let dots: Vec<char> = vec!['.', '.'];
    assert(dots@ =~= seq!['.', '.']);
    if eq_chars(v.as_slice(), dots.as_slice()) {
        return None;
    }
    match last_index_of_exec(v.as_slice(), '.') {
        Some(i) => {
            if i == 0 {
                None
            } else {
                proof {
                    lemma_last_index_in_range(v@, '.');
                }
                let e = sub_vec(v.as_slice(), i + 1, v.len());
                assert(e@ =~= v@.skip(i + 1));
                Some(string_of(e.as_slice()))
            }
        },
        None => None,
    }
}

proof fn lemma_last_index_in_range(s: Seq<char>, c: char)
    ensures
        last_index_of(s, c) matches Some(i) ==> 0 <= i < s.len() && s[i] == c,
    decreases s.len(),
{
    if s.len() > 0 && s.last() != c {
        lemma_last_index_in_range(s.drop_last(), c);
    }
}

/// Tests whether a file, by its name, is one the library serves.
pub fn is_media_file_name(name: &str) -> (r: bool)
    ensures
        r == is_media_file(name@),
{
    match extension_of(name) {
        Some(e) => {
            let l = to_lowercase(e.as_str());
            let lc = chars_of(l.as_str());
            let exts: [&str; 5] = ["mp4", "mkv", "avi", "mov", "ts"];
            let mut i: usize = 0;
            while i < 5
                invariant
                    i <= 5,
                    lc@ == lowercase(e@),
                    file_extension(name@) == Some(e@),
                    exts@ == seq!["mp4", "mkv", "avi", "mov", "ts"],
                    forall|j: int| 0 <= j < i ==> media_extensions()[j] != lc@,
                decreases 5 - i,
            {
                let x = chars_of(exts[i]);
                assert(media_extensions()[i as int] == exts@[i as int]@);
                if eq_chars(x.as_slice(), lc.as_slice()) {
                    assert(media_extensions()[i as int] == lowercase(e@));
                    return true;
                }
                i += 1;
            }
            false
        },
        None => false,
    }
}

// ---------------------------------------------------------------------------
// Item IDs
// ---------------------------------------------------------------------------

/// The MD5 digest of the bytes, as `md5::compute` returns it.
pub uninterp spec fn md5_digest(data: Seq<u8>) -> Seq<u8>;

/// `md5::compute`: the 16-byte MD5 digest of `data`, which is only named here.
#[verifier::external_body]
fn md5_of(data: &[u8]) -> (r: [u8; 16])
    ensures
        r@ == md5_digest(data@),
{
    md5::compute(data).0
}

/// The lower-case hexadecimal digit of `d`.
pub open spec fn hex_digit(d: u8) -> char {
    if d < 10 {
        ((d + 48) as u8) as char
    } else {
        ((d + 87) as u8) as char
    }
}

/// Bytes written as two lower-case hexadecimal digits each (`{:x}` of an MD5 digest).
pub open spec fn hex_lower(bytes: Seq<u8>) -> Seq<char>
    decreases bytes.len(),
{
    if bytes.len() == 0 {
        Seq::empty()
    } else {
        hex_lower(bytes.drop_last()) + seq![hex_digit(bytes.last() / 16), hex_digit(bytes.last() % 16)]
    }
}

/// The ID of the item for the file at `path`: the MD5 digest of the path's
/// UTF-8 bytes, in lower-case hexadecimal.
pub open spec fn media_id_of(path: Seq<char>) -> Seq<char> {
    hex_lower(md5_digest(vstd::utf8::encode_utf8(path)))
}

fn hex_digit_exec(d: u8) -> (c: char)
    requires
        d < 16,
    ensures
        c == hex_digit(d),
{
    if d < 10 {
        (d + 48) as char
    } else {
        (d + 87) as char
    }
}

/// The ID of the item for the file at `path` (written as text).
pub fn media_id(path: &str) -> (r: String)
    ensures
        r@ == media_id_of(path@),
        r@.len() == 32,
{
    let bytes = path.as_bytes();
    let digest = md5_of(bytes);
    let mut s = String::new();
    let mut i: usize = 0;
    assert(digest@.take(0) =~= Seq::<u8>::empty());
    while i < 16
        invariant
            i <= 16,
            digest@.len() == 16,
            s@ == hex_lower(digest@.take(i as int)),
        decreases 16 - i,
    {
        let b = digest[i];
        assert(digest@.take(i + 1).drop_last() =~= digest@.take(i as int));
        push_char(&mut s, hex_digit_exec(b / 16));
        push_char(&mut s, hex_digit_exec(b % 16));
        i += 1;
        assert(s@ =~= hex_lower(digest@.take(i as int)));
    }
    assert(digest@.take(16) =~= digest@);
    proof {
        lemma_hex_lower_len(digest@);
    }
    s
}

proof fn lemma_hex_lower_len(bytes: Seq<u8>)
    ensures
        hex_lower(bytes).len() == 2 * bytes.len(),
    decreases bytes.len(),
{
    if bytes.len() > 0 {
        lemma_hex_lower_len(bytes.drop_last());
    }
}

// ---------------------------------------------------------------------------
// Probe results
// ---------------------------------------------------------------------------

/// The `format` object of an ffprobe report, as far as the library reads it;
/// each field is present when the report holds it as a string.
pub struct ProbeFormat {
    /// `format.tags.title`
    pub title_tag: Option<String>,
    /// `format.size`
    pub size: Option<String>,
    /// `format.format_name`
    pub format_name: Option<String>,
}

/// One entry of the `streams` array of an ffprobe report.
pub struct ProbeStream {
    /// `codec_type`, such as "video" or "audio"
    pub codec_type: Option<String>,
    /// `codec_name`, such as "h264"
    pub codec_name: Option<String>,
}

/// An ffprobe report, as far as the library reads it.
pub struct ProbeInfo {
    /// The `format` object, when the report has one.
    pub format: Option<ProbeFormat>,
    /// The `streams` array, when the report has one.
    pub streams: Option<Vec<ProbeStream>>,
}

/// Why a probe report yields no item.
#[derive(Debug, Clone, Copy, PartialEq, Eq, Structural)]
pub enum ProbeError {
    /// The report has no `format` object.
    NoFormat,
}

/// An optional string, as characters.
pub open spec fn opt_chars(o: Option<String>) -> Option<Seq<char>> {
    match o {
        Some(s) => Some(s@),
        None => None,
    }
}

// ---------------------------------------------------------------------------
// Reading an ffprobe report (serde_json)
// ---------------------------------------------------------------------------

/// `serde_json::from_slice` reads the bytes as a JSON value.
pub uninterp spec fn json_parses(report: Seq<u8>) -> bool;

/// `Value::pointer` finds a value at the JSON pointer in the value that
/// `serde_json::from_slice` reads from the bytes.
pub uninterp spec fn json_has(report: Seq<u8>, pointer: Seq<char>) -> bool;

/// The string (`Value::as_str`) at the JSON pointer in the value read from
/// the bytes, when there is one.
pub uninterp spec fn json_text_at(report: Seq<u8>, pointer: Seq<char>) -> Option<Seq<char>>;

/// The length of the array (`Value::as_array`) at the JSON pointer in the
/// value read from the bytes, when there is one.
pub uninterp spec fn json_array_len_at(report: Seq<u8>, pointer: Seq<char>) -> Option<nat>;

/// `serde_json::from_slice` into a `serde_json::Value`: whether the bytes are
/// JSON, which is only named here.
#[verifier::external_body]
fn json_report_parses(report: &[u8]) -> (r: bool)
    ensures
        r == json_parses(report@),
{
    serde_json::from_slice::<serde_json::Value>(report).is_ok()
}

/// `serde_json::from_slice`, then `Value::pointer`: whether a value stands at
/// the pointer; a text that is no JSON has none.
#[verifier::external_body]
fn json_value_present(report: &[u8], pointer: &str) -> (r: bool)
    ensures
        r == json_has(report@, pointer@),
        r ==> json_parses(report@),
{
    match serde_json::from_slice::<serde_json::Value>(report) {
        Ok(v) => v.pointer(pointer).is_some(),
        Err(_) => false,
    }
}

/// `serde_json::from_slice`, `Value::pointer`, then `Value::as_str`: the
/// string at the pointer, which is only named here.
#[verifier::external_body]
fn json_string(report: &[u8], pointer: &str) -> (r: Option<String>)
    ensures
        opt_chars(r) == json_text_at(report@, pointer@),
{
    let v = serde_json::from_slice::<serde_json::Value>(report).ok()?;
    v.pointer(pointer)?.as_str().map(|s| s.to_string())
}

/// `serde_json::from_slice`, `Value::pointer`, then `Value::as_array` and its
/// length, which is only named here.
#[verifier::external_body]
fn json_array_len(report: &[u8], pointer: &str) -> (r: Option<usize>)
    ensures
        r is Some <==> json_array_len_at(report@, pointer@) is Some,
        r matches Some(n) ==> json_array_len_at(report@, pointer@) == Some(n as nat),
{
    let v = serde_json::from_slice::<serde_json::Value>(report).ok()?;
    v.pointer(pointer)?.as_array().map(|a| a.len())
}

/// The JSON pointer of `field` of the stream at position `i`.
pub open spec fn stream_pointer(i: nat, field: Seq<char>) -> Seq<char> {
    "/streams/"@ + decimal(i) + "/"@ + field
}

fn stream_pointer_exec(i: usize, field: &str) -> (r: String)
    ensures
        r@ == stream_pointer(i as nat, field@),
{
    let mut p = string_from("/streams/");
    push_decimal(&mut p, i as u64);
    push_str(&mut p, "/");
    push_str(&mut p, field);
    p
}

/// `probe` holds what the report says: the `format` object's title tag, size
/// and format name, and each stream's codec type and name, as strings where
/// the report has them as strings.
pub open spec fn probe_of_report(probe: ProbeInfo, report: Seq<u8>) -> bool {
    &&& (probe.format is Some <==> json_has(report, "/format"@))
    &&& (probe.format matches Some(f) ==> {
        &&& opt_chars(f.title_tag) == json_text_at(report, "/format/tags/title"@)
        &&& opt_chars(f.size) == json_text_at(report, "/format/size"@)
        &&& opt_chars(f.format_name) == json_text_at(report, "/format/format_name"@)
    })
    &&& (probe.streams is Some <==> json_array_len_at(report, "/streams"@) is Some)
    &&& (probe.streams matches Some(ss) ==> {
        &&& json_array_len_at(report, "/streams"@) == Some(ss@.len())
        &&& forall|i: int| 0 <= i < ss@.len() ==> {
            &&& opt_chars(#[trigger] ss@[i].codec_type) == json_text_at(report, stream_pointer(i as nat, "codec_type"@))
            &&& opt_chars(ss@[i].codec_name) == json_text_at(report, stream_pointer(i as nat, "codec_name"@))
        }
    })
}

/// The library's view of an ffprobe JSON report: `None` when the bytes are no
/// JSON, otherwise what the report says (see `probe_of_report`).
pub fn probe_info_of(report: &[u8]) -> (r: Option<ProbeInfo>)
    ensures
        r is Some <==> json_parses(report@),
        r matches Some(p) ==> probe_of_report(p, report@),
{
    if !json_report_parses(report) {
        return None;
    }
    let format = if json_value_present(report, "/format") {
        Some(
            ProbeFormat {
                title_tag: json_string(report, "/format/tags/title"),
                size: json_string(report, "/format/size"),
                format_name: json_string(report, "/format/format_name"),
            },
        )
    } else {
        None
    };
    let streams = match json_array_len(report, "/streams") {
        Some(n) => {
            let mut ss: Vec<ProbeStream> = Vec::new();
            let mut i: usize = 0;
            while i < n
                invariant
                    i <= n,
                    ss@.len() == i,
                    forall|k: int| 0 <= k < i ==> {
                        &&& opt_chars(#[trigger] ss@[k].codec_type) == json_text_at(report@, stream_pointer(k as nat, "codec_type"@))
                        &&& opt_chars(ss@[k].codec_name) == json_text_at(report@, stream_pointer(k as nat, "codec_name"@))
                    },
                decreases n - i,
            {
                let pt = stream_pointer_exec(i, "codec_type");
                let pn = stream_pointer_exec(i, "codec_name");
                let codec_type = json_string(report, pt.as_str());
                let codec_name = json_string(report, pn.as_str());
                ss.push(ProbeStream { codec_type, codec_name });
                i += 1;
            }
            Some(ss)
        },
        None => None,
    };
    Some(ProbeInfo { format, streams })
}

/// The video and audio codecs of the streams, in order: each is the codec name
/// of the first stream of its type that names one.
pub open spec fn stream_codecs(streams: Seq<ProbeStream>) -> (Option<Seq<char>>, Option<Seq<char>>)
    decreases streams.len(),
{
    if streams.len() == 0 {
        (None, None)
    } else {
        let (v, a) = stream_codecs(streams.drop_last());
        let s = streams.last();
        let t = opt_chars(s.codec_type);
        if t == Some("video"@) && v is None {
            (opt_chars(s.codec_name), a)
        } else if t == Some("audio"@) && a is None {
            (v, opt_chars(s.codec_name))
        } else {
            (v, a)
        }
    }
}

/// The size in bytes a report gives: its `size` string parsed, 0 when absent
/// or not a number.
pub open spec fn probe_size(f: ProbeFormat) -> u64 {
    let text = match f.size {
        Some(s) => s@,
        None => "0"@,
    };
    match parse_u64(text) {
        Some(n) => n,
        None => 0,
    }
}

/// The container a report gives: the first of its comma-separated format names.
pub open spec fn probe_container(f: ProbeFormat) -> Option<Seq<char>> {
    match f.format_name {
        Some(n) => Some(split_char(n@, ',')[0]),
        None => None,
    }
}

/// The title of an item: the report's title tag, else the file's stem.
pub open spec fn probe_title(f: ProbeFormat, file_stem: Seq<char>) -> Seq<char> {
    match f.title_tag {
        Some(t) => t@,
        None => file_stem,
    }
}

/// The codecs of a probe report's streams.
fn codecs_of(streams: &Vec<ProbeStream>) -> (r: (Option<String>, Option<String>))
    ensures
        (opt_chars(r.0), opt_chars(r.1)) == stream_codecs(streams@),
{
    let mut v: Option<String> = None;
    let mut a: Option<String> = None;
    let mut i: usize = 0;
    assert(streams@.take(0) =~= Seq::<ProbeStream>::empty());
    while i < streams.len()
        invariant
            i <= streams@.len(),
            (opt_chars(v), opt_chars(a)) == stream_codecs(streams@.take(i as int)),
        decreases streams.len() - i,
    {
        assert(streams@.take(i + 1).drop_last() =~= streams@.take(i as int));
        let s = &streams[i];
        let is_video = match &s.codec_type {
            Some(t) => crate::text::str_eq(t.as_str(), "video"),
            None => false,
        };
        let is_audio = match &s.codec_type {
            Some(t) => crate::text::str_eq(t.as_str(), "audio"),
            None => false,
        };
        let name = match &s.codec_name {
            Some(n) => Some(n.clone()),
            None => None,
        };
        if is_video && v.is_none() {
            v = name;
        } else if is_audio && a.is_none() {
            a = name;
        }
        i += 1;
    }
    assert(streams@.take(streams@.len() as int) =~= streams@);
    (v, a)
}

/// The item that a probe report describes for the file at `path` (written as
/// `path_text`, with file stem `file_stem`): no item without a `format`
/// object; otherwise its title, size, container and codecs as the report
/// gives them, its ID from the path, and MIME type `video/mp4`.
pub fn media_item_from_probe(probe: &ProbeInfo, path: PathBuf, path_text: &str, file_stem: &str) -> (r: Result<MediaItem, ProbeError>)
    ensures
        probe.format is None ==> r == Err::<MediaItem, ProbeError>(ProbeError::NoFormat),
        probe.format matches Some(f) ==> r matches Ok(item) && {
            &&& item.id@ == media_id_of(path_text@)
            &&& item.path == path
            &&& item.title@ == probe_title(f, file_stem@)
            &&& item.mime_type@ == "video/mp4"@
            &&& item.size == probe_size(f)
            &&& opt_chars(item.container) == probe_container(f)
            &&& (opt_chars(item.video_codec), opt_chars(item.audio_codec)) == (match probe.streams {
                Some(ss) => stream_codecs(ss@),
                None => (None, None),
            })
        },
{
    let f = match &probe.format {
        Some(f) => f,
        None => {
            return Err(ProbeError::NoFormat);
        },
    };
    let title = match &f.title_tag {
        Some(t) => t.clone(),
        None => string_from(file_stem),
    };
    let size_text = match &f.size {
        Some(s) => chars_of(s.as_str()),
        None => chars_of("0"),
    };
    let size = match parse_u64_exec(size_text.as_slice()) {
        Some(n) => n,
        None => 0,
    };
    let container = match &f.format_name {
        Some(n) => {
            let nc = chars_of(n.as_str());
            let pieces = split_char_exec(nc.as_slice(), ',');
            proof {
                crate::text::lemma_split_char_nonempty(n@, ',');
            }
            Some(string_of(pieces[0].as_slice()))
        },
        None => None,
    };
    let (video_codec, audio_codec) = match &probe.streams {
        Some(ss) => codecs_of(ss),
        None => (None, None),
    };
    let id = media_id(path_text);
    Ok(
        MediaItem {
            id,
            path,
            title,
            mime_type: string_from("video/mp4"),
            size,
            container,
            video_codec,
            audio_codec,
        },
    )
}

// ---------------------------------------------------------------------------
// File system events
// ---------------------------------------------------------------------------

/// What to do with a path named by a file system event.
#[derive(Debug, Clone, Copy, PartialEq, Eq, Structural)]
pub enum WatchAction {
    /// The path exists: probe it and add or update its item.
    Process,
    /// The path is gone: remove its item.
    Remove,
}

/// The action for a path named by an event: a path that still exists is
/// processed, one that is gone is removed.
pub fn watch_action(exists: bool) -> (r: WatchAction)
    ensures
        exists ==> r == WatchAction::Process,
        !exists ==> r == WatchAction::Remove,
{
    if exists {
        WatchAction::Process
    } else {
        WatchAction::Remove
    }
}

} // verus!

//! Renderer profiles: what a playback device supports and how it is recognised.
//!
//! A profile is read from a `.conf` text of `Key = Value` lines. Its model is
//! [`ConfigView`]; [`parse_config`] states what a text yields.

use vstd::prelude::*;

use crate::media_item::MediaItem;
use crate::patterns::{regex_compiles, regex_finds, regex_search};
use crate::table::StringTable;
use crate::text::{
    chars_of, contains, contains_exec, eq_chars, lowercase, non_empty, parse_bool,
    parse_bool_exec, parse_i32, parse_i32_exec, push_str, replace_all, replace_str, split_char,
    split_char_exec, split_once, split_once_exec, string_from, string_of, to_lowercase,
    to_uppercase, trim, trim_chars, uppercase, words, words_exec,
};

verus! {

// ---------------------------------------------------------------------------
// Models
// ---------------------------------------------------------------------------

/// The model of one `Supported` line.
#[verifier::ext_equal]
pub struct SupportView {
    pub formats: Seq<Seq<char>>,
    pub video_codecs: Seq<Seq<char>>,
    pub audio_codecs: Seq<Seq<char>>,
    pub mime_type: Seq<char>,
}

/// The model of a renderer profile.
#[verifier::ext_equal]
pub struct ConfigView {
    pub renderer_name: Seq<char>,
    pub renderer_icon: Seq<char>,
    pub user_agent_search: Option<Seq<char>>,
    pub upnp_details_search: Option<Seq<char>>,
    pub loading_priority: i32,
    pub seek_by_time: Seq<char>,
    pub default_vbv_buf_size: bool,
    pub chunked_transfer: bool,
    pub mux_non_mod4_resolution: bool,
    pub dlna_org_pn_used: bool,
    pub send_dlna_org_flags: bool,
    pub accurate_dlna_org_pn: bool,
    pub dlna_profile_changes: Map<Seq<char>, Seq<char>>,
    pub mime_types_changes: Map<Seq<char>, Seq<char>>,
    pub transcode_extensions: Seq<Seq<char>>,
    pub stream_extensions: Seq<Seq<char>>,
    pub supported_formats: Seq<SupportView>,
}

/// The character sequences of a list of strings.
pub open spec fn string_views(v: Seq<String>) -> Seq<Seq<char>> {
    v.map_values(|s: String| s@)
}

/// The character sequences of a map's string values.
pub open spec fn string_map_view(m: Map<Seq<char>, String>) -> Map<Seq<char>, Seq<char>> {
    m.map_values(|s: String| s@)
}

/// The media a renderer can play directly, from one `Supported` line.
#[derive(Debug, Clone)]
pub struct RendererSupport {
    pub formats: Vec<String>,
    pub video_codecs: Vec<String>,
    pub audio_codecs: Vec<String>,
    pub mime_type: String,
}

impl View for RendererSupport {
    type V = SupportView;

    open spec fn view(&self) -> SupportView {
        SupportView {
            formats: string_views(self.formats@),
            video_codecs: string_views(self.video_codecs@),
            audio_codecs: string_views(self.audio_codecs@),
            mime_type: self.mime_type@,
        }
    }
}

/// A renderer profile.
#[derive(Debug, Clone)]
pub struct RendererConfiguration {
    pub renderer_name: String,
    pub renderer_icon: String,
    pub user_agent_search: Option<String>,
    pub upnp_details_search: Option<String>,
    pub loading_priority: i32,
    /// "true", "false" or "exclusive"
    pub seek_by_time: String,
    pub default_vbv_buf_size: bool,
    pub chunked_transfer: bool,
    pub mux_non_mod4_resolution: bool,
    pub dlna_org_pn_used: bool,
    pub send_dlna_org_flags: bool,
    pub accurate_dlna_org_pn: bool,
    pub dlna_profile_changes: StringTable<String>,
    pub mime_types_changes: StringTable<String>,
    pub transcode_extensions: Vec<String>,
    pub stream_extensions: Vec<String>,
    pub supported_formats: Vec<RendererSupport>,
}

/// The character sequence of an optional string.
pub open spec fn opt_view(o: Option<String>) -> Option<Seq<char>> {
    match o {
        Some(s) => Some(s@),
        None => None,
    }
}

impl View for RendererConfiguration {
    type V = ConfigView;

    open spec fn view(&self) -> ConfigView {
        ConfigView {
            renderer_name: self.renderer_name@,
            renderer_icon: self.renderer_icon@,
            user_agent_search: opt_view(self.user_agent_search),
            upnp_details_search: opt_view(self.upnp_details_search),
            loading_priority: self.loading_priority,
            seek_by_time: self.seek_by_time@,
            default_vbv_buf_size: self.default_vbv_buf_size,
            chunked_transfer: self.chunked_transfer,
            mux_non_mod4_resolution: self.mux_non_mod4_resolution,
            dlna_org_pn_used: self.dlna_org_pn_used,
            send_dlna_org_flags: self.send_dlna_org_flags,
            accurate_dlna_org_pn: self.accurate_dlna_org_pn,
            dlna_profile_changes: string_map_view(self.dlna_profile_changes.as_map()),
            mime_types_changes: string_map_view(self.mime_types_changes.as_map()),
            transcode_extensions: string_views(self.transcode_extensions@),
            stream_extensions: string_views(self.stream_extensions@),
            supported_formats: self.supported_formats@.map_values(|s: RendererSupport| s@),
        }
    }
}

// ---------------------------------------------------------------------------
// What a profile text means
// ---------------------------------------------------------------------------

/// The profile of an unknown renderer.
pub open spec fn default_config() -> ConfigView {
    ConfigView {
        renderer_name: "Unknown Renderer"@,
        renderer_icon: "unknown.png"@,
        user_agent_search: None,
        upnp_details_search: None,
        loading_priority: 0,
        seek_by_time: "false"@,
        default_vbv_buf_size: false,
        chunked_transfer: false,
        mux_non_mod4_resolution: false,
        dlna_org_pn_used: true,
        send_dlna_org_flags: true,
        accurate_dlna_org_pn: false,
        dlna_profile_changes: Map::empty(),
        mime_types_changes: Map::empty(),
        transcode_extensions: Seq::empty(),
        stream_extensions: Seq::empty(),
        supported_formats: Seq::empty(),
    }
}

/// A boolean setting: the parsed value, or `default` when it does not parse.
pub open spec fn bool_or(value: Seq<char>, default: bool) -> bool {
    match parse_bool(value) {
        Some(b) => b,
        None => default,
    }
}

/// Upper- or lower-case form of `s`.
pub open spec fn in_case(s: Seq<char>, upper: bool) -> Seq<char> {
    if upper {
        uppercase(s)
    } else {
        lowercase(s)
    }
}

/// A `|`-separated list of `old=new` pairs applied to a map in order; pieces
/// without `=` are skipped, and both sides are trimmed and case-folded.
pub open spec fn apply_changes(
    m: Map<Seq<char>, Seq<char>>,
    pieces: Seq<Seq<char>>,
    upper: bool,
) -> Map<Seq<char>, Seq<char>>
    decreases pieces.len(),
{
    if pieces.len() == 0 {
        m
    } else {
        let m0 = apply_changes(m, pieces.drop_last(), upper);
        match split_once(pieces.last(), '=') {
            Some((a, b)) => m0.insert(in_case(trim(a), upper), in_case(trim(b), upper)),
            None => m0,
        }
    }
}

/// The trimmed, lower-cased form of an extension.
pub open spec fn extension_of(p: Seq<char>) -> Seq<char> {
    lowercase(trim(p))
}

/// A `,`-separated list of extensions, trimmed, lower-cased, empty ones dropped.
pub open spec fn extension_list(value: Seq<char>) -> Seq<Seq<char>> {
    split_char(value, ',').map_values(|p: Seq<char>| extension_of(p)).filter(
        |e: Seq<char>| non_empty(e),
    )
}

/// A `Supported` line with nothing stated.
pub open spec fn empty_support() -> SupportView {
    SupportView {
        formats: Seq::empty(),
        video_codecs: Seq::empty(),
        audio_codecs: Seq::empty(),
        mime_type: Seq::empty(),
    }
}

/// The `|`-separated items of a tag's content, lower-cased.
pub open spec fn tag_items(content: Seq<char>) -> Seq<Seq<char>> {
    split_char(content, '|').map_values(|s: Seq<char>| lowercase(s))
}

/// One `tag:content` word of a `Supported` line; words without `:` and
/// unknown tags are ignored.
pub open spec fn support_part(sv: SupportView, part: Seq<char>) -> SupportView {
    match split_once(part, ':') {
        Some((prefix, content)) => {
            if prefix == seq!['f'] {
                SupportView { formats: tag_items(content), ..sv }
            } else if prefix == seq!['v'] {
                SupportView { video_codecs: tag_items(content), ..sv }
            } else if prefix == seq!['a'] {
                SupportView { audio_codecs: tag_items(content), ..sv }
            } else if prefix == seq!['m'] {
                SupportView { mime_type: content, ..sv }
            } else {
                sv
            }
        },
        None => sv,
    }
}

/// The words of a `Supported` line applied in order.
pub open spec fn support_parts(sv: SupportView, parts: Seq<Seq<char>>) -> SupportView
    decreases parts.len(),
{
    if parts.len() == 0 {
        sv
    } else {
        support_part(support_parts(sv, parts.drop_last()), parts.last())
    }
}

/// The value of a `Supported` line.
pub open spec fn parse_support(value: Seq<char>) -> SupportView {
    support_parts(empty_support(), words(value))
}

/// The effect of the setting `key = value`.
pub open spec fn apply_setting(c: ConfigView, key: Seq<char>, value: Seq<char>) -> ConfigView {
    if key == "RendererName"@ {
        ConfigView { renderer_name: value, ..c }
    } else if key == "RendererIcon"@ {
        ConfigView { renderer_icon: value, ..c }
    } else if key == "UserAgentSearch"@ {
        if value.len() > 0 {
            ConfigView { user_agent_search: Some(value), ..c }
        } else {
            c
        }
    } else if key == "UpnpDetailsSearch"@ {
        if value.len() > 0 {
            ConfigView { upnp_details_search: Some(value), ..c }
        } else {
            c
        }
    } else if key == "LoadingPriority"@ {
        ConfigView {
            loading_priority: match parse_i32(value) {
                Some(n) => n,
                None => 0,
            },
            ..c
        }
    } else if key == "SeekByTime"@ {
        ConfigView { seek_by_time: value, ..c }
    } else if key == "DefaultVBVBufSize"@ {
        ConfigView { default_vbv_buf_size: bool_or(value, false), ..c }
    } else if key == "ChunkedTransfer"@ {
        ConfigView { chunked_transfer: bool_or(value, false), ..c }
    } else if key == "MuxNonMod4Resolution"@ {
        ConfigView { mux_non_mod4_resolution: bool_or(value, false), ..c }
    } else if key == "DLNAOrgPN"@ {
        ConfigView { dlna_org_pn_used: bool_or(value, false), ..c }
    } else if key == "SendDLNAOrgFlags"@ {
        ConfigView { send_dlna_org_flags: bool_or(value, true), ..c }
    } else if key == "AccurateDLNAOrgPN"@ {
        ConfigView { accurate_dlna_org_pn: bool_or(value, false), ..c }
    } else if key == "DLNAProfileChanges"@ {
        ConfigView {
            dlna_profile_changes: apply_changes(
                c.dlna_profile_changes,
                split_char(value, '|'),
                true,
            ),
            ..c
        }
    } else if key == "MimeTypesChanges"@ {
        ConfigView {
            mime_types_changes: apply_changes(c.mime_types_changes, split_char(value, '|'), false),
            ..c
        }
    } else if key == "TranscodeExtensions"@ {
        ConfigView { transcode_extensions: extension_list(value), ..c }
    } else if key == "StreamExtensions"@ {
        ConfigView { stream_extensions: extension_list(value), ..c }
    } else if key == "Supported"@ {
        ConfigView { supported_formats: c.supported_formats.push(parse_support(value)), ..c }
    } else {
        c
    }
}

/// The effect of one line: blank lines, `#` comments and lines without `=`
/// change nothing; otherwise the trimmed key and value form a setting.
pub open spec fn apply_line(c: ConfigView, raw: Seq<char>) -> ConfigView {
    let line = trim(raw);
    if line.len() == 0 || line[0] == '#' {
        c
    } else {
        match split_once(line, '=') {
            Some((k, v)) => apply_setting(c, trim(k), trim(v)),
            None => c,
        }
    }
}

/// The lines applied in order.
pub open spec fn apply_lines(c: ConfigView, lines: Seq<Seq<char>>) -> ConfigView
    decreases lines.len(),
{
    if lines.len() == 0 {
        c
    } else {
        apply_line(apply_lines(c, lines.drop_last()), lines.last())
    }
}

/// The profile that a `.conf` text describes.
pub open spec fn parse_config(text: Seq<char>) -> ConfigView {
    apply_lines(default_config(), split_char(text, '\n'))
}

// ---------------------------------------------------------------------------
// What a profile decides
// ---------------------------------------------------------------------------

/// The profile's user-agent pattern matches `user_agent`: as a regular
/// expression, or, when it is not a valid one, as a plain substring.
pub open spec fn user_agent_matches(c: ConfigView, user_agent: Seq<char>) -> bool {
    match c.user_agent_search {
        Some(p) => if regex_compiles(p) {
            regex_finds(p, user_agent)
        } else {
            contains(user_agent, p)
        },
        None => false,
    }
}

/// The device-details pattern: its ` , ` separators become `.*`.
pub open spec fn upnp_pattern(raw: Seq<char>) -> Seq<char> {
    replace_all(raw, " , "@, ".*"@)
}

/// The device details with line breaks turned into spaces.
pub open spec fn clean_details(details: Seq<char>) -> Seq<char> {
    replace_all(details, "\n"@, " "@)
}

/// The profile's device-details pattern matches `details`, without regard to
/// case: as a regular expression, or, when it is not a valid one, as a
/// lower-cased substring.
pub open spec fn upnp_details_match(c: ConfigView, details: Seq<char>) -> bool {
    match c.upnp_details_search {
        Some(raw) => {
            let pattern = upnp_pattern(raw);
            let clean = clean_details(details);
            let full = "(?i)"@ + pattern;
            if regex_compiles(full) {
                regex_finds(full, clean)
            } else {
                contains(lowercase(clean), lowercase(pattern))
            }
        },
        None => false,
    }
}

/// The profile name a renderer wants in place of `profile`.
pub open spec fn profile_id(c: ConfigView, profile: Seq<char>) -> Seq<char> {
    let key = uppercase(profile);
    if c.dlna_profile_changes.contains_key(key) {
        c.dlna_profile_changes[key]
    } else {
        profile
    }
}

/// An optional string, as characters.
pub open spec fn item_field(o: Option<String>) -> Option<Seq<char>> {
    opt_view(o)
}

/// One `Supported` line admits the item: each list that is given contains the
/// item's lower-cased value; an item without a container never matches a
/// container list, and an unknown codec never fails a codec list.
pub open spec fn support_admits(s: SupportView, item: MediaItem) -> bool {
    let format_match = s.formats.len() == 0 || match item_field(item.container) {
        Some(c) => s.formats.contains(lowercase(c)),
        None => false,
    };
    let video_match = s.video_codecs.len() == 0 || match item_field(item.video_codec) {
        Some(v) => s.video_codecs.contains(lowercase(v)),
        None => true,
    };
    let audio_match = s.audio_codecs.len() == 0 || match item_field(item.audio_codec) {
        Some(a) => s.audio_codecs.contains(lowercase(a)),
        None => true,
    };
    format_match && video_match && audio_match
}

/// The renderer can play the item directly: some `Supported` line admits it.
pub open spec fn compatible(c: ConfigView, item: MediaItem) -> bool {
    exists|i: int| 0 <= i < c.supported_formats.len() && support_admits(#[trigger] c.supported_formats[i], item)
}

// ---------------------------------------------------------------------------
// Executable code
// ---------------------------------------------------------------------------

/// Tests whether `key` spells `name`.
fn is_key(key: &[char], name: &str) -> (r: bool)
    ensures
        r == (key@ == name@),
{
    let n = chars_of(name);
    eq_chars(key, n.as_slice())
}

/// Tests whether `v` holds a string equal to `s`.
fn contains_string(v: &Vec<String>, s: &String) -> (r: bool)
    ensures
        r == string_views(v@).contains(s@),
{
    let mut i: usize = 0;
    while i < v.len()
        invariant
            i <= v@.len(),
            forall|j: int| 0 <= j < i ==> v@[j]@ != s@,
        decreases v.len() - i,
    {
        if v[i] == *s {
            assert(string_views(v@)[i as int] == s@);
            return true;
        }
        i += 1;
    }
    proof {
        if string_views(v@).contains(s@) {
            let j = choose|j: int| 0 <= j < string_views(v@).len() && string_views(v@)[j] == s@;
            assert(v@[j]@ == s@);
        }
    }
    false
}

/// Applies a `|`-separated list of `old=new` changes to `t`.
fn apply_change_list(t: &mut StringTable<String>, value: &[char], upper: bool)
    ensures
        string_map_view(final(t).as_map()) == apply_changes(
            string_map_view(old(t).as_map()),
            split_char(value@, '|'),
            upper,
        ),
{
    let pieces = split_char_exec(value, '|');
    let ghost ps = split_char(value@, '|');
    let ghost m0 = string_map_view(t.as_map());
    let mut j: usize = 0;
    assert(ps.take(0) =~= Seq::<Seq<char>>::empty());
    while j < pieces.len()
        invariant
            j <= pieces@.len(),
            pieces@.len() == ps.len(),
            forall|k: int| 0 <= k < ps.len() ==> #[trigger] pieces@[k]@ == ps[k],
            string_map_view(t.as_map()) == apply_changes(m0, ps.take(j as int), upper),
        decreases pieces.len() - j,
    {
        assert(ps.take(j + 1).drop_last() =~= ps.take(j as int));
        assert(ps.take(j + 1).last() == ps[j as int]);
        let piece = &pieces[j];
        assert(piece@ == ps[j as int]);
        match split_once_exec(piece.as_slice(), '=') {
            Some((a, b)) => {
                let ta = trim_chars(a.as_slice());
                let tb = trim_chars(b.as_slice());
                let sa = string_of(ta.as_slice());
                let sb = string_of(tb.as_slice());
                let (ka, kb) = if upper {
                    (to_uppercase(sa.as_str()), to_uppercase(sb.as_str()))
                } else {
                    (to_lowercase(sa.as_str()), to_lowercase(sb.as_str()))
                };
                let ghost before = t.as_map();
                t.insert(ka, kb);
                assert(string_map_view(t.as_map()) =~= string_map_view(before).insert(ka@, kb@));
            },
            None => {},
        }
        j += 1;
    }
    assert(ps.take(ps.len() as int) =~= ps);
}

/// The trimmed, lower-cased, non-empty extensions of a `,`-separated list.
fn extension_list_exec(value: &[char]) -> (r: Vec<String>)
    ensures
        string_views(r@) == extension_list(value@),
{
    let pieces = split_char_exec(value, ',');
    let ghost ps = split_char(value@, ',');
    let ghost g = |p: Seq<char>| extension_of(p);
    let ghost f = |e: Seq<char>| non_empty(e);
    let mut out: Vec<String> = Vec::new();
    let mut j: usize = 0;
    assert(ps.take(0).map_values(g).filter(f) =~= Seq::<Seq<char>>::empty()) by {
        reveal_with_fuel(Seq::filter, 1);
    }
    while j < pieces.len()
        invariant
            j <= pieces@.len(),
            pieces@.len() == ps.len(),
            g == (|p: Seq<char>| extension_of(p)),
            f == (|e: Seq<char>| non_empty(e)),
            forall|k: int| 0 <= k < ps.len() ==> #[trigger] pieces@[k]@ == ps[k],
            string_views(out@) == ps.take(j as int).map_values(g).filter(f),
        decreases pieces.len() - j,
    {
        let piece = &pieces[j];
        assert(piece@ == ps[j as int]);
        let ghost prev = ps.take(j as int).map_values(g);
        assert(ps.take(j + 1).map_values(g) =~= prev.push(g(ps[j as int])));
        let t = trim_chars(piece.as_slice());
        let ts = string_of(t.as_slice());
        let e = to_lowercase(ts.as_str());
        assert(e@ == g(ps[j as int]));
        let ghost old_out = out@;
        let ev = chars_of(e.as_str());
        if ev.len() > 0 {
            out.push(e);
            assert(prev.push(g(ps[j as int])).filter(f) == prev.filter(f).push(g(ps[j as int])))
                by {
                reveal_with_fuel(Seq::filter, 1);
                assert(prev.push(g(ps[j as int])).drop_last() =~= prev);
            }
            assert(string_views(out@) =~= string_views(old_out).push(e@));
        } else {
            assert(prev.push(g(ps[j as int])).filter(f) == prev.filter(f)) by {
                reveal_with_fuel(Seq::filter, 1);
                assert(prev.push(g(ps[j as int])).drop_last() =~= prev);
            }
        }
        j += 1;
    }
    assert(ps.take(ps.len() as int) =~= ps);
    out
}

/// The `|`-separated items of `content`, lower-cased.
fn tag_items_exec(content: &[char]) -> (r: Vec<String>)
    ensures
        string_views(r@) == tag_items(content@),
{
    let pieces = split_char_exec(content, '|');
    let ghost ps = split_char(content@, '|');
    let mut out: Vec<String> = Vec::new();
    let mut j: usize = 0;
    while j < pieces.len()
        invariant
            j <= pieces@.len(),
            pieces@.len() == ps.len(),
            forall|k: int| 0 <= k < ps.len() ==> #[trigger] pieces@[k]@ == ps[k],
            out@.len() == j,
            forall|k: int| 0 <= k < j ==> #[trigger] out@[k]@ == lowercase(ps[k]),
        decreases pieces.len() - j,
    {
        let s = string_of(pieces[j].as_slice());
        out.push(to_lowercase(s.as_str()));
        j += 1;
    }
    assert(string_views(out@) =~= tag_items(content@));
    out
}

impl RendererSupport {
    /// The support described by the value of a `Supported` line, such as
    /// `f:mp4|m4v v:h264 a:aac m:video/mp4`.
    pub fn parse(value: &str) -> (r: Self)
        ensures
            r@ == parse_support(value@),
    {
        let chars = chars_of(value);
        let parts = words_exec(chars.as_slice());
        let ghost ws = words(value@);
        let mut sup = RendererSupport {
            formats: Vec::new(),
            video_codecs: Vec::new(),
            audio_codecs: Vec::new(),
            mime_type: String::new(),
        };
        assert(sup@ =~= empty_support());
        assert(ws.take(0) =~= Seq::<Seq<char>>::empty());
        let mut j: usize = 0;
        while j < parts.len()
            invariant
                j <= parts@.len(),
                parts@.len() == ws.len(),
                forall|k: int| 0 <= k < ws.len() ==> #[trigger] parts@[k]@ == ws[k],
                sup@ == support_parts(empty_support(), ws.take(j as int)),
            decreases parts.len() - j,
        {
            assert(ws.take(j + 1).drop_last() =~= ws.take(j as int));
            assert(ws.take(j + 1).last() == ws[j as int]);
            let part = &parts[j];
            assert(part@ == ws[j as int]);
            let ghost before = sup@;
            match split_once_exec(part.as_slice(), ':') {
                Some((prefix, content)) => {
                    if is_key(prefix.as_slice(), "f") {
                        sup.formats = tag_items_exec(content.as_slice());
                    } else if is_key(prefix.as_slice(), "v") {
                        sup.video_codecs = tag_items_exec(content.as_slice());
                    } else if is_key(prefix.as_slice(), "a") {
                        sup.audio_codecs = tag_items_exec(content.as_slice());
                    } else if is_key(prefix.as_slice(), "m") {
                        sup.mime_type = string_of(content.as_slice());
                    }
                    proof {
                        reveal_strlit("f");
                        reveal_strlit("v");
                        reveal_strlit("a");
                        reveal_strlit("m");
                        assert("f"@ =~= seq!['f']);
                        assert("v"@ =~= seq!['v']);
                        assert("a"@ =~= seq!['a']);
                        assert("m"@ =~= seq!['m']);
                    }
                    assert(sup@ =~= support_part(before, part@));
                },
                None => {},
            }
            j += 1;
        }
        assert(ws.take(ws.len() as int) =~= ws);
        sup
    }

    /// A copy of this support line.
    pub fn duplicate(&self) -> (r: Self)
        ensures
            r@ == self@,
    {
        RendererSupport {
            formats: copy_strings(&self.formats),
            video_codecs: copy_strings(&self.video_codecs),
            audio_codecs: copy_strings(&self.audio_codecs),
            mime_type: self.mime_type.clone(),
        }
    }

    /// Tests whether this line admits `item`.
    pub fn admits(&self, item: &MediaItem) -> (r: bool)
        ensures
            r == support_admits(self@, *item),
    {
        let mut format_match = true;
        let mut v_match = true;
        let mut a_match = true;
        if self.formats.len() > 0 {
            match &item.container {
                Some(container) => {
                    let lc = to_lowercase(container.as_str());
                    if !contains_string(&self.formats, &lc) {
                        format_match = false;
                    }
                },
                None => {
                    format_match = false;
                },
            }
        }
        if self.video_codecs.len() > 0 {
            match &item.video_codec {
                Some(v) => {
                    let lv = to_lowercase(v.as_str());
                    if !contains_string(&self.video_codecs, &lv) {
                        v_match = false;
                    }
                },
                None => {},
            }
        }
        if self.audio_codecs.len() > 0 {
            match &item.audio_codec {
                Some(a) => {
                    let la = to_lowercase(a.as_str());
                    if !contains_string(&self.audio_codecs, &la) {
                        a_match = false;
                    }
                },
                None => {},
            }
        }
        format_match && v_match && a_match
    }
}

/// A copy of a list of strings.
pub fn copy_strings(v: &Vec<String>) -> (r: Vec<String>)
    ensures
        r@ == v@,
{
    let mut out: Vec<String> = Vec::new();
    let mut i: usize = 0;
    while i < v.len()
        invariant
            i <= v@.len(),
            out@ == v@.take(i as int),
        decreases v.len() - i,
    {
        out.push(v[i].clone());
        i += 1;
        assert(out@ =~= v@.take(i as int));
    }
    assert(v@.take(v@.len() as int) =~= v@);
    out
}

/// A copy of an optional string.
fn copy_opt(o: &Option<String>) -> (r: Option<String>)
    ensures
        r == *o,
{
    match o {
        Some(s) => Some(s.clone()),
        None => None,
    }
}

impl Default for RendererConfiguration {
    /// The profile of an unknown renderer.
    fn default() -> (r: Self)
        ensures
            r@ == default_config(),
    {
        let r = RendererConfiguration {
            renderer_name: string_from("Unknown Renderer"),
            renderer_icon: string_from("unknown.png"),
            user_agent_search: None,
            upnp_details_search: None,
            loading_priority: 0,
            seek_by_time: string_from("false"),
            default_vbv_buf_size: false,
            chunked_transfer: false,
            mux_non_mod4_resolution: false,
            dlna_org_pn_used: true,
            send_dlna_org_flags: true,
            accurate_dlna_org_pn: false,
            dlna_profile_changes: StringTable::new(),
            mime_types_changes: StringTable::new(),
            transcode_extensions: Vec::new(),
            stream_extensions: Vec::new(),
            supported_formats: Vec::new(),
        };
        assert(r@.dlna_profile_changes =~= Map::empty());
        assert(r@.mime_types_changes =~= Map::empty());
        assert(r@ =~= default_config());
        r
    }
}

impl RendererConfiguration {
    /// Applies the setting `key = value` (both already trimmed).
    fn apply_setting(&mut self, key: &[char], value: &[char])
        ensures
            final(self)@ == apply_setting(old(self)@, key@, value@),
    {
        let ghost c = self@;
        if is_key(key, "RendererName") {
            self.renderer_name = string_of(value);
            assert(self@ =~= apply_setting(c, key@, value@));
        } else if is_key(key, "RendererIcon") {
            self.renderer_icon = string_of(value);
            assert(self@ =~= apply_setting(c, key@, value@));
        } else if is_key(key, "UserAgentSearch") {
            if value.len() > 0 {
                self.user_agent_search = Some(string_of(value));
            }
            assert(self@ =~= apply_setting(c, key@, value@));
        } else if is_key(key, "UpnpDetailsSearch") {
            if value.len() > 0 {
                self.upnp_details_search = Some(string_of(value));
            }
            assert(self@ =~= apply_setting(c, key@, value@));
        } else if is_key(key, "LoadingPriority") {
            self.loading_priority = match parse_i32_exec(value) {
                Some(n) => n,
                None => 0,
            };
            assert(self@ =~= apply_setting(c, key@, value@));
        } else if is_key(key, "SeekByTime") {
            self.seek_by_time = string_of(value);
            assert(self@ =~= apply_setting(c, key@, value@));
        } else if is_key(key, "DefaultVBVBufSize") {
            self.default_vbv_buf_size = bool_or_exec(value, false);
            assert(self@ =~= apply_setting(c, key@, value@));
        } else if is_key(key, "ChunkedTransfer") {
            self.chunked_transfer = bool_or_exec(value, false);
            assert(self@ =~= apply_setting(c, key@, value@));
        } else if is_key(key, "MuxNonMod4Resolution") {
            self.mux_non_mod4_resolution = bool_or_exec(value, false);
            assert(self@ =~= apply_setting(c, key@, value@));
        } else if is_key(key, "DLNAOrgPN") {
            self.dlna_org_pn_used = bool_or_exec(value, false);
            assert(self@ =~= apply_setting(c, key@, value@));
        } else if is_key(key, "SendDLNAOrgFlags") {
            self.send_dlna_org_flags = bool_or_exec(value, true);
            assert(self@ =~= apply_setting(c, key@, value@));
        } else if is_key(key, "AccurateDLNAOrgPN") {
            self.accurate_dlna_org_pn = bool_or_exec(value, false);
            assert(self@ =~= apply_setting(c, key@, value@));
        } else if is_key(key, "DLNAProfileChanges") {
            apply_change_list(&mut self.dlna_profile_changes, value, true);
            assert(self@ =~= apply_setting(c, key@, value@));
        } else if is_key(key, "MimeTypesChanges") {
            apply_change_list(&mut self.mime_types_changes, value, false);
            assert(self@ =~= apply_setting(c, key@, value@));
        } else if is_key(key, "TranscodeExtensions") {
            self.transcode_extensions = extension_list_exec(value);
            assert(self@ =~= apply_setting(c, key@, value@));
        } else if is_key(key, "StreamExtensions") {
            self.stream_extensions = extension_list_exec(value);
            assert(self@ =~= apply_setting(c, key@, value@));
        } else if is_key(key, "Supported") {
            let s = string_of(value);
            let sup = RendererSupport::parse(s.as_str());
            let ghost before = self.supported_formats@;
            self.supported_formats.push(sup);
            assert(self.supported_formats@.map_values(|s: RendererSupport| s@) =~= before.map_values(
                |s: RendererSupport| s@,
            ).push(sup@));
            assert(self@ =~= apply_setting(c, key@, value@));
        }
    }

    /// Applies one line of a profile text.
    pub fn apply_line(&mut self, line: &str)
        ensures
            final(self)@ == apply_line(old(self)@, line@),
    {
        let chars = chars_of(line);
        self.apply_line_chars(chars.as_slice());
    }

    fn apply_line_chars(&mut self, raw: &[char])
        ensures
            final(self)@ == apply_line(old(self)@, raw@),
    {
        let line = trim_chars(raw);
        if line.len() == 0 || line[0] == '#' {
            return ;
        }
        match split_once_exec(line.as_slice(), '=') {
            Some((k, v)) => {
                let key = trim_chars(k.as_slice());
                let value = trim_chars(v.as_slice());
                self.apply_setting(key.as_slice(), value.as_slice());
            },
            None => {},
        }
    }

    /// The profile that a `.conf` text describes: its lines applied in order
    /// to the profile of an unknown renderer.
    pub fn parse(text: &str) -> (r: Self)
        ensures
            r@ == parse_config(text@),
    {
        let mut cfg = RendererConfiguration::default();
        let chars = chars_of(text);
        let lines = split_char_exec(chars.as_slice(), '\n');
        let ghost ls = split_char(text@, '\n');
        assert(ls.take(0) =~= Seq::<Seq<char>>::empty());
        let mut j: usize = 0;
        while j < lines.len()
            invariant
                j <= lines@.len(),
                lines@.len() == ls.len(),
                forall|k: int| 0 <= k < ls.len() ==> #[trigger] lines@[k]@ == ls[k],
                cfg@ == apply_lines(default_config(), ls.take(j as int)),
            decreases lines.len() - j,
        {
            assert(ls.take(j + 1).drop_last() =~= ls.take(j as int));
            assert(ls.take(j + 1).last() == ls[j as int]);
            assert(lines@[j as int]@ == ls[j as int]);
            cfg.apply_line_chars(lines[j].as_slice());
            j += 1;
        }
        assert(ls.take(ls.len() as int) =~= ls);
        cfg
    }

    /// Tests whether this renderer is the one sending `user_agent`.
    pub fn is_match(&self, user_agent: &str) -> (r: bool)
        ensures
            r == user_agent_matches(self@, user_agent@),
    {
        match &self.user_agent_search {
            Some(pattern) => match regex_search(pattern.as_str(), user_agent) {
                Some(found) => found,
                None => {
                    let u = chars_of(user_agent);
                    let p = chars_of(pattern.as_str());
                    contains_exec(u.as_slice(), p.as_slice())
                },
            },
            None => false,
        }
    }

    /// Tests whether this renderer is the device that `details` describes.
    pub fn match_upnp_details(&self, details: &str) -> (r: bool)
        ensures
            r == upnp_details_match(self@, details@),
    {
        match &self.upnp_details_search {
            Some(raw) => {
                proof {
                    reveal_strlit(" , ");
                    reveal_strlit("\n");
                }
                let pattern = replace_str(raw.as_str(), " , ", ".*");
                let clean = replace_str(details, "\n", " ");
                let mut full = string_from("(?i)");
                push_str(&mut full, pattern.as_str());
                match regex_search(full.as_str(), clean.as_str()) {
                    Some(found) => found,
                    None => {
                        let lc = to_lowercase(clean.as_str());
                        let lp = to_lowercase(pattern.as_str());
                        let a = chars_of(lc.as_str());
                        let b = chars_of(lp.as_str());
                        contains_exec(a.as_slice(), b.as_slice())
                    },
                }
            },
            None => false,
        }
    }

    /// The profile name this renderer wants in place of `profile`.
    pub fn get_dlna_profile_id(&self, profile: &str) -> (r: String)
        ensures
            r@ == profile_id(self@, profile@),
    {
        let key = to_uppercase(profile);
        match self.dlna_profile_changes.get(key.as_str()) {
            Some(v) => v.clone(),
            None => string_from(profile),
        }
    }

    /// Checks if a media item is supported by the renderer for direct play.
    pub fn is_compatible(&self, item: &MediaItem) -> (r: bool)
        ensures
            r == compatible(self@, *item),
    {
        let mut i: usize = 0;
        while i < self.supported_formats.len()
            invariant
                i <= self.supported_formats@.len(),
                forall|j: int|
                    0 <= j < i ==> !support_admits(#[trigger] self@.supported_formats[j], *item),
            decreases self.supported_formats.len() - i,
        {
            if self.supported_formats[i].admits(item) {
                assert(self@.supported_formats[i as int] == self.supported_formats@[i as int]@);
                return true;
            }
            assert(self@.supported_formats[i as int] == self.supported_formats@[i as int]@);
            i += 1;
        }
        false
    }

    /// A copy of this profile.
    pub fn duplicate(&self) -> (r: Self)
        ensures
            r@ == self@,
    {
        let mut formats: Vec<RendererSupport> = Vec::new();
        let mut i: usize = 0;
        while i < self.supported_formats.len()
            invariant
                i <= self.supported_formats@.len(),
                formats@.len() == i,
                forall|j: int| 0 <= j < i ==> #[trigger] formats@[j]@ == self.supported_formats@[j]@,
            decreases self.supported_formats.len() - i,
        {
            formats.push(self.supported_formats[i].duplicate());
            i += 1;
        }
        let r = RendererConfiguration {
            renderer_name: self.renderer_name.clone(),
            renderer_icon: self.renderer_icon.clone(),
            user_agent_search: copy_opt(&self.user_agent_search),
            upnp_details_search: copy_opt(&self.upnp_details_search),
            loading_priority: self.loading_priority,
            seek_by_time: self.seek_by_time.clone(),
            default_vbv_buf_size: self.default_vbv_buf_size,
            chunked_transfer: self.chunked_transfer,
            mux_non_mod4_resolution: self.mux_non_mod4_resolution,
            dlna_org_pn_used: self.dlna_org_pn_used,
            send_dlna_org_flags: self.send_dlna_org_flags,
            accurate_dlna_org_pn: self.accurate_dlna_org_pn,
            dlna_profile_changes: self.dlna_profile_changes.duplicate(),
            mime_types_changes: self.mime_types_changes.duplicate(),
            transcode_extensions: copy_strings(&self.transcode_extensions),
            stream_extensions: copy_strings(&self.stream_extensions),
            supported_formats: formats,
        };
        assert(r@.supported_formats =~= self@.supported_formats);
        assert(r@ =~= self@);
        r
    }
}

/// A boolean setting: the parsed value, or `default`.
fn bool_or_exec(value: &[char], default: bool) -> (r: bool)
    ensures
        r == bool_or(value@, default),
{
    match parse_bool_exec(value) {
        Some(b) => b,
        None => default,
    }
}

// ---------------------------------------------------------------------------
// Laws
// ---------------------------------------------------------------------------

/// The keys a profile text can set.
pub open spec fn known_key(key: Seq<char>) -> bool {
    ||| key == "RendererName"@
    ||| key == "RendererIcon"@
    ||| key == "UserAgentSearch"@
    ||| key == "UpnpDetailsSearch"@
    ||| key == "LoadingPriority"@
    ||| key == "SeekByTime"@
    ||| key == "DefaultVBVBufSize"@
    ||| key == "ChunkedTransfer"@
    ||| key == "MuxNonMod4Resolution"@
    ||| key == "DLNAOrgPN"@
    ||| key == "SendDLNAOrgFlags"@
    ||| key == "AccurateDLNAOrgPN"@
    ||| key == "DLNAProfileChanges"@
    ||| key == "MimeTypesChanges"@
    ||| key == "TranscodeExtensions"@
    ||| key == "StreamExtensions"@
    ||| key == "Supported"@
}

/// A line that sets nothing: blank once trimmed, a `#` comment, a line
/// without `=`, or a setting whose trimmed key is not a known one.
pub open spec fn inert_line(raw: Seq<char>) -> bool {
    let line = trim(raw);
    ||| line.len() == 0
    ||| line[0] == '#'
    ||| match split_once(line, '=') {
        Some((k, _)) => !known_key(trim(k)),
        None => true,
    }
}

/// The lines of a profile text that set something.
pub open spec fn effective_lines(lines: Seq<Seq<char>>) -> Seq<Seq<char>> {
    lines.filter(|l: Seq<char>| !inert_line(l))
}

/// Blank lines, comments, lines without `=` and settings with an unknown key
/// leave a profile unchanged.
pub proof fn lemma_inert_lines(c: ConfigView, raw: Seq<char>)
    requires
        inert_line(raw),
    ensures
        apply_line(c, raw) == c,
{
}

/// Applying lines is applying those of them that set something.
pub proof fn lemma_apply_effective_lines(c: ConfigView, lines: Seq<Seq<char>>)
    ensures
        apply_lines(c, lines) == apply_lines(c, effective_lines(lines)),
    decreases lines.len(),
{
    reveal(Seq::filter);
    if lines.len() > 0 {
        lemma_apply_effective_lines(c, lines.drop_last());
        let sub = effective_lines(lines.drop_last());
        assert(effective_lines(lines) == (if !inert_line(lines.last()) {
            sub.push(lines.last())
        } else {
            sub
        }));
        if !inert_line(lines.last()) {
            assert(sub.push(lines.last()).drop_last() =~= sub);
        } else {
            lemma_inert_lines(apply_lines(c, lines.drop_last()), lines.last());
        }
    }
}

/// Two profile texts whose lines that set something are the same describe
/// the same profile: inserting or removing blank lines, comments, lines
/// without `=` and settings with an unknown key anywhere changes nothing.
pub proof fn lemma_parse_config_ignores_inert_lines(t1: Seq<char>, t2: Seq<char>)
    requires
        effective_lines(split_char(t1, '\n')) == effective_lines(split_char(t2, '\n')),
    ensures
        parse_config(t1) == parse_config(t2),
{
    lemma_apply_effective_lines(default_config(), split_char(t1, '\n'));
    lemma_apply_effective_lines(default_config(), split_char(t2, '\n'));
}

/// A text of a single line splits into that line.
proof fn lemma_split_char_single(s: Seq<char>, c: char)
    requires
        !s.contains(c),
    ensures
        split_char(s, c) == seq![s],
    decreases s.len(),
{
    if s.len() > 0 {
        assert(!s.drop_last().contains(c)) by {
            if s.drop_last().contains(c) {
                let j = choose|j: int| 0 <= j < s.drop_last().len() && s.drop_last()[j] == c;
                assert(s[j] == c);
            }
        }
        lemma_split_char_single(s.drop_last(), c);
        assert(s.last() != c) by {
            assert(s[s.len() - 1] == s.last());
        }
        let init = split_char(s.drop_last(), c);
        assert(init.len() == 1 && init.last() == s.drop_last());
        assert(split_char(s, c) == init.update(0, s.drop_last().push(s.last())));
        assert(s.drop_last().push(s.last()) =~= s);
        assert(init.update(0, s) =~= seq![s]);
    } else {
        assert(s =~= Seq::<char>::empty());
    }
}

/// Inserting one line that sets nothing between two parts of a profile text
/// leaves the profile unchanged.
pub proof fn lemma_insert_inert_line(t1: Seq<char>, line: Seq<char>, t2: Seq<char>)
    requires
        !line.contains('\n'),
        inert_line(line),
    ensures
        parse_config(t1 + seq!['\n'] + line + seq!['\n'] + t2) == parse_config(t1 + seq!['\n'] + t2),
{
    let nl = seq!['\n'];
    assert(t1 + nl + line + nl + t2 =~= t1 + nl + (line + nl + t2));
    lemma_split_char_concat(t1, '\n', line + nl + t2);
    lemma_split_char_concat(line, '\n', t2);
    lemma_split_char_single(line, '\n');
    lemma_split_char_concat(t1, '\n', t2);
    let s1 = split_char(t1, '\n');
    let s2 = split_char(t2, '\n');
    assert(s1 + (seq![line] + s2) =~= (s1 + seq![line]) + s2);
    lemma_apply_lines_concat(default_config(), s1 + seq![line], s2);
    lemma_apply_lines_concat(default_config(), s1, s2);
    assert((s1 + seq![line]).drop_last() =~= s1);
    lemma_inert_lines(apply_lines(default_config(), s1), line);
}

/// A profile text made only of lines that set nothing, such as an empty
/// text, describes the default profile.
pub proof fn lemma_inert_text_default(t: Seq<char>)
    requires
        forall|i: int| 0 <= i < split_char(t, '\n').len() ==> inert_line(#[trigger] split_char(t, '\n')[i]),
    ensures
        parse_config(t) == default_config(),
{
    lemma_apply_inert_lines(default_config(), split_char(t, '\n'));
}

/// Applying lines that all set nothing leaves a profile unchanged.
proof fn lemma_apply_inert_lines(c: ConfigView, lines: Seq<Seq<char>>)
    requires
        forall|i: int| 0 <= i < lines.len() ==> inert_line(#[trigger] lines[i]),
    ensures
        apply_lines(c, lines) == c,
    decreases lines.len(),
{
    if lines.len() > 0 {
        assert forall|i: int| 0 <= i < lines.drop_last().len() implies inert_line(#[trigger] lines.drop_last()[i]) by {
            assert(lines.drop_last()[i] == lines[i]);
        }
        lemma_apply_inert_lines(c, lines.drop_last());
        assert(inert_line(lines[lines.len() - 1]));
        lemma_inert_lines(c, lines.last());
    }
}

/// What one `Supported` line demands of an item it admits: a container list
/// holds the item's lower-cased container (an item without one is not
/// admitted), and a video or audio codec list holds the item's lower-cased
/// codec of that kind whenever the item has one.
pub proof fn lemma_admitted_items_are_listed(s: SupportView, item: MediaItem)
    requires
        support_admits(s, item),
    ensures
        s.formats.len() > 0 ==> item.container is Some && s.formats.contains(
            lowercase(item.container->0@),
        ),
        s.video_codecs.len() > 0 && item.video_codec is Some ==> s.video_codecs.contains(
            lowercase(item.video_codec->0@),
        ),
        s.audio_codecs.len() > 0 && item.audio_codec is Some ==> s.audio_codecs.contains(
            lowercase(item.audio_codec->0@),
        ),
{
}

/// A renderer plays an item directly only when one of its `Supported` lines
/// lists the item's container and codecs wherever it restricts them; an item
/// whose audio codec no line with an audio list names is transcoded.
pub proof fn lemma_direct_play_needs_listed_codecs(c: ConfigView, item: MediaItem)
    ensures
        compatible(c, item) ==> exists|i: int|
            0 <= i < c.supported_formats.len() && {
                let s = #[trigger] c.supported_formats[i];
                &&& s.formats.len() > 0 ==> item.container is Some && s.formats.contains(
                    lowercase(item.container->0@),
                )
                &&& s.video_codecs.len() > 0 && item.video_codec is Some ==> s.video_codecs.contains(
                    lowercase(item.video_codec->0@),
                )
                &&& s.audio_codecs.len() > 0 && item.audio_codec is Some ==> s.audio_codecs.contains(
                    lowercase(item.audio_codec->0@),
                )
            },
        (forall|i: int|
            0 <= i < c.supported_formats.len() ==> {
                let s = #[trigger] c.supported_formats[i];
                &&& s.audio_codecs.len() > 0
                &&& item.audio_codec is Some
                &&& !s.audio_codecs.contains(lowercase(item.audio_codec->0@))
            }) ==> !compatible(c, item),
{
    if compatible(c, item) {
        let i = choose|i: int| 0 <= i < c.supported_formats.len() && support_admits(#[trigger] c.supported_formats[i], item);
        lemma_admitted_items_are_listed(c.supported_formats[i], item);
    }
}

/// A renderer without `Supported` lines plays nothing directly.
pub proof fn lemma_no_support_no_direct_play(c: ConfigView, item: MediaItem)
    requires
        c.supported_formats.len() == 0,
    ensures
        !compatible(c, item),
{
}

/// Without profile changes, a profile name is kept as it is.
pub proof fn lemma_profile_id_unchanged(c: ConfigView, profile: Seq<char>)
    requires
        c.dlna_profile_changes == Map::<Seq<char>, Seq<char>>::empty(),
    ensures
        profile_id(c, profile) == profile,
{
}

/// Splitting at a separator character is splitting both sides of it.
pub proof fn lemma_split_char_concat(a: Seq<char>, c: char, b: Seq<char>)
    ensures
        split_char(a + seq![c] + b, c) == split_char(a, c) + split_char(b, c),
    decreases b.len(),
{
    if b.len() == 0 {
        assert((a + seq![c] + b).drop_last() =~= a);
        assert(split_char(a, c) + split_char(b, c) =~= split_char(a, c).push(Seq::<char>::empty()));
    } else {
        lemma_split_char_concat(a, c, b.drop_last());
        assert((a + seq![c] + b).drop_last() =~= a + seq![c] + b.drop_last());
        crate::text::lemma_split_char_nonempty(b.drop_last(), c);
        let l = split_char(a, c);
        let r0 = split_char(b.drop_last(), c);
        if b.last() == c {
            assert((l + r0).push(Seq::<char>::empty()) =~= l + r0.push(Seq::<char>::empty()));
        } else {
            assert((l + r0).update((l + r0).len() - 1, (l + r0).last().push(b.last())) =~= l
                + r0.update(r0.len() - 1, r0.last().push(b.last())));
        }
    }
}

/// Applying two lists of lines is applying their concatenation.
pub proof fn lemma_apply_lines_concat(c: ConfigView, l1: Seq<Seq<char>>, l2: Seq<Seq<char>>)
    ensures
        apply_lines(c, l1 + l2) == apply_lines(apply_lines(c, l1), l2),
    decreases l2.len(),
{
    if l2.len() == 0 {
        assert(l1 + l2 =~= l1);
    } else {
        lemma_apply_lines_concat(c, l1, l2.drop_last());
        assert((l1 + l2).drop_last() =~= l1 + l2.drop_last());
    }
}

/// Profile texts compose line by line: the profile of two texts joined by a
/// line break is the first text's profile with the second text's lines
/// applied to it, so a later setting of a key overrides an earlier one.
pub proof fn lemma_parse_config_concat(t1: Seq<char>, t2: Seq<char>)
    ensures
        parse_config(t1 + seq!['\n'] + t2) == apply_lines(parse_config(t1), split_char(t2, '\n')),
{
    lemma_split_char_concat(t1, '\n', t2);
    lemma_apply_lines_concat(default_config(), split_char(t1, '\n'), split_char(t2, '\n'));
}

} // verus!

//! The SOAP actions of the ContentDirectory, ConnectionManager and
//! X_MS_MediaReceiverRegistrar services, as request text in, response text out.

use vstd::prelude::*;

use crate::dlna_helper::{dlna_features, get_dlna_org_pn_flags};
use crate::error::AppError;
use crate::media_item::MediaItem;
use crate::renderer::{compatible, ConfigView, RendererConfiguration};
use crate::state::AppState;
use crate::streaming::{stream_mime, user_agent_renderer};
use crate::text::{
    chars_of, contains, decimal, find, find_exec, matches_at, push_decimal, push_str,
    replace_all, replace_str, starts_with, str_eq, string_from, string_of, sub_vec,
    lemma_find_from,
};

verus! {

// ---------------------------------------------------------------------------
// Fixed answers
// ---------------------------------------------------------------------------

/// The `GetProtocolInfo` answer: every source format the server offers, with
/// its DLNA profile and flags, and no sinks.
pub open spec fn protocol_info_body() -> Seq<char> {
    "<?xml version=\"1.0\" encoding=\"utf-8\"?>\n<s:Envelope xmlns:s=\"http://schemas.xmlsoap.org/soap/envelope/\" s:encodingStyle=\"http://schemas.xmlsoap.org/soap/encoding/\">\n    <s:Body>\n        <u:GetProtocolInfoResponse xmlns:u=\"urn:schemas-upnp-org:service:ConnectionManager:1\">\n            <Source>http-get:*:video/mpeg:DLNA.ORG_PN=MPEG_PS_PAL;DLNA.ORG_OP=01;DLNA.ORG_CI=0;DLNA.ORG_FLAGS=01700000000000000000000000000000,http-get:*:video/mpeg:DLNA.ORG_PN=MPEG_PS_NTSC;DLNA.ORG_OP=01;DLNA.ORG_CI=0;DLNA.ORG_FLAGS=01700000000000000000000000000000,http-get:*:video/vnd.dlna.mpeg-tts:DLNA.ORG_PN=AVC_TS_NA_ISO;DLNA.ORG_OP=01;DLNA.ORG_CI=0;DLNA.ORG_FLAGS=01700000000000000000000000000000,http-get:*:video/mp2t:DLNA.ORG_PN=AVC_TS_MP_HD_AAC_ISO;DLNA.ORG_OP=01;DLNA.ORG_CI=0;DLNA.ORG_FLAGS=01700000000000000000000000000000,http-get:*:video/mp4:DLNA.ORG_PN=AVC_MP4_BL_CIF15_AAC_520;DLNA.ORG_OP=01;DLNA.ORG_CI=0;DLNA.ORG_FLAGS=01700000000000000000000000000000,http-get:*:video/mp4:DLNA.ORG_PN=AVC_MP4_MP_SD_AAC_MULT5;DLNA.ORG_OP=01;DLNA.ORG_CI=0;DLNA.ORG_FLAGS=01700000000000000000000000000000,http-get:*:video/x-matroska:DLNA.ORG_PN=AVC_MKV_MP_HD_AAC_MULT5;DLNA.ORG_OP=01;DLNA.ORG_CI=0;DLNA.ORG_FLAGS=01700000000000000000000000000000,http-get:*:video/x-matroska:*,http-get:*:audio/mpeg:DLNA.ORG_PN=MP3;DLNA.ORG_OP=01;DLNA.ORG_CI=0;DLNA.ORG_FLAGS=01700000000000000000000000000000,http-get:*:audio/mp4:DLNA.ORG_PN=AAC_ISO;DLNA.ORG_OP=01;DLNA.ORG_CI=0;DLNA.ORG_FLAGS=01700000000000000000000000000000,http-get:*:audio/L16:DLNA.ORG_PN=LPCM;DLNA.ORG_OP=01;DLNA.ORG_CI=0;DLNA.ORG_FLAGS=01700000000000000000000000000000</Source>\n            <Sink></Sink>\n        </u:GetProtocolInfoResponse>\n    </s:Body>\n</s:Envelope>"@
}

/// The `IsAuthorized` / `IsValidated` answer: always authorised.
pub open spec fn is_authorized_body() -> Seq<char> {
    "<?xml version=\"1.0\" encoding=\"utf-8\"?>\n<s:Envelope xmlns:s=\"http://schemas.xmlsoap.org/soap/envelope/\" s:encodingStyle=\"http://schemas.xmlsoap.org/soap/encoding/\">\n    <s:Body>\n        <u:IsAuthorizedResponse xmlns:u=\"urn:microsoft.com:service:X_MS_MediaReceiverRegistrar:1\">\n            <Result>1</Result>\n        </u:IsAuthorizedResponse>\n    </s:Body>\n</s:Envelope>"@
}

/// The message of a refused action.
pub open spec fn unsupported_action() -> Seq<char> {
    "Unknown or Unsupported SOAP Action"@
}

/// An error answer for an action the service does not know.
fn unsupported_action_error() -> (e: AppError)
    ensures
        e matches AppError::BadRequest(m) && m@ == unsupported_action(),
{
    AppError::BadRequest(string_from("Unknown or Unsupported SOAP Action"))
}

/// Answers a ConnectionManager request: only `GetProtocolInfo` is supported.
pub fn connection_manager_control(soap_action: &str) -> (r: Result<String, AppError>)
    ensures
        contains(soap_action@, "GetProtocolInfo"@) ==> (r matches Ok(body) && body@
            == protocol_info_body()),
        !contains(soap_action@, "GetProtocolInfo"@) ==> (r matches Err(AppError::BadRequest(m))
            && m@ == unsupported_action()),
{
    let a = chars_of(soap_action);
    let p = chars_of("GetProtocolInfo");
    if crate::text::contains_exec(a.as_slice(), p.as_slice()) {
        Ok(string_from("<?xml version=\"1.0\" encoding=\"utf-8\"?>\n<s:Envelope xmlns:s=\"http://schemas.xmlsoap.org/soap/envelope/\" s:encodingStyle=\"http://schemas.xmlsoap.org/soap/encoding/\">\n    <s:Body>\n        <u:GetProtocolInfoResponse xmlns:u=\"urn:schemas-upnp-org:service:ConnectionManager:1\">\n            <Source>http-get:*:video/mpeg:DLNA.ORG_PN=MPEG_PS_PAL;DLNA.ORG_OP=01;DLNA.ORG_CI=0;DLNA.ORG_FLAGS=01700000000000000000000000000000,http-get:*:video/mpeg:DLNA.ORG_PN=MPEG_PS_NTSC;DLNA.ORG_OP=01;DLNA.ORG_CI=0;DLNA.ORG_FLAGS=01700000000000000000000000000000,http-get:*:video/vnd.dlna.mpeg-tts:DLNA.ORG_PN=AVC_TS_NA_ISO;DLNA.ORG_OP=01;DLNA.ORG_CI=0;DLNA.ORG_FLAGS=01700000000000000000000000000000,http-get:*:video/mp2t:DLNA.ORG_PN=AVC_TS_MP_HD_AAC_ISO;DLNA.ORG_OP=01;DLNA.ORG_CI=0;DLNA.ORG_FLAGS=01700000000000000000000000000000,http-get:*:video/mp4:DLNA.ORG_PN=AVC_MP4_BL_CIF15_AAC_520;DLNA.ORG_OP=01;DLNA.ORG_CI=0;DLNA.ORG_FLAGS=01700000000000000000000000000000,http-get:*:video/mp4:DLNA.ORG_PN=AVC_MP4_MP_SD_AAC_MULT5;DLNA.ORG_OP=01;DLNA.ORG_CI=0;DLNA.ORG_FLAGS=01700000000000000000000000000000,http-get:*:video/x-matroska:DLNA.ORG_PN=AVC_MKV_MP_HD_AAC_MULT5;DLNA.ORG_OP=01;DLNA.ORG_CI=0;DLNA.ORG_FLAGS=01700000000000000000000000000000,http-get:*:video/x-matroska:*,http-get:*:audio/mpeg:DLNA.ORG_PN=MP3;DLNA.ORG_OP=01;DLNA.ORG_CI=0;DLNA.ORG_FLAGS=01700000000000000000000000000000,http-get:*:audio/mp4:DLNA.ORG_PN=AAC_ISO;DLNA.ORG_OP=01;DLNA.ORG_CI=0;DLNA.ORG_FLAGS=01700000000000000000000000000000,http-get:*:audio/L16:DLNA.ORG_PN=LPCM;DLNA.ORG_OP=01;DLNA.ORG_CI=0;DLNA.ORG_FLAGS=01700000000000000000000000000000</Source>\n            <Sink></Sink>\n        </u:GetProtocolInfoResponse>\n    </s:Body>\n</s:Envelope>"))
    } else {
        Err(unsupported_action_error())
    }
}

/// Answers an X_MS_MediaReceiverRegistrar request: `IsAuthorized` and
/// `IsValidated` are always granted.
pub fn media_receiver_registrar_control(soap_action: &str) -> (r: Result<String, AppError>)
    ensures
        (contains(soap_action@, "IsAuthorized"@) || contains(soap_action@, "IsValidated"@))
            ==> (r matches Ok(body) && body@ == is_authorized_body()),
        !(contains(soap_action@, "IsAuthorized"@) || contains(soap_action@, "IsValidated"@))
            ==> (r matches Err(AppError::BadRequest(m)) && m@ == unsupported_action()),
{
    let a = chars_of(soap_action);
    let p = chars_of("IsAuthorized");
    let q = chars_of("IsValidated");
    if crate::text::contains_exec(a.as_slice(), p.as_slice()) || crate::text::contains_exec(
        a.as_slice(),
        q.as_slice(),
    ) {
        Ok(string_from("<?xml version=\"1.0\" encoding=\"utf-8\"?>\n<s:Envelope xmlns:s=\"http://schemas.xmlsoap.org/soap/envelope/\" s:encodingStyle=\"http://schemas.xmlsoap.org/soap/encoding/\">\n    <s:Body>\n        <u:IsAuthorizedResponse xmlns:u=\"urn:microsoft.com:service:X_MS_MediaReceiverRegistrar:1\">\n            <Result>1</Result>\n        </u:IsAuthorizedResponse>\n    </s:Body>\n</s:Envelope>"))
    } else {
        Err(unsupported_action_error())
    }
}

// ---------------------------------------------------------------------------
// Browse
// ---------------------------------------------------------------------------

/// The text between the first `open` tag and the first `close` tag after it,
/// or `default` when either is missing.
pub open spec fn request_field(body: Seq<char>, open: Seq<char>, close: Seq<char>, default: Seq<char>) -> Seq<char> {
    match find(body, open) {
        Some(start) => match find(body.skip(start), close) {
            Some(end) => body.subrange(start + open.len(), start + end),
            None => default,
        },
        None => default,
    }
}

/// The requested object: the `ObjectID` element, `0` (the root) by default.
pub open spec fn object_id_of(body: Seq<char>) -> Seq<char> {
    request_field(body, "<ObjectID>"@, "</ObjectID>"@, "0"@)
}

/// The requested kind of browse: the `BrowseFlag` element,
/// `BrowseDirectChildren` by default.
pub open spec fn browse_flag_of(body: Seq<char>) -> Seq<char> {
    request_field(body, "<BrowseFlag>"@, "</BrowseFlag>"@, "BrowseDirectChildren"@)
}

/// No text that begins with `open` has `close` starting inside that `open`.
pub open spec fn tags_separate(open: Seq<char>, close: Seq<char>) -> bool {
    forall|s: Seq<char>, e: int|
        #![trigger starts_with(s, open), matches_at(s, close, e)]
        starts_with(s, open) && 0 <= e < open.len() ==> !matches_at(s, close, e)
}

/// An element's closing tag cannot begin inside its opening tag.
proof fn lemma_tags_separate(open: Seq<char>, close: Seq<char>)
    requires
        open.len() >= 2,
        close.len() >= 2,
        open[0] == '<',
        close[0] == '<',
        close[1] == '/',
        open[1] != '/',
        forall|k: int| 1 <= k < open.len() ==> open[k] != '<',
    ensures
        tags_separate(open, close),
{
    assert forall|s: Seq<char>, e: int|
        #![trigger starts_with(s, open), matches_at(s, close, e)]
        starts_with(s, open) && 0 <= e < open.len() implies !matches_at(s, close, e) by {
        if matches_at(s, close, e) {
            assert(s.subrange(e, e + close.len())[0] == close[0]);
            assert(s.take(open.len() as int)[e] == open[e]);
            if e == 0 {
                assert(s.subrange(e, e + close.len())[1] == close[1]);
                assert(s.take(open.len() as int)[1] == open[1]);
            }
        }
    }
}

/// The text between the first `open` tag and the first `close` tag after it.
fn request_field_exec(body: &[char], open: &str, close: &str, default: &str) -> (r: String)
    requires
        tags_separate(open@, close@),
    ensures
        r@ == request_field(body@, open@, close@, default@),
{
    let o = chars_of(open);
    let c = chars_of(close);
    match find_exec(body, o.as_slice()) {
        Some(start) => {
            proof {
                lemma_find_from(body@, o@, 0);
            }
            let rest = sub_vec(body, start, body.len());
            assert(rest@ =~= body@.skip(start as int));
            match find_exec(rest.as_slice(), c.as_slice()) {
                Some(end) => {
                    proof {
                        lemma_find_from(rest@, c@, 0);
                        assert(rest@.take(o@.len() as int) =~= body@.subrange(
                            start as int,
                            start + o@.len(),
                        ));
                        assert(starts_with(rest@, o@));
                        if end < o@.len() {
                            assert(!matches_at(rest@, c@, end as int));
                        }
                    }
                    let v = sub_vec(body, start + o.len(), start + end);
                    string_of(v.as_slice())
                },
                None => string_from(default),
            }
        },
        None => string_from(default),
    }
}

/// The address at which an item is streamed.
pub open spec fn stream_url(local_ip: Seq<char>, id: Seq<char>) -> Seq<char> {
    "http://"@ + local_ip + ":3000/stream/"@ + id
}

/// The protocol info of an item for a renderer: its stream's MIME type and,
/// when there are any, its DLNA features.
pub open spec fn item_protocol_info(item: MediaItem, c: ConfigView) -> Seq<char> {
    let transcode = !compatible(c, item);
    let mime = stream_mime(item, transcode);
    let features = dlna_features(mime, c, transcode);
    if features.len() == 0 {
        "http-get:*:"@ + mime
    } else {
        "http-get:*:"@ + mime + ":"@ + features
    }
}

/// The DIDL-Lite element of one item.
pub open spec fn item_entry(item: MediaItem, c: ConfigView, local_ip: Seq<char>) -> Seq<char> {
    "<item id=\""@ + item.id@ + "\" parentID=\"0\" restricted=\"1\">\n                    <dc:title>"@ + item.title@ + "</dc:title>\n                    <upnp:class>object.item.videoItem</upnp:class>\n                    <res protocolInfo=\""@ + item_protocol_info(item, c) + "\" size=\""@
        + decimal(item.size as nat) + "\">"@ + stream_url(local_ip, item.id@) + "</res>\n                </item>"@
}

/// The DIDL-Lite elements of the items, in order.
pub open spec fn item_entries(items: Seq<MediaItem>, c: ConfigView, local_ip: Seq<char>) -> Seq<char>
    decreases items.len(),
{
    if items.len() == 0 {
        Seq::empty()
    } else {
        item_entries(items.drop_last(), c, local_ip) + item_entry(items.last(), c, local_ip)
    }
}

/// The opening `DIDL-Lite` tag.
pub open spec fn didl_open() -> Seq<char> {
    "<DIDL-Lite xmlns=\"urn:schemas-upnp-org:metadata-1-0/DIDL-Lite/\" xmlns:dc=\"http://purl.org/dc/elements/1.1/\" xmlns:upnp=\"urn:schemas-upnp-org:metadata-1-0/upnp/\">"@
}

/// The root container's metadata.
pub open spec fn root_container() -> Seq<char> {
    "<container id=\"0\" parentID=\"-1\" restricted=\"1\" childCount=\"1\">\n                <dc:title>Root</dc:title>\n                <upnp:class>object.container.storageFolder</upnp:class>\n            </container>"@
}

/// A request for the root container's own metadata.
pub open spec fn is_root_metadata(object_id: Seq<char>, flag: Seq<char>) -> bool {
    object_id == "0"@ && flag == "BrowseMetadata"@
}

/// A request for the root container's children.
pub open spec fn is_root_children(object_id: Seq<char>, flag: Seq<char>) -> bool {
    object_id == "0"@ && flag == "BrowseDirectChildren"@
}

/// The DIDL-Lite document: the root's metadata, every item of the library
/// (a flat list under the root), or nothing for any other request.
pub open spec fn didl_document(
    object_id: Seq<char>,
    flag: Seq<char>,
    items: Seq<MediaItem>,
    c: ConfigView,
    local_ip: Seq<char>,
) -> Seq<char> {
    didl_open() + (if is_root_metadata(object_id, flag) {
        root_container()
    } else if is_root_children(object_id, flag) {
        item_entries(items, c, local_ip)
    } else {
        Seq::empty()
    }) + "</DIDL-Lite>"@
}

/// The number of objects the answer lists.
pub open spec fn returned_count(object_id: Seq<char>, flag: Seq<char>, n: nat) -> nat {
    if is_root_metadata(object_id, flag) {
        1
    } else if is_root_children(object_id, flag) {
        n
    } else {
        0
    }
}

/// `s` with `&`, `<`, `>` and `"` written as XML entities.
pub open spec fn escape_xml(s: Seq<char>) -> Seq<char> {
    replace_all(
        replace_all(replace_all(replace_all(s, "&"@, "&amp;"@), "<"@, "&lt;"@), ">"@, "&gt;"@),
        "\""@,
        "&quot;"@,
    )
}

/// The `BrowseResponse` envelope around an escaped DIDL-Lite document.
pub open spec fn browse_envelope(result: Seq<char>, count: nat, update_id: u32) -> Seq<char> {
    "<?xml version=\"1.0\" encoding=\"utf-8\"?>\n<s:Envelope xmlns:s=\"http://schemas.xmlsoap.org/soap/envelope/\" s:encodingStyle=\"http://schemas.xmlsoap.org/soap/encoding/\">\n    <s:Body>\n        <u:BrowseResponse xmlns:u=\"urn:schemas-upnp-org:service:ContentDirectory:1\">\n            <Result>"@ + result + "</Result>\n            <NumberReturned>"@ + decimal(count) + "</NumberReturned>\n            <TotalMatches>"@ + decimal(count) + "</TotalMatches>\n            <UpdateID>"@ + decimal(
        update_id as nat,
    ) + "</UpdateID>\n        </u:BrowseResponse>\n    </s:Body>\n</s:Envelope>"@
}

/// The answer to a `Browse` request with body `body` from a client with this
/// user agent, the items listed in the library's order.
pub open spec fn browse_answer(state: AppState, body: Seq<char>, user_agent: Seq<char>, local_ip: Seq<char>) -> Seq<char> {
    let object_id = object_id_of(body);
    let flag = browse_flag_of(body);
    let items = state.library.values();
    let c = user_agent_renderer(state.renderers@, state.default_renderer, user_agent);
    browse_envelope(
        escape_xml(didl_document(object_id, flag, items, c, local_ip)),
        returned_count(object_id, flag, items.len()),
        state.system_update_id,
    )
}

/// The protocol info of an item for a renderer.
fn item_protocol_info_exec(item: &MediaItem, renderer: &RendererConfiguration) -> (r: String)
    ensures
        r@ == item_protocol_info(*item, renderer@),
{
    let transcode = !renderer.is_compatible(item);
    let mime = if transcode {
        string_from("video/mpeg")
    } else {
        item.mime_type.clone()
    };
    let features = get_dlna_org_pn_flags(mime.as_str(), renderer, transcode);
    let mut info = string_from("http-get:*:");
    push_str(&mut info, mime.as_str());
    let fv = chars_of(features.as_str());
    if fv.len() > 0 {
        push_str(&mut info, ":");
        push_str(&mut info, features.as_str());
    }
    info
}

/// Appends the DIDL-Lite element of `item` to `out`.
fn push_item_entry(out: &mut String, item: &MediaItem, renderer: &RendererConfiguration, local_ip: &str)
    ensures
        final(out)@ == old(out)@ + item_entry(*item, renderer@, local_ip@),
{
    let info = item_protocol_info_exec(item, renderer);
    push_str(out, "<item id=\"");
    push_str(out, item.id.as_str());
    push_str(out, "\" parentID=\"0\" restricted=\"1\">\n                    <dc:title>");
    push_str(out, item.title.as_str());
    push_str(out, "</dc:title>\n                    <upnp:class>object.item.videoItem</upnp:class>\n                    <res protocolInfo=\"");
    push_str(out, info.as_str());
    push_str(out, "\" size=\"");
    push_decimal(out, item.size);
    push_str(out, "\">");
    push_str(out, "http://");
    push_str(out, local_ip);
    push_str(out, ":3000/stream/");
    push_str(out, item.id.as_str());
    push_str(out, "</res>\n                </item>");
    assert(out@ =~= old(out)@ + item_entry(*item, renderer@, local_ip@));
}

/// The answer to a `Browse` request: a flat listing of the library under the
/// root container, the DIDL-Lite document escaped inside the SOAP envelope.
pub fn browse_response(state: &AppState, body: &str, user_agent: &str, local_ip: &str) -> (r: String)
    ensures
        r@ == browse_answer(*state, body@, user_agent@, local_ip@),
{
    proof {
        reveal_strlit("<ObjectID>");
        reveal_strlit("</ObjectID>");
        reveal_strlit("<BrowseFlag>");
        reveal_strlit("</BrowseFlag>");
        lemma_tags_separate("<ObjectID>"@, "</ObjectID>"@);
        lemma_tags_separate("<BrowseFlag>"@, "</BrowseFlag>"@);
    }
    let b = chars_of(body);
    let object_id = request_field_exec(b.as_slice(), "<ObjectID>", "</ObjectID>", "0");
    let flag = request_field_exec(
        b.as_slice(),
        "<BrowseFlag>",
        "</BrowseFlag>",
        "BrowseDirectChildren",
    );
    let renderer = state.detect_renderer(user_agent);
    let ghost c = renderer@;
    let is_zero = str_eq(object_id.as_str(), "0");
    let metadata = is_zero && str_eq(flag.as_str(), "BrowseMetadata");
    let children = is_zero && str_eq(flag.as_str(), "BrowseDirectChildren");
    let mut didl = string_from("<DIDL-Lite xmlns=\"urn:schemas-upnp-org:metadata-1-0/DIDL-Lite/\" xmlns:dc=\"http://purl.org/dc/elements/1.1/\" xmlns:upnp=\"urn:schemas-upnp-org:metadata-1-0/upnp/\">");
    let ghost start = didl@;
    let mut count: u64 = 0;
    let ghost items = state.library.values();
    if metadata {
        push_str(&mut didl, "<container id=\"0\" parentID=\"-1\" restricted=\"1\" childCount=\"1\">\n                <dc:title>Root</dc:title>\n                <upnp:class>object.container.storageFolder</upnp:class>\n            </container>");
        count = 1;
    } else if children {
        let values = state.library.values_slice();
        let mut i: usize = 0;
        assert(items.take(0) =~= Seq::<MediaItem>::empty());
        while i < values.len()
            invariant
                i <= values@.len(),
                values@.len() == items.len(),
                c == renderer@,
                forall|k: int| 0 <= k < values@.len() ==> *#[trigger] values@[k] == items[k],
                didl@ == start + item_entries(items.take(i as int), c, local_ip@),
            decreases values.len() - i,
        {
            assert(items.take(i + 1).drop_last() =~= items.take(i as int));
            assert(items.take(i + 1).last() == items[i as int]);
            push_item_entry(&mut didl, values[i], renderer, local_ip);
            i += 1;
            assert(didl@ =~= start + item_entries(items.take(i as int), c, local_ip@));
        }
        assert(items.take(items.len() as int) =~= items);
        count = state.library.len() as u64;
        proof {
            use_type_invariant(&state.library);
            state.library.lemma_entries();
        }
    }
    push_str(&mut didl, "</DIDL-Lite>");
    assert(didl@ =~= didl_document(object_id@, flag@, items, c, local_ip@));
    assert(count == returned_count(object_id@, flag@, items.len()));
    proof {
        reveal_strlit("&");
        reveal_strlit("<");
        reveal_strlit(">");
        reveal_strlit("\"");
    }
    let e1 = replace_str(didl.as_str(), "&", "&amp;");
    let e2 = replace_str(e1.as_str(), "<", "&lt;");
    let e3 = replace_str(e2.as_str(), ">", "&gt;");
    let escaped = replace_str(e3.as_str(), "\"", "&quot;");
    let mut out = string_from("<?xml version=\"1.0\" encoding=\"utf-8\"?>\n<s:Envelope xmlns:s=\"http://schemas.xmlsoap.org/soap/envelope/\" s:encodingStyle=\"http://schemas.xmlsoap.org/soap/encoding/\">\n    <s:Body>\n        <u:BrowseResponse xmlns:u=\"urn:schemas-upnp-org:service:ContentDirectory:1\">\n            <Result>");
    push_str(&mut out, escaped.as_str());
    push_str(&mut out, "</Result>\n            <NumberReturned>");
    push_decimal(&mut out, count);
    push_str(&mut out, "</NumberReturned>\n            <TotalMatches>");
    push_decimal(&mut out, count);
    push_str(&mut out, "</TotalMatches>\n            <UpdateID>");
    push_decimal(&mut out, state.system_update_id as u64);
    push_str(&mut out, "</UpdateID>\n        </u:BrowseResponse>\n    </s:Body>\n</s:Envelope>");
    assert(out@ =~= browse_answer(*state, body@, user_agent@, local_ip@));
    out
}

/// Answers a ContentDirectory request: only `Browse` is supported.
pub fn content_directory_control(
    state: &AppState,
    soap_action: &str,
    body: &str,
    user_agent: &str,
    local_ip: &str,
) -> (r: Result<String, AppError>)
    ensures
        contains(soap_action@, "Browse"@) ==> (r matches Ok(answer) && answer@ == browse_answer(
            *state,
            body@,
            user_agent@,
            local_ip@,
        )),
        !contains(soap_action@, "Browse"@) ==> (r matches Err(AppError::BadRequest(m)) && m@
            == unsupported_action()),
{
    let a = chars_of(soap_action);
    let p = chars_of("Browse");
    if crate::text::contains_exec(a.as_slice(), p.as_slice()) {
        Ok(browse_response(state, body, user_agent, local_ip))
    } else {
        Err(unsupported_action_error())
    }
}

// ---------------------------------------------------------------------------
// Laws
// ---------------------------------------------------------------------------

/// Replacing occurrences of a pattern by a text without `ch` adds no `ch`.
pub proof fn lemma_replace_keeps_absent(s: Seq<char>, p: Seq<char>, r: Seq<char>, ch: char)
    requires
        !s.contains(ch),
        !r.contains(ch),
    ensures
        !replace_all(s, p, r).contains(ch),
    decreases s.len(),
{
    if s.len() == 0 || p.len() == 0 {
    } else if starts_with(s, p) {
        lemma_replace_keeps_absent(s.skip(p.len() as int), p, r, ch);
        let rest = replace_all(s.skip(p.len() as int), p, r);
        assert forall|i: int| 0 <= i < (r + rest).len() implies (r + rest)[i] != ch by {
            if i < r.len() {
                assert((r + rest)[i] == r[i]);
            } else {
                assert((r + rest)[i] == rest[i - r.len()]);
            }
        }
    } else {
        lemma_replace_keeps_absent(s.skip(1), p, r, ch);
        let rest = replace_all(s.skip(1), p, r);
        assert forall|i: int| 0 <= i < (seq![s[0]] + rest).len() implies (seq![s[0]] + rest)[i] != ch by {
            if i == 0 {
                assert(s[0] != ch);
            } else {
                assert((seq![s[0]] + rest)[i] == rest[i - 1]);
                assert(s.skip(1).contains(ch) ==> s.contains(ch));
            }
        }
    }
}

/// Replacing every `ch` by a text without `ch` leaves no `ch`.
pub proof fn lemma_replace_removes(s: Seq<char>, ch: char, r: Seq<char>)
    requires
        !r.contains(ch),
    ensures
        !replace_all(s, seq![ch], r).contains(ch),
    decreases s.len(),
{
    let p = seq![ch];
    if s.len() == 0 {
    } else if starts_with(s, p) {
        lemma_replace_removes(s.skip(1), ch, r);
        let rest = replace_all(s.skip(1), p, r);
        assert forall|i: int| 0 <= i < (r + rest).len() implies (r + rest)[i] != ch by {
            if i < r.len() {
                assert((r + rest)[i] == r[i]);
            } else {
                assert((r + rest)[i] == rest[i - r.len()]);
            }
        }
    } else {
        assert(s.take(1) =~= seq![s[0]]);
        lemma_replace_removes(s.skip(1), ch, r);
        let rest = replace_all(s.skip(1), p, r);
        assert forall|i: int| 0 <= i < (seq![s[0]] + rest).len() implies (seq![s[0]] + rest)[i] != ch by {
            if i > 0 {
                assert((seq![s[0]] + rest)[i] == rest[i - 1]);
            }
        }
    }
}

/// The escaped DIDL-Lite document holds no `<`, `>` or `"`: nothing in it can
/// end the `Result` element that carries it.
pub proof fn lemma_escaped_has_no_markup(s: Seq<char>)
    ensures
        !escape_xml(s).contains('<'),
        !escape_xml(s).contains('>'),
        !escape_xml(s).contains('"'),
{
    reveal_strlit("&");
    reveal_strlit("<");
    reveal_strlit(">");
    reveal_strlit("\"");
    reveal_strlit("&amp;");
    reveal_strlit("&lt;");
    reveal_strlit("&gt;");
    reveal_strlit("&quot;");
    let a = replace_all(s, "&"@, "&amp;"@);
    assert("<"@ =~= seq!['<']);
    assert(">"@ =~= seq!['>']);
    assert("\""@ =~= seq!['"']);
    assert(!"&lt;"@.contains('<'));
    assert(!"&gt;"@.contains('<'));
    assert(!"&gt;"@.contains('>'));
    assert(!"&quot;"@.contains('<'));
    assert(!"&quot;"@.contains('>'));
    assert(!"&quot;"@.contains('"'));
    let b = replace_all(a, "<"@, "&lt;"@);
    lemma_replace_removes(a, '<', "&lt;"@);
    let c = replace_all(b, ">"@, "&gt;"@);
    lemma_replace_keeps_absent(b, ">"@, "&gt;"@, '<');
    lemma_replace_removes(b, '>', "&gt;"@);
    lemma_replace_keeps_absent(c, "\""@, "&quot;"@, '<');
    lemma_replace_keeps_absent(c, "\""@, "&quot;"@, '>');
    lemma_replace_removes(c, '"', "&quot;"@);
}

// ---------------------------------------------------------------------------
// Undoing the escape
// ---------------------------------------------------------------------------

/// `s` with the entities `&lt;`, `&gt;`, `&quot;` and then `&amp;` written
/// back as the characters they stand for.
pub open spec fn unescape_xml(s: Seq<char>) -> Seq<char> {
    replace_all(
        replace_all(replace_all(replace_all(s, "&lt;"@, "<"@), "&gt;"@, ">"@), "&quot;"@, "\""@),
        "&amp;"@,
        "&"@,
    )
}

/// The pieces `f(c)` of the characters of `s`, joined.
spec fn joined(s: Seq<char>, f: spec_fn(char) -> Seq<char>) -> Seq<char>
    decreases s.len(),
{
    if s.len() == 0 {
        Seq::<char>::empty()
    } else {
        f(s[0]) + joined(s.skip(1), f)
    }
}

/// No occurrence of `p` starts inside `q`, whatever follows `q`.
spec fn no_match_piece(q: Seq<char>, p: Seq<char>) -> bool {
    &&& q.len() > 0
    &&& p.len() > 0
    &&& (q[0] != p[0] || (q.len() > 1 && p.len() > 1 && q[1] != p[1]))
    &&& !q.skip(1).contains(p[0])
}

proof fn lemma_replace_skips_free(u: Seq<char>, rest: Seq<char>, p: Seq<char>, r: Seq<char>)
    requires
        p.len() > 0,
        !u.contains(p[0]),
    ensures
        replace_all(u + rest, p, r) == u + replace_all(rest, p, r),
    decreases u.len(),
{
    if u.len() == 0 {
        assert(u + rest =~= rest);
    } else {
        let t = u + rest;
        assert(t[0] == u[0]);
        if p.len() <= t.len() {
            assert(t.take(p.len() as int)[0] == t[0]);
        }
        assert(!starts_with(t, p));
        assert(t.skip(1) =~= u.skip(1) + rest);
        assert(!u.skip(1).contains(p[0])) by {
            if u.skip(1).contains(p[0]) {
                let j = choose|j: int| 0 <= j < u.skip(1).len() && u.skip(1)[j] == p[0];
                assert(u[j + 1] == p[0]);
            }
        }
        lemma_replace_skips_free(u.skip(1), rest, p, r);
        assert(seq![u[0]] + (u.skip(1) + replace_all(rest, p, r)) =~= u + replace_all(rest, p, r));
    }
}

proof fn lemma_replace_piece(q: Seq<char>, rest: Seq<char>, p: Seq<char>, r: Seq<char>)
    requires
        no_match_piece(q, p),
    ensures
        replace_all(q + rest, p, r) == q + replace_all(rest, p, r),
{
    let t = q + rest;
    assert(t[0] == q[0]);
    if p.len() <= t.len() {
        if q[0] != p[0] {
            assert(t.take(p.len() as int)[0] == t[0]);
        } else {
            assert(t[1] == q[1]);
            assert(t.take(p.len() as int)[1] == t[1]);
        }
    }
    assert(!starts_with(t, p));
    assert(t.skip(1) =~= q.skip(1) + rest);
    lemma_replace_skips_free(q.skip(1), rest, p, r);
    assert(seq![q[0]] + (q.skip(1) + replace_all(rest, p, r)) =~= q + replace_all(rest, p, r));
}

proof fn lemma_replace_whole(rest: Seq<char>, p: Seq<char>, r: Seq<char>)
    requires
        p.len() > 0,
    ensures
        replace_all(p + rest, p, r) == r + replace_all(rest, p, r),
{
    let t = p + rest;
    assert(t.take(p.len() as int) =~= p);
    assert(t.skip(p.len() as int) =~= rest);
}

/// Replacing `p` by `r` in joined pieces, where each piece either is `p` or
/// holds no occurrence of it, replaces the pieces that are `p`.
proof fn lemma_replace_joined(
    s: Seq<char>,
    f: spec_fn(char) -> Seq<char>,
    g: spec_fn(char) -> Seq<char>,
    p: Seq<char>,
    r: Seq<char>,
)
    requires
        p.len() > 0,
        forall|c: char|
            (#[trigger] f(c) == p && g(c) == r) || (no_match_piece(f(c), p) && g(c) == f(c)),
    ensures
        replace_all(joined(s, f), p, r) == joined(s, g),
    decreases s.len(),
{
    if s.len() == 0 {
    } else {
        lemma_replace_joined(s.skip(1), f, g, p, r);
        let c = s[0];
        if f(c) == p && g(c) == r {
            lemma_replace_whole(joined(s.skip(1), f), p, r);
        } else {
            lemma_replace_piece(f(c), joined(s.skip(1), f), p, r);
        }
    }
}

proof fn lemma_joined_single(s: Seq<char>)
    ensures
        joined(s, |c: char| seq![c]) == s,
    decreases s.len(),
{
    if s.len() > 0 {
        lemma_joined_single(s.skip(1));
        assert(seq![s[0]] + s.skip(1) =~= s);
    }
}

/// The escaped piece of one character after the first `k` escape steps.
spec fn escaped_piece(c: char, k: int) -> Seq<char> {
    if c == '&' && k >= 1 {
        "&amp;"@
    } else if c == '<' && k >= 2 {
        "&lt;"@
    } else if c == '>' && k >= 3 {
        "&gt;"@
    } else if c == '"' && k >= 4 {
        "&quot;"@
    } else {
        seq![c]
    }
}

/// The piece of one character after the first `k` unescape steps.
spec fn unescaped_piece(c: char, k: int) -> Seq<char> {
    if c == '<' && k >= 1 {
        seq![c]
    } else if c == '>' && k >= 2 {
        seq![c]
    } else if c == '"' && k >= 3 {
        seq![c]
    } else if c == '&' && k >= 4 {
        seq![c]
    } else {
        escaped_piece(c, 4)
    }
}

/// Facts about the entity texts that the escape lemmas use.
proof fn lemma_entity_texts()
    ensures
        "&"@ == seq!['&'],
        "<"@ == seq!['<'],
        ">"@ == seq!['>'],
        "\""@ == seq!['"'],
        "&amp;"@ == seq!['&', 'a', 'm', 'p', ';'],
        "&lt;"@ == seq!['&', 'l', 't', ';'],
        "&gt;"@ == seq!['&', 'g', 't', ';'],
        "&quot;"@ == seq!['&', 'q', 'u', 'o', 't', ';'],
{
    reveal_strlit("&");
    reveal_strlit("<");
    reveal_strlit(">");
    reveal_strlit("\"");
    reveal_strlit("&amp;");
    reveal_strlit("&lt;");
    reveal_strlit("&gt;");
    reveal_strlit("&quot;");
    assert("&"@ =~= seq!['&']);
    assert("<"@ =~= seq!['<']);
    assert(">"@ =~= seq!['>']);
    assert("\""@ =~= seq!['"']);
    assert("&amp;"@ =~= seq!['&', 'a', 'm', 'p', ';']);
    assert("&lt;"@ =~= seq!['&', 'l', 't', ';']);
    assert("&gt;"@ =~= seq!['&', 'g', 't', ';']);
    assert("&quot;"@ =~= seq!['&', 'q', 'u', 'o', 't', ';']);
}

/// Escaping a text escapes each of its characters on its own.
proof fn lemma_escape_joined(s: Seq<char>)
    ensures
        escape_xml(s) == joined(s, |c: char| escaped_piece(c, 4)),
{
    lemma_entity_texts();
    let e0 = |c: char| escaped_piece(c, 0);
    let e1 = |c: char| escaped_piece(c, 1);
    let e2 = |c: char| escaped_piece(c, 2);
    let e3 = |c: char| escaped_piece(c, 3);
    let e4 = |c: char| escaped_piece(c, 4);
    assert(e0 =~= |c: char| seq![c]);
    lemma_joined_single(s);
    assert(!"&amp;"@.skip(1).contains('&')) by {
        assert("&amp;"@.skip(1) =~= seq!['a', 'm', 'p', ';']);
    }
    assert(!"&lt;"@.skip(1).contains('&')) by {
        assert("&lt;"@.skip(1) =~= seq!['l', 't', ';']);
    }
    assert(!"&gt;"@.skip(1).contains('&')) by {
        assert("&gt;"@.skip(1) =~= seq!['g', 't', ';']);
    }
    assert(!"&quot;"@.skip(1).contains('&')) by {
        assert("&quot;"@.skip(1) =~= seq!['q', 'u', 'o', 't', ';']);
    }
    assert(!"&amp;"@.skip(1).contains('<'));
    assert(!"&amp;"@.skip(1).contains('>'));
    assert(!"&amp;"@.skip(1).contains('"'));
    assert(!"&lt;"@.skip(1).contains('>'));
    assert(!"&lt;"@.skip(1).contains('"'));
    assert(!"&gt;"@.skip(1).contains('"'));
    // escaping, one character kind at a time
    assert forall|c: char|
        (#[trigger] e0(c) == "&"@ && e1(c) == "&amp;"@) || (no_match_piece(e0(c), "&"@) && e1(c) == e0(c)) by {
        assert(seq![c].skip(1) =~= Seq::<char>::empty());
        if c != '&' {
            assert(seq![c][0] != "&"@[0]);
        }
    }
    lemma_replace_joined(s, e0, e1, "&"@, "&amp;"@);
    assert forall|c: char|
        (#[trigger] e1(c) == "<"@ && e2(c) == "&lt;"@) || (no_match_piece(e1(c), "<"@) && e2(c) == e1(c)) by {
        assert(seq![c].skip(1) =~= Seq::<char>::empty());
    }
    lemma_replace_joined(s, e1, e2, "<"@, "&lt;"@);
    assert forall|c: char|
        (#[trigger] e2(c) == ">"@ && e3(c) == "&gt;"@) || (no_match_piece(e2(c), ">"@) && e3(c) == e2(c)) by {
        assert(seq![c].skip(1) =~= Seq::<char>::empty());
    }
    lemma_replace_joined(s, e2, e3, ">"@, "&gt;"@);
    assert forall|c: char|
        (#[trigger] e3(c) == "\""@ && e4(c) == "&quot;"@) || (no_match_piece(e3(c), "\""@) && e4(c) == e3(c)) by {
        assert(seq![c].skip(1) =~= Seq::<char>::empty());
    }
    lemma_replace_joined(s, e3, e4, "\""@, "&quot;"@);
    assert(e4 =~= |c: char| escaped_piece(c, 4));
}

/// Escaping a concatenation escapes each part.
pub proof fn lemma_escape_concat(a: Seq<char>, b: Seq<char>)
    ensures
        escape_xml(a + b) == escape_xml(a) + escape_xml(b),
{
    lemma_escape_joined(a);
    lemma_escape_joined(b);
    lemma_escape_joined(a + b);
    lemma_joined_concat(a, b, |c: char| escaped_piece(c, 4));
}

proof fn lemma_joined_concat(a: Seq<char>, b: Seq<char>, f: spec_fn(char) -> Seq<char>)
    ensures
        joined(a + b, f) == joined(a, f) + joined(b, f),
    decreases a.len(),
{
    if a.len() == 0 {
        assert(a + b =~= b);
    } else {
        lemma_joined_concat(a.skip(1), b, f);
        assert((a + b).skip(1) =~= a.skip(1) + b);
        assert((a + b)[0] == a[0]);
    }
}

/// Undoing the escape of the `Result` document gives the document back: the
/// entities written for `&`, `<`, `>` and `"` are read back as those
/// characters, and nothing else changes.
pub proof fn lemma_unescape_escape(s: Seq<char>)
    ensures
        unescape_xml(escape_xml(s)) == s,
{
    lemma_entity_texts();
    lemma_escape_joined(s);
    let e4 = |c: char| escaped_piece(c, 4);
    let u1 = |c: char| unescaped_piece(c, 1);
    let u2 = |c: char| unescaped_piece(c, 2);
    let u3 = |c: char| unescaped_piece(c, 3);
    let u4 = |c: char| unescaped_piece(c, 4);
    lemma_joined_single(s);
    assert(u4 =~= |c: char| seq![c]);
    assert(!"&amp;"@.skip(1).contains('&')) by {
        assert("&amp;"@.skip(1) =~= seq!['a', 'm', 'p', ';']);
    }
    assert(!"&lt;"@.skip(1).contains('&')) by {
        assert("&lt;"@.skip(1) =~= seq!['l', 't', ';']);
    }
    assert(!"&gt;"@.skip(1).contains('&')) by {
        assert("&gt;"@.skip(1) =~= seq!['g', 't', ';']);
    }
    assert(!"&quot;"@.skip(1).contains('&')) by {
        assert("&quot;"@.skip(1) =~= seq!['q', 'u', 'o', 't', ';']);
    }
    assert(!"&amp;"@.skip(1).contains('<'));
    assert(!"&amp;"@.skip(1).contains('>'));
    assert(!"&amp;"@.skip(1).contains('"'));
    assert(!"&lt;"@.skip(1).contains('>'));
    assert(!"&lt;"@.skip(1).contains('"'));
    assert(!"&gt;"@.skip(1).contains('"'));
    // unescaping, one entity at a time
    assert forall|c: char|
        (#[trigger] e4(c) == "&lt;"@ && u1(c) == "<"@) || (no_match_piece(e4(c), "&lt;"@) && u1(c) == e4(c)) by {
        assert(seq![c].skip(1) =~= Seq::<char>::empty());
    }
    lemma_replace_joined(s, e4, u1, "&lt;"@, "<"@);
    assert forall|c: char|
        (#[trigger] u1(c) == "&gt;"@ && u2(c) == ">"@) || (no_match_piece(u1(c), "&gt;"@) && u2(c) == u1(c)) by {
        assert(seq![c].skip(1) =~= Seq::<char>::empty());
    }
    lemma_replace_joined(s, u1, u2, "&gt;"@, ">"@);
    assert forall|c: char|
        (#[trigger] u2(c) == "&quot;"@ && u3(c) == "\""@) || (no_match_piece(u2(c), "&quot;"@) && u3(c) == u2(c)) by {
        assert(seq![c].skip(1) =~= Seq::<char>::empty());
    }
    lemma_replace_joined(s, u2, u3, "&quot;"@, "\""@);
    assert forall|c: char|
        (#[trigger] u3(c) == "&amp;"@ && u4(c) == "&"@) || (no_match_piece(u3(c), "&amp;"@) && u4(c) == u3(c)) by {
        assert(seq![c].skip(1) =~= Seq::<char>::empty());
    }
    lemma_replace_joined(s, u3, u4, "&amp;"@, "&"@);
}

// ---------------------------------------------------------------------------
// Every item is listed
// ---------------------------------------------------------------------------

/// `t` occurs in `a + t + b` right after `a`.
proof fn lemma_matches_between(a: Seq<char>, t: Seq<char>, b: Seq<char>)
    ensures
        matches_at(a + t + b, t, a.len() as int),
{
    assert((a + t + b).subrange(a.len() as int, (a.len() + t.len()) as int) =~= t);
}

/// An item's element begins with its opening tag.
proof fn lemma_item_entry_opens(item: MediaItem, c: ConfigView, local_ip: Seq<char>) -> (rest: Seq<char>)
    ensures
        item_entry(item, c, local_ip) == "<item id=\""@ + item.id@ + "\" parentID=\"0\" restricted=\"1\">"@ + rest,
{
    let l1 = "\" parentID=\"0\" restricted=\"1\">\n                    <dc:title>"@;
    let t = "\" parentID=\"0\" restricted=\"1\">"@;
    reveal_strlit("\" parentID=\"0\" restricted=\"1\">\n                    <dc:title>");
    reveal_strlit("\" parentID=\"0\" restricted=\"1\">");
    assert(l1 =~= t + l1.skip(t.len() as int));
    let tail = item.title@ + "</dc:title>\n                    <upnp:class>object.item.videoItem</upnp:class>\n                    <res protocolInfo=\""@ + item_protocol_info(item, c) + "\" size=\""@
        + decimal(item.size as nat) + "\">"@ + stream_url(local_ip, item.id@) + "</res>\n                </item>"@;
    let rest = l1.skip(t.len() as int) + tail;
    assert(item_entry(item, c, local_ip) =~= "<item id=\""@ + item.id@ + t + rest);
    rest
}

/// The elements of the items hold the element of item `k` between the
/// elements before it and those after it.
proof fn lemma_entries_split(items: Seq<MediaItem>, c: ConfigView, local_ip: Seq<char>, k: int) -> (r: (Seq<char>, Seq<char>))
    requires
        0 <= k < items.len(),
    ensures
        item_entries(items, c, local_ip) == r.0 + item_entry(items[k], c, local_ip) + r.1,
    decreases items.len(),
{
    if k == items.len() - 1 {
        let pre = item_entries(items.drop_last(), c, local_ip);
        assert(pre + item_entry(items[k], c, local_ip) =~= pre + item_entry(items[k], c, local_ip)
            + Seq::<char>::empty());
        (pre, Seq::<char>::empty())
    } else {
        let (pre, post) = lemma_entries_split(items.drop_last(), c, local_ip, k);
        assert(items.drop_last()[k] == items[k]);
        let last = item_entry(items.last(), c, local_ip);
        assert(pre + item_entry(items[k], c, local_ip) + post + last =~= pre + item_entry(
            items[k],
            c,
            local_ip,
        ) + (post + last));
        (pre, post + last)
    }
}

/// A `Browse` of the root's children lists every item of the library: the
/// answer holds the (escaped) opening tag of each item's element, and says
/// that as many objects are returned as the library holds.
pub proof fn lemma_browse_lists_every_item(state: AppState, body: Seq<char>, user_agent: Seq<char>, local_ip: Seq<char>)
    requires
        object_id_of(body) == "0"@,
        browse_flag_of(body) == "BrowseDirectChildren"@,
    ensures
        forall|k: int|
            0 <= k < state.library.values().len() ==> exists|p: int|
                matches_at(
                    browse_answer(state, body, user_agent, local_ip),
                    escape_xml(
                        "<item id=\""@ + (#[trigger] state.library.values()[k]).id@
                            + "\" parentID=\"0\" restricted=\"1\">"@,
                    ),
                    p,
                ),
        exists|p: int|
            matches_at(
                browse_answer(state, body, user_agent, local_ip),
                "<NumberReturned>"@ + decimal(state.library.values().len()) + "</NumberReturned>"@,
                p,
            ),
{
    reveal_strlit("0");
    reveal_strlit("BrowseMetadata");
    reveal_strlit("BrowseDirectChildren");
    let items = state.library.values();
    let c = user_agent_renderer(state.renderers@, state.default_renderer, user_agent);
    let object_id = object_id_of(body);
    let flag = browse_flag_of(body);
    assert("BrowseDirectChildren"@[6] != "BrowseMetadata"@[6]);
    assert(!is_root_metadata(object_id, flag));
    assert(is_root_children(object_id, flag));
    let doc = didl_document(object_id, flag, items, c, local_ip);
    let close = "</DIDL-Lite>"@;
    assert(doc == didl_open() + item_entries(items, c, local_ip) + close);
    let head = "<?xml version=\"1.0\" encoding=\"utf-8\"?>\n<s:Envelope xmlns:s=\"http://schemas.xmlsoap.org/soap/envelope/\" s:encodingStyle=\"http://schemas.xmlsoap.org/soap/encoding/\">\n    <s:Body>\n        <u:BrowseResponse xmlns:u=\"urn:schemas-upnp-org:service:ContentDirectory:1\">\n            <Result>"@;
    let n = items.len();
    let after_result = "</Result>\n            <NumberReturned>"@ + decimal(n) + "</NumberReturned>\n            <TotalMatches>"@ + decimal(n) + "</TotalMatches>\n            <UpdateID>"@ + decimal(
        state.system_update_id as nat,
    ) + "</UpdateID>\n        </u:BrowseResponse>\n    </s:Body>\n</s:Envelope>"@;
    let answer = browse_answer(state, body, user_agent, local_ip);
    assert(answer =~= head + escape_xml(doc) + after_result);
    assert forall|k: int| 0 <= k < items.len() implies exists|p: int|
        matches_at(
            answer,
            escape_xml("<item id=\""@ + (#[trigger] items[k]).id@ + "\" parentID=\"0\" restricted=\"1\">"@),
            p,
        ) by {
        let tag = "<item id=\""@ + items[k].id@ + "\" parentID=\"0\" restricted=\"1\">"@;
        let (pre, post) = lemma_entries_split(items, c, local_ip, k);
        let rest = lemma_item_entry_opens(items[k], c, local_ip);
        let before = didl_open() + pre;
        let after = rest + post + close;
        assert(doc =~= before + tag + after);
        lemma_escape_concat(before + tag, after);
        lemma_escape_concat(before, tag);
        let a = head + escape_xml(before);
        let b = escape_xml(after) + after_result;
        assert(answer =~= a + escape_xml(tag) + b);
        lemma_matches_between(a, escape_xml(tag), b);
    }
    let r1 = "</Result>\n            <NumberReturned>"@;
    let r2 = "</NumberReturned>\n            <TotalMatches>"@;
    let nr = "<NumberReturned>"@;
    let cnr = "</NumberReturned>"@;
    reveal_strlit("</Result>\n            <NumberReturned>");
    reveal_strlit("</NumberReturned>\n            <TotalMatches>");
    reveal_strlit("<NumberReturned>");
    reveal_strlit("</NumberReturned>");
    assert(r1 =~= r1.take(r1.len() - nr.len()) + nr);
    assert(r2 =~= cnr + r2.skip(cnr.len() as int));
    let a = head + escape_xml(doc) + r1.take(r1.len() - nr.len());
    let b = r2.skip(cnr.len() as int) + decimal(n) + "</TotalMatches>\n            <UpdateID>"@ + decimal(
        state.system_update_id as nat,
    ) + "</UpdateID>\n        </u:BrowseResponse>\n    </s:Body>\n</s:Envelope>"@;
    assert(answer =~= a + (nr + decimal(n) + cnr) + b);
    lemma_matches_between(a, nr + decimal(n) + cnr, b);
}

} // verus!

use rust_dlna_server::error::AppError;
use rust_dlna_server::media_item::MediaItem;
use rust_dlna_server::renderer::RendererConfiguration;
use rust_dlna_server::soap::{
    browse_response, connection_manager_control, content_directory_control,
    media_receiver_registrar_control,
};
use rust_dlna_server::ssdp::{
    announced_targets, classify_packet, description_url, notify_message, read_location,
    read_search_target, search_answer_targets, search_response, usn_for, PacketKind,
};
use rust_dlna_server::state::AppState;
use std::path::PathBuf;

fn escape(s: &str) -> String {
    s.replace("&", "&amp;").replace("<", "&lt;").replace(">", "&gt;").replace("\"", "&quot;")
}

fn envelope(didl: &str, n: usize, update: u32) -> String {
    format!(
        r#"<?xml version="1.0" encoding="utf-8"?>
<s:Envelope xmlns:s="http://schemas.xmlsoap.org/soap/envelope/" s:encodingStyle="http://schemas.xmlsoap.org/soap/encoding/">
    <s:Body>
        <u:BrowseResponse xmlns:u="urn:schemas-upnp-org:service:ContentDirectory:1">
            <Result>{}</Result>
            <NumberReturned>{}</NumberReturned>
            <TotalMatches>{}</TotalMatches>
            <UpdateID>{}</UpdateID>
        </u:BrowseResponse>
    </s:Body>
</s:Envelope>"#,
        escape(didl),
        n,
        n,
        update
    )
}

const DIDL_OPEN: &str = r#"<DIDL-Lite xmlns="urn:schemas-upnp-org:metadata-1-0/DIDL-Lite/" xmlns:dc="http://purl.org/dc/elements/1.1/" xmlns:upnp="urn:schemas-upnp-org:metadata-1-0/upnp/">"#;

fn state_with_items() -> AppState {
    let mut state = AppState::new(
        "uuid-1".to_string(),
        PathBuf::from("media"),
        vec![RendererConfiguration::parse("RendererName = LG\nUserAgentSearch = LG\nSupported = f:mp4 m:video/mp4")],
        RendererConfiguration::default(),
    );
    let mut a = MediaItem::new("id-a".to_string(), PathBuf::from("/m/a.mp4"), "A & B".to_string(), "video/mp4".to_string(), 1234);
    a.container = Some("mp4".to_string());
    state.add_item(a);
    state
}

#[test]
fn protocol_info_answer() {
    let body = connection_manager_control("\"urn:schemas-upnp-org:service:ConnectionManager:1#GetProtocolInfo\"").unwrap();
    assert!(body.contains("<Source>http-get:*:video/mpeg:DLNA.ORG_PN=MPEG_PS_PAL;DLNA.ORG_OP=01;DLNA.ORG_CI=0;DLNA.ORG_FLAGS=01700000000000000000000000000000,http-get:*:video/mpeg:DLNA.ORG_PN=MPEG_PS_NTSC;"));
    assert!(body.contains("http-get:*:video/x-matroska:*,http-get:*:audio/mpeg:DLNA.ORG_PN=MP3;"));
    assert!(body.contains("<Sink></Sink>"));
    assert!(body.starts_with("<?xml version=\"1.0\" encoding=\"utf-8\"?>\n<s:Envelope"));
}

#[test]
fn unknown_actions_are_bad_requests() {
    match connection_manager_control("GetCurrentConnectionIDs") {
        Err(AppError::BadRequest(m)) => assert_eq!(m, "Unknown or Unsupported SOAP Action"),
        _ => panic!("expected a bad request"),
    }
    assert!(matches!(media_receiver_registrar_control("RegisterDevice"), Err(AppError::BadRequest(_))));
    let state = state_with_items();
    assert!(matches!(content_directory_control(&state, "Search", "", "", "1.2.3.4"), Err(AppError::BadRequest(_))));
}

#[test]
fn registrar_always_authorizes() {
    let a = media_receiver_registrar_control("#IsAuthorized").unwrap();
    let b = media_receiver_registrar_control("#IsValidated").unwrap();
    assert_eq!(a, b);
    assert!(a.contains("<Result>1</Result>"));
}

#[test]
fn browse_root_metadata() {
    let state = state_with_items();
    let body = "<ObjectID>0</ObjectID><BrowseFlag>BrowseMetadata</BrowseFlag>";
    let root = r#"<container id="0" parentID="-1" restricted="1" childCount="1">
                <dc:title>Root</dc:title>
                <upnp:class>object.container.storageFolder</upnp:class>
            </container>"#;
    let expected = envelope(&format!("{}{}</DIDL-Lite>", DIDL_OPEN, root), 1, 2);
    assert_eq!(browse_response(&state, body, "", "10.0.0.2"), expected);
}

#[test]
fn browse_children_lists_every_item() {
    let state = state_with_items();
    let body = "<s:Body><ObjectID>0</ObjectID></s:Body>";
    let item = format!(
        r#"<item id="{}" parentID="0" restricted="1">
                    <dc:title>{}</dc:title>
                    <upnp:class>object.item.videoItem</upnp:class>
                    <res protocolInfo="{}" size="{}">{}</res>
                </item>"#,
        "id-a",
        "A & B",
        "http-get:*:video/mp4:DLNA.ORG_PN=AVC_MP4_BL_CIF15_AAC_520;DLNA.ORG_OP=01;DLNA.ORG_CI=0;DLNA.ORG_FLAGS=01700000000000000000000000000000",
        1234,
        "http://10.0.0.2:3000/stream/id-a"
    );
    let expected = envelope(&format!("{}{}</DIDL-Lite>", DIDL_OPEN, item), 1, 2);
    assert_eq!(browse_response(&state, body, "LG webOS", "10.0.0.2"), expected);
    let via_control = content_directory_control(&state, "#Browse", body, "LG webOS", "10.0.0.2").unwrap();
    assert_eq!(via_control, expected);
}

#[test]
fn browse_children_transcodes_for_unknown_renderer() {
    let state = state_with_items();
    let out = browse_response(&state, "", "Unknown", "10.0.0.2");
    assert!(out.contains("protocolInfo=&quot;http-get:*:video/mpeg:DLNA.ORG_PN=*;DLNA.ORG_OP=00;DLNA.ORG_CI=1;"));
    assert!(out.contains("<NumberReturned>1</NumberReturned>"));
    assert!(out.contains("A &amp; B"));
}

#[test]
fn browse_other_objects_are_empty() {
    let state = state_with_items();
    let out = browse_response(&state, "<ObjectID>64</ObjectID>", "", "10.0.0.2");
    assert_eq!(out, envelope(&format!("{}</DIDL-Lite>", DIDL_OPEN), 0, 2));
}

#[test]
fn escaped_result_has_no_markup() {
    let state = state_with_items();
    let out = browse_response(&state, "", "", "h");
    let start = out.find("<Result>").unwrap() + 8;
    let end = out.find("</Result>").unwrap();
    let inner = &out[start..end];
    assert!(!inner.contains('<') && !inner.contains('>') && !inner.contains('"'));
}

#[test]
fn packet_classification() {
    assert_eq!(classify_packet("M-SEARCH * HTTP/1.1\r\n"), PacketKind::Search);
    assert_eq!(classify_packet("NOTIFY * HTTP/1.1\r\n"), PacketKind::Announcement);
    assert_eq!(classify_packet("HTTP/1.1 200 OK\r\n"), PacketKind::Announcement);
    assert_eq!(classify_packet("m-search"), PacketKind::Other);
}

#[test]
fn search_target_reading() {
    let msg = "M-SEARCH * HTTP/1.1\r\nHOST: 239.255.255.250:1900\r\nst:  ssdp:all \r\nMX: 2\r\n\r\n";
    assert_eq!(read_search_target(msg), Some("ssdp:all".to_string()));
    assert_eq!(read_search_target("M-SEARCH * HTTP/1.1\r\nMX: 2\r\n"), Some("".to_string()));
    assert_eq!(read_search_target("M-SEARCH\nſt:x"), Some(":x".to_string()));
}

#[test]
fn location_reading() {
    let msg = "NOTIFY * HTTP/1.1\r\nLocation: http://192.168.1.9:8080/desc.xml\r\nNT: upnp:rootdevice\r\n";
    assert_eq!(read_location(msg), Some(Some("http://192.168.1.9:8080/desc.xml".to_string())));
    assert_eq!(read_location("NOTIFY * HTTP/1.1\r\n"), Some(None));
}

#[test]
fn search_answers() {
    assert_eq!(search_answer_targets("ssdp:all", "u1").len(), 6);
    assert_eq!(search_answer_targets("ssdp:all", "u1"), announced_targets("u1"));
    assert_eq!(announced_targets("u1")[5], "uuid:u1");
    assert_eq!(search_answer_targets("upnp:rootdevice", "u1"), vec!["upnp:rootdevice".to_string()]);
    assert_eq!(search_answer_targets("uuid:u1", "u1"), vec!["uuid:u1".to_string()]);
    assert!(search_answer_targets("urn:other", "u1").is_empty());
}

#[test]
fn usn_and_messages() {
    assert_eq!(usn_for("u1", "uuid:u1"), "uuid:u1");
    assert_eq!(usn_for("u1", "upnp:rootdevice"), "uuid:u1::upnp:rootdevice");
    assert_eq!(description_url("192.168.1.2", 3000), "http://192.168.1.2:3000/description.xml");
    let date = "Tue, 1 Jul 2003 10:52:37 +0000";
    let expected = format!(
        "HTTP/1.1 200 OK\r\nCACHE-CONTROL: max-age=1800\r\nDATE: {}\r\nEXT:\r\nLOCATION: {}\r\nSERVER: UPnP/1.0 DLNADOC/1.50 Rust-DLNA/1.0\r\nST: {}\r\nUSN: {}\r\nBOOTID.UPNP.ORG: 0\r\nCONFIGID.UPNP.ORG: 1\r\n\r\n",
        date, "http://192.168.1.2:3000/description.xml", "upnp:rootdevice", "uuid:u1::upnp:rootdevice"
    );
    assert_eq!(search_response(date, "u1", 3000, "upnp:rootdevice", "192.168.1.2"), expected);
    let notify = format!(
        "NOTIFY * HTTP/1.1\r\nHOST: 239.255.255.250:1900\r\nCACHE-CONTROL: max-age=1800\r\nLOCATION: {}\r\nNT: {}\r\nNTS: ssdp:alive\r\nSERVER: UPnP/1.0 DLNADOC/1.50 Rust-DLNA/1.0\r\nUSN: {}\r\nBOOTID.UPNP.ORG: {}\r\nCONFIGID.UPNP.ORG: 1\r\n\r\n",
        "http://192.168.1.2:3000/description.xml", "uuid:u1", "uuid:u1", 1
    );
    assert_eq!(notify_message("u1", 3000, "uuid:u1", "192.168.1.2", 1), notify);
}

#[test]
fn error_answers() {
    let e = AppError::Internal(anyhow::Error::msg("secret detail"));
    assert_eq!(e.status_code(), 500);
    assert_eq!(e.message(), "Internal Server Error");
    let n = AppError::NotFound("Media Not Found".to_string());
    assert_eq!(n.status_code(), 404);
    assert_eq!(n.message(), "Media Not Found");
    assert_eq!(AppError::BadRequest("b".to_string()).status_code(), 400);
}

#[test]
fn unescaped_result_is_the_didl_document() {
    let state = state_with_items();
    let out = browse_response(&state, "", "", "h");
    let start = out.find("<Result>").unwrap() + 8;
    let end = out.find("</Result>").unwrap();
    let back = out[start..end]
        .replace("&lt;", "<")
        .replace("&gt;", ">")
        .replace("&quot;", "\"")
        .replace("&amp;", "&");
    assert!(back.starts_with(DIDL_OPEN));
    assert!(back.ends_with("</DIDL-Lite>"));
    assert!(back.contains("<dc:title>A & B</dc:title>"));
}

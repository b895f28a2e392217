use rust_dlna_server::dlna_helper::get_dlna_org_pn_flags;
use rust_dlna_server::media_item::MediaItem;
use rust_dlna_server::registry::{IpAddress, RegisteredDevice, UpnpDetails};
use rust_dlna_server::renderer::RendererConfiguration;
use rust_dlna_server::state::AppState;
use rust_dlna_server::streaming::{plan_stream, stream_headers};
use std::path::PathBuf;
use std::time::SystemTime;

const FLAGS: &str = "01700000000000000000000000000000";

fn cfg(text: &str) -> RendererConfiguration {
    RendererConfiguration::parse(text)
}

fn details() -> UpnpDetails {
    UpnpDetails {
        friendly_name: "TV".to_string(),
        manufacturer: "LG".to_string(),
        model_name: "OLED".to_string(),
        model_number: "55".to_string(),
        model_description: "".to_string(),
        manufacturer_url: "".to_string(),
        model_url: "".to_string(),
        address: "192.168.1.5".to_string(),
        udn: "uuid:1".to_string(),
    }
}

#[test]
fn flags_for_untouched_mp4() {
    let r = cfg("");
    assert_eq!(
        get_dlna_org_pn_flags("video/mp4", &r, false),
        format!("DLNA.ORG_PN=AVC_MP4_BL_CIF15_AAC_520;DLNA.ORG_OP=01;DLNA.ORG_CI=0;DLNA.ORG_FLAGS={}", FLAGS)
    );
}

#[test]
fn flags_for_transcoded_stream() {
    let r = cfg("SeekByTime = true");
    assert_eq!(
        get_dlna_org_pn_flags("video/mpeg", &r, true),
        format!("DLNA.ORG_PN=*;DLNA.ORG_OP=10;DLNA.ORG_CI=1;DLNA.ORG_FLAGS={}", FLAGS)
    );
    let n = cfg("SeekByTime = false");
    assert!(get_dlna_org_pn_flags("video/mpeg", &n, true).contains("DLNA.ORG_OP=00;"));
}

#[test]
fn flags_seek_modes_for_untouched_content() {
    assert!(get_dlna_org_pn_flags("video/mp4", &cfg("SeekByTime = true"), false).contains("OP=11;"));
    assert!(get_dlna_org_pn_flags("video/mp4", &cfg("SeekByTime = exclusive"), false).contains("OP=10;"));
    assert!(get_dlna_org_pn_flags("video/mp4", &cfg("SeekByTime = exclusive"), true).contains("OP=10;"));
}

#[test]
fn flags_native_profiles() {
    let r = cfg("");
    let pn = |m: &str| get_dlna_org_pn_flags(m, &r, false);
    assert!(pn("video/mp2t").starts_with("DLNA.ORG_PN=MPEG_TS_SD_NA;"));
    assert!(pn("video/vnd.dlna.mpeg-tts").starts_with("DLNA.ORG_PN=MPEG_TS_SD_NA;"));
    assert!(pn("video/mkv").starts_with("DLNA.ORG_PN=AVC_MKV_MP_HD_AAC_MULT5;"));
    assert!(pn("audio/mpeg").starts_with("DLNA.ORG_PN=MP3;"));
    assert!(pn("audio/aac").starts_with("DLNA.ORG_PN=AAC_ISO;"));
    assert!(pn("audio/L16").starts_with("DLNA.ORG_PN=LPCM;"));
    assert!(pn("image/png").starts_with("DLNA.ORG_PN=*;"));
}

#[test]
fn flags_disabled_or_without_profile_name() {
    assert_eq!(get_dlna_org_pn_flags("video/mp4", &cfg("SendDLNAOrgFlags = false"), false), "");
    assert_eq!(
        get_dlna_org_pn_flags("video/mp4", &cfg("DLNAOrgPN = false"), true),
        format!("DLNA.ORG_OP=00;DLNA.ORG_CI=1;DLNA.ORG_FLAGS={}", FLAGS)
    );
}

#[test]
fn flags_apply_profile_changes() {
    let r = cfg("DLNAProfileChanges = MP3=MP3_X|*=AVC_TS_NA_ISO");
    assert!(get_dlna_org_pn_flags("audio/mpeg", &r, false).starts_with("DLNA.ORG_PN=MP3_X;"));
    assert!(get_dlna_org_pn_flags("video/mpeg", &r, true).starts_with("DLNA.ORG_PN=AVC_TS_NA_ISO;"));
}

#[test]
fn stream_plan_direct_and_transcoded() {
    let r = cfg("Supported = f:mkv v:h264 m:video/x-matroska");
    let mut it = MediaItem::new("i".to_string(), PathBuf::from("/m/a.mkv"), "A".to_string(), "video/x-matroska".to_string(), 1);
    it.container = Some("matroska".to_string());
    let p = plan_stream(&r, &it);
    assert!(p.transcode);
    assert_eq!(p.mime_type, "video/mpeg");
    assert_eq!(p.features, format!("DLNA.ORG_PN=*;DLNA.ORG_OP=00;DLNA.ORG_CI=1;DLNA.ORG_FLAGS={}", FLAGS));
    let h = stream_headers(&p);
    assert_eq!(h[0], ("Content-Type".to_string(), "video/mpeg".to_string()));
    assert_eq!(h[1], ("Transfer-Encoding".to_string(), "chunked".to_string()));
    assert_eq!(h.len(), 4);
    it.container = Some("mkv".to_string());
    let d = plan_stream(&r, &it);
    assert!(!d.transcode);
    assert_eq!(d.mime_type, "video/x-matroska");
    assert!(d.features.starts_with("DLNA.ORG_PN=AVC_MKV_MP_HD_AAC_MULT5;DLNA.ORG_OP=01;DLNA.ORG_CI=0;"));
    let hd = stream_headers(&d);
    assert_eq!(hd.len(), 3);
    assert_eq!(hd[2], ("realTimeInfo.dlna.org".to_string(), "DLNA.ORG_TLAG=*".to_string()));
}

#[test]
fn renderer_detection_first_match_else_default() {
    let lg = cfg("RendererName = LG\nUserAgentSearch = LG");
    let lg2 = cfg("RendererName = LG2\nUserAgentSearch = LG.*TV");
    let mut def = cfg("RendererName = Default");
    def.loading_priority = 0;
    let state = AppState::new("u".to_string(), PathBuf::from("media"), vec![lg, lg2], def);
    assert_eq!(state.detect_renderer("LG TV").renderer_name, "LG");
    assert_eq!(state.detect_renderer("Sony").renderer_name, "Default");
}

#[test]
fn stream_renderer_prefers_registry() {
    let lg = cfg("RendererName = LG\nUserAgentSearch = LG");
    let samsung = cfg("RendererName = Samsung");
    let mut state = AppState::new("u".to_string(), PathBuf::from("media"), vec![lg], cfg("RendererName = Default"));
    let ip = IpAddress::V4(0xC0A80105);
    state.registry.register(ip, RegisteredDevice { ip, renderer: samsung, details: details(), last_seen: SystemTime::now() });
    assert_eq!(state.stream_renderer(&ip, "LG").renderer_name, "Samsung");
    assert_eq!(state.stream_renderer(&IpAddress::V4(1), "LG").renderer_name, "LG");
    assert_eq!(state.stream_renderer(&IpAddress::V6(1), "x").renderer_name, "Default");
}

#[test]
fn registry_register_and_lookup() {
    let mut state = AppState::new("u".to_string(), PathBuf::from("media"), vec![], cfg(""));
    let ip = IpAddress::V4(7);
    assert!(state.registry.get_renderer(&ip).is_none());
    state.registry.register(ip, RegisteredDevice { ip, renderer: cfg("RendererName = A"), details: details(), last_seen: SystemTime::now() });
    state.registry.register(ip, RegisteredDevice { ip, renderer: cfg("RendererName = B"), details: details(), last_seen: SystemTime::now() });
    assert_eq!(state.registry.get_renderer(&ip).unwrap().renderer_name, "B");
    assert!(state.registry.get_renderer(&IpAddress::V4(8)).is_none());
}

#[test]
fn library_add_remove_and_update_counter() {
    let mut state = AppState::new("u".to_string(), PathBuf::from("media"), vec![], cfg(""));
    assert_eq!(state.system_update_id, 1);
    let it = MediaItem::new("x".to_string(), PathBuf::from("/m/x.mp4"), "X".to_string(), "video/mp4".to_string(), 3);
    state.add_item(it);
    assert_eq!(state.system_update_id, 2);
    assert_eq!(state.library.get("x").unwrap().title, "X");
    let again = MediaItem::new("x".to_string(), PathBuf::from("/m/x.mp4"), "X2".to_string(), "video/mp4".to_string(), 3);
    state.add_item(again);
    assert_eq!(state.library.len(), 1);
    assert_eq!(state.system_update_id, 3);
    state.remove_item("missing");
    assert_eq!(state.system_update_id, 3);
    state.remove_item("x");
    assert_eq!(state.system_update_id, 4);
    assert!(state.library.get("x").is_none());
}

#[test]
fn update_counter_wraps() {
    let mut state = AppState::new("u".to_string(), PathBuf::from("media"), vec![], cfg(""));
    state.system_update_id = u32::MAX;
    state.add_item(MediaItem::new("x".to_string(), PathBuf::from("/m/x.mp4"), "X".to_string(), "video/mp4".to_string(), 3));
    assert_eq!(state.system_update_id, 0);
}

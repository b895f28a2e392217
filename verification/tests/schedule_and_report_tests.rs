use rust_dlna_server::description::{read_device_fields, register_from_description, DescriptionError};
use rust_dlna_server::registry::IpAddress;
use rust_dlna_server::state::AppState;
use rust_dlna_server::error::AppError;
use rust_dlna_server::media_item::MediaItem;
use rust_dlna_server::renderer::RendererConfiguration;
use rust_dlna_server::ssdp::announcement_pauses;
use rust_dlna_server::streaming::stream_target;
use rust_dlna_server::watcher::{probe_info_of, watch_action, WatchAction};
use std::path::PathBuf;

const REPORT: &str = r#"{
  "streams": [
    {"index": 0, "codec_name": "h264", "codec_type": "video"},
    {"index": 1, "codec_name": "aac", "codec_type": "audio"},
    {"index": 2, "codec_type": "data"}
  ],
  "format": {
    "filename": "/media/a.mkv",
    "format_name": "matroska,webm",
    "size": "1048576",
    "tags": {"title": "A Film"}
  }
}"#;

#[test]
fn startup_rounds_pause_only_after_the_last_target() {
    for round in 0..5u64 {
        assert_eq!(announcement_pauses(round, 6), vec![0, 0, 0, 0, 0, 200]);
    }
}

#[test]
fn later_rounds_keep_alive_every_thirty_seconds() {
    assert_eq!(announcement_pauses(5, 6), vec![100, 100, 100, 100, 100, 30000]);
    assert_eq!(announcement_pauses(1000, 1), vec![30000]);
    assert_eq!(announcement_pauses(7, 0), Vec::<u64>::new());
}

#[test]
fn ffprobe_report_is_read() {
    let p = probe_info_of(REPORT.as_bytes()).unwrap();
    let f = p.format.unwrap();
    assert_eq!(f.title_tag.as_deref(), Some("A Film"));
    assert_eq!(f.size.as_deref(), Some("1048576"));
    assert_eq!(f.format_name.as_deref(), Some("matroska,webm"));
    let ss = p.streams.unwrap();
    assert_eq!(ss.len(), 3);
    assert_eq!(ss[0].codec_type.as_deref(), Some("video"));
    assert_eq!(ss[0].codec_name.as_deref(), Some("h264"));
    assert_eq!(ss[1].codec_name.as_deref(), Some("aac"));
    assert_eq!(ss[2].codec_type.as_deref(), Some("data"));
    assert_eq!(ss[2].codec_name, None);
}

#[test]
fn ffprobe_report_without_format_or_streams() {
    let p = probe_info_of(br#"{"streams": 3}"#).unwrap();
    assert!(p.format.is_none());
    assert!(p.streams.is_none());
    let q = probe_info_of(br#"{"format": {"size": 12}}"#).unwrap();
    let f = q.format.unwrap();
    assert_eq!(f.size, None);
    assert_eq!(f.title_tag, None);
}

#[test]
fn non_json_report_is_refused() {
    assert!(probe_info_of(b"not json").is_none());
    assert!(probe_info_of(b"").is_none());
}

#[test]
fn existing_paths_are_processed_and_gone_ones_removed() {
    assert_eq!(watch_action(true), WatchAction::Process);
    assert_eq!(watch_action(false), WatchAction::Remove);
}

#[test]
fn stream_of_unknown_id_is_not_found() {
    match stream_target(None) {
        Err(AppError::NotFound(m)) => assert_eq!(m, "Media Not Found"),
        _ => panic!("expected NotFound"),
    }
    let item = MediaItem::new(
        "id1".to_string(),
        PathBuf::from("/m/a.mp4"),
        "A".to_string(),
        "video/mp4".to_string(),
        5,
    );
    let got = stream_target(Some(item)).ok().unwrap();
    assert_eq!(got.id, "id1");
    assert_eq!(got.size, 5);
}

#[test]
fn inert_lines_do_not_change_a_profile() {
    let base = "RendererName = TV\nUserAgentSearch = Bravia\nLoadingPriority = 2";
    let padded = "# comment\n\nRendererName = TV\n  \nUnknownKey = 7\nno equals sign here\nUserAgentSearch = Bravia\n#LoadingPriority = 9\nLoadingPriority = 2\nColour = red";
    let a = RendererConfiguration::parse(base);
    let b = RendererConfiguration::parse(padded);
    assert_eq!(a.renderer_name, b.renderer_name);
    assert_eq!(a.user_agent_search, b.user_agent_search);
    assert_eq!(a.loading_priority, b.loading_priority);
    assert_eq!(b.loading_priority, 2);
    let d = RendererConfiguration::default();
    let only_inert = RendererConfiguration::parse("# nothing\nFoo = bar\n\n");
    assert_eq!(only_inert.renderer_name, d.renderer_name);
    assert_eq!(only_inert.loading_priority, d.loading_priority);
    assert_eq!(only_inert.user_agent_search, d.user_agent_search);
}

#[test]
fn description_without_device_is_refused_and_registers_nothing() {
    let any = RendererConfiguration::parse("RendererName = Any\nUpnpDetailsSearch = .");
    let mut state = AppState::new("u".to_string(), PathBuf::from("m"), vec![any], RendererConfiguration::default());
    let ip = IpAddress::V4(7);
    let r = register_from_description(&mut state, "<root><service/></root>", "http://h/", ip, "0.0.0.7", std::time::SystemTime::now());
    assert!(matches!(r, Err(DescriptionError::NoDevice)));
    assert!(state.registry.get_renderer(&ip).is_none());
}

#[test]
fn first_matching_profile_is_registered() {
    let desc = "<root><device><friendlyName>Kitchen</friendlyName><manufacturer>Sony</manufacturer></device></root>";
    let first = RendererConfiguration::parse("RendererName = First\nUpnpDetailsSearch = Kitchen");
    let second = RendererConfiguration::parse("RendererName = Second\nUpnpDetailsSearch = Sony");
    let mut state = AppState::new("u".to_string(), PathBuf::from("m"), vec![first, second], RendererConfiguration::default());
    let ip = IpAddress::V4(9);
    let r = register_from_description(&mut state, desc, "http://10.0.0.9:8080/d.xml", ip, "10.0.0.9", std::time::SystemTime::now());
    assert!(matches!(r, Ok(true)));
    assert_eq!(state.registry.get_renderer(&ip).unwrap().renderer_name, "First");
}

#[test]
fn device_fields_come_from_within_the_device_element() {
    let xml = r#"<root xmlns="urn:schemas-upnp-org:device-1-0">
  <friendlyName>Outside</friendlyName>
  <device>
    <manufacturer>Acme</manufacturer>
    <friendlyName/>
    <serviceList><service><UDN>uuid:inner</UDN></service></serviceList>
    <UDN>uuid:later</UDN>
  </device>
  <modelName>Outside model</modelName>
</root>"#;
    let f = read_device_fields(xml).ok().unwrap();
    assert_eq!(f.friendly_name, "");
    assert_eq!(f.manufacturer, "Acme");
    assert_eq!(f.udn, "uuid:inner");
    assert_eq!(f.model_name, "");
}

use rust_dlna_server::description::{
    details_string, device_details, read_device_fields, register_from_description,
    DescriptionError,
};
use rust_dlna_server::logging::{compressed_name, log_file_date, should_compress};
use rust_dlna_server::registry::IpAddress;
use rust_dlna_server::renderer::RendererConfiguration;
use rust_dlna_server::server::{
    description_xml, is_default_renderer_file, is_renderer_config_file, sort_by_priority,
};
use rust_dlna_server::state::AppState;
use rust_dlna_server::transcoder::Transcoder;
use rust_dlna_server::watcher::{
    extension_of, is_media_file_name, media_id, media_item_from_probe, ProbeError, ProbeFormat,
    ProbeInfo, ProbeStream,
};
use std::path::PathBuf;
use std::time::SystemTime;

const DESC: &str = r#"<?xml version="1.0"?>
<root xmlns="urn:schemas-upnp-org:device-1-0">
  <device>
    <friendlyName>Living Room TV</friendlyName>
    <manufacturer>LG Electronics</manufacturer>
    <modelName>OLED55</modelName>
    <UDN>uuid:abc</UDN>
  </device>
</root>"#;

#[test]
fn device_description_fields() {
    let f = read_device_fields(DESC).unwrap();
    assert_eq!(f.friendly_name, "Living Room TV");
    assert_eq!(f.manufacturer, "LG Electronics");
    assert_eq!(f.model_name, "OLED55");
    assert_eq!(f.model_number, "");
    assert_eq!(f.udn, "uuid:abc");
    let d = device_details(f, "http://192.168.1.20:1234/desc.xml", "192.168.1.20");
    assert_eq!(d.address, "192.168.1.20");
    assert_eq!(details_string(&d), "Living Room TV 192.168.1.20 uuid:abc LG Electronics OLED55    ");
}

#[test]
fn device_address_falls_back_to_ip() {
    let f = read_device_fields(DESC).unwrap();
    let d = device_details(f, "not a url", "10.1.1.1");
    assert_eq!(d.address, "10.1.1.1");
}

#[test]
fn unreadable_descriptions() {
    assert!(matches!(read_device_fields("<root"), Err(DescriptionError::XmlParse(_))));
    assert!(matches!(read_device_fields("<root><x/></root>"), Err(DescriptionError::NoDevice)));
}

#[test]
fn registering_from_description() {
    let lg = RendererConfiguration::parse("RendererName = LG\nUpnpDetailsSearch = lg electronics , OLED");
    let other = RendererConfiguration::parse("RendererName = Other\nUpnpDetailsSearch = Sony");
    let mut state = AppState::new("u".to_string(), PathBuf::from("media"), vec![other, lg], RendererConfiguration::default());
    let ip = IpAddress::V4(0x0A000001);
    let r = register_from_description(&mut state, DESC, "http://10.0.0.1:80/d.xml", ip, "10.0.0.1", SystemTime::now());
    assert!(matches!(r, Ok(true)));
    assert_eq!(state.registry.get_renderer(&ip).unwrap().renderer_name, "LG");
    let ip2 = IpAddress::V4(2);
    let none = register_from_description(&mut state, DESC.replace("LG", "Acme").as_str(), "http://x/", ip2, "0.0.0.2", SystemTime::now());
    assert!(matches!(none, Ok(false)));
    assert!(state.registry.get_renderer(&ip2).is_none());
}

#[test]
fn media_file_names() {
    assert_eq!(extension_of("movie.MKV"), Some("MKV".to_string()));
    assert_eq!(extension_of(".mp4"), None);
    assert_eq!(extension_of("noext"), None);
    assert_eq!(extension_of("a."), Some("".to_string()));
    assert_eq!(extension_of(".."), None);
    assert!(is_media_file_name("movie.MKV"));
    assert!(is_media_file_name("archive.tar.ts"));
    assert!(!is_media_file_name(".mp4"));
    assert!(!is_media_file_name("notes.txt"));
}

#[test]
fn media_ids_are_md5_hex() {
    assert_eq!(media_id("abc"), "900150983cd24fb0d6963f7d28e17f72");
    assert_eq!(media_id(""), "d41d8cd98f00b204e9800998ecf8427e");
    assert_eq!(media_id("/media/a.mkv").len(), 32);
}

fn stream(t: Option<&str>, n: Option<&str>) -> ProbeStream {
    ProbeStream { codec_type: t.map(|s| s.to_string()), codec_name: n.map(|s| s.to_string()) }
}

#[test]
fn probe_reports_become_items() {
    let probe = ProbeInfo {
        format: Some(ProbeFormat { title_tag: None, size: Some("1234".to_string()), format_name: Some("matroska,webm".to_string()) }),
        streams: Some(vec![stream(Some("video"), None), stream(Some("audio"), Some("aac")), stream(Some("video"), Some("h264")), stream(Some("audio"), Some("ac3"))]),
    };
    let item = media_item_from_probe(&probe, PathBuf::from("/m/Film.mkv"), "/m/Film.mkv", "Film").unwrap();
    assert_eq!(item.id, media_id("/m/Film.mkv"));
    assert_eq!(item.title, "Film");
    assert_eq!(item.size, 1234);
    assert_eq!(item.container.as_deref(), Some("matroska"));
    assert_eq!(item.video_codec.as_deref(), Some("h264"));
    assert_eq!(item.audio_codec.as_deref(), Some("aac"));
    assert_eq!(item.mime_type, "video/mp4");
    assert_eq!(item.path, PathBuf::from("/m/Film.mkv"));
}

#[test]
fn probe_report_edge_cases() {
    let titled = ProbeInfo {
        format: Some(ProbeFormat { title_tag: Some("Real Title".to_string()), size: Some("big".to_string()), format_name: None }),
        streams: None,
    };
    let item = media_item_from_probe(&titled, PathBuf::from("/m/x.mp4"), "/m/x.mp4", "x").unwrap();
    assert_eq!(item.title, "Real Title");
    assert_eq!(item.size, 0);
    assert!(item.container.is_none() && item.video_codec.is_none() && item.audio_codec.is_none());
    let sizeless = ProbeInfo { format: Some(ProbeFormat { title_tag: None, size: None, format_name: Some("mp4".to_string()) }), streams: Some(vec![]) };
    assert_eq!(media_item_from_probe(&sizeless, PathBuf::from("/m/y.mp4"), "/m/y.mp4", "y").unwrap().size, 0);
    let bad = ProbeInfo { format: None, streams: None };
    assert!(matches!(media_item_from_probe(&bad, PathBuf::from("/m/z.mp4"), "/m/z.mp4", "z"), Err(ProbeError::NoFormat)));
}

#[test]
fn log_compression_decisions() {
    assert_eq!(log_file_date("server.log.2023-10-01"), Some((2023, 10, 1)));
    assert!(should_compress("server.log.2023-10-01", (2023, 10, 2)));
    assert!(should_compress("server.log.2022-12-31", (2023, 1, 1)));
    assert!(!should_compress("server.log.2023-10-02", (2023, 10, 2)));
    assert!(!should_compress("server.log.2023-10-01.gz", (2024, 1, 1)));
    assert!(!should_compress("server.log.garbage", (2024, 1, 1)));
    assert!(!should_compress("other.log.2020-01-01", (2024, 1, 1)));
    assert_eq!(compressed_name("logs/server.log.2023-10-01"), "logs/server.log.2023-10-01.gz");
}

#[test]
fn ffmpeg_arguments() {
    let expected: Vec<String> = [
        "-analyzeduration", "0", "-probesize", "2000000", "-i", "/m/a.mkv", "-c:v", "libx264",
        "-preset", "ultrafast", "-tune", "zerolatency", "-c:a", "aac", "-b:a", "192k", "-pix_fmt",
        "yuv420p", "-f", "mpegts", "-maxrate", "50M", "-bufsize", "100M", "-",
    ]
    .iter()
    .map(|s| s.to_string())
    .collect();
    assert_eq!(Transcoder::ffmpeg_args("/m/a.mkv", 0), expected);
    let seek = Transcoder::ffmpeg_args("/m/a.mkv", 90);
    assert_eq!(&seek[4..6], &["-ss".to_string(), "90".to_string()]);
    assert_eq!(seek.len(), expected.len() + 2);
}

#[test]
fn profile_files_and_order() {
    assert!(is_renderer_config_file("LG-WebOS.conf"));
    assert!(!is_renderer_config_file("LG.CONF"));
    assert!(!is_renderer_config_file(".conf"));
    assert!(!is_renderer_config_file("readme.md"));
    assert!(is_default_renderer_file("DefaultRenderer.conf"));
    assert!(!is_default_renderer_file("LG.conf"));
    let mk = |name: &str, p: i32| {
        let mut c = RendererConfiguration::parse(&format!("RendererName = {}", name));
        c.loading_priority = p;
        c
    };
    let sorted = sort_by_priority(vec![mk("a", 1), mk("b", 5), mk("c", 1), mk("d", 5), mk("e", -2)]);
    let names: Vec<&str> = sorted.iter().map(|c| c.renderer_name.as_str()).collect();
    assert_eq!(names, vec!["b", "d", "a", "c", "e"]);
}

#[test]
fn description_template_gets_uuid() {
    assert_eq!(description_xml("<UDN>uuid:{}</UDN><x>{}</x>", "1234"), "<UDN>uuid:1234</UDN><x>1234</x>");
    assert_eq!(description_xml("no placeholder", "1234"), "no placeholder");
}

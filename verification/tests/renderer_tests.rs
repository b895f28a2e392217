use rust_dlna_server::media_item::MediaItem;
use rust_dlna_server::renderer::{RendererConfiguration, RendererSupport};
use std::path::PathBuf;

const SAMPLE: &str = "# MyDevice.conf\nRendererName = My Custom Device\nUserAgentSearch = MyDevice/.*\nSeekByTime = true\n\n# Supported formats\nSupported = f:mp4   v:h264   a:aac   m:video/mp4\nSupported = f:mkv   v:h264   a:aac   m:video/x-matroska\n";

fn item(container: Option<&str>, video: Option<&str>, audio: Option<&str>) -> MediaItem {
    let mut it = MediaItem::new(
        "id1".to_string(),
        PathBuf::from("/media/a.mkv"),
        "A".to_string(),
        "video/x-matroska".to_string(),
        10,
    );
    it.container = container.map(|s| s.to_string());
    it.video_codec = video.map(|s| s.to_string());
    it.audio_codec = audio.map(|s| s.to_string());
    it
}

#[test]
fn default_profile_values() {
    let c = RendererConfiguration::default();
    assert_eq!(c.renderer_name, "Unknown Renderer");
    assert_eq!(c.renderer_icon, "unknown.png");
    assert_eq!(c.seek_by_time, "false");
    assert_eq!(c.loading_priority, 0);
    assert!(c.dlna_org_pn_used);
    assert!(c.send_dlna_org_flags);
    assert!(!c.accurate_dlna_org_pn);
    assert!(c.user_agent_search.is_none());
    assert!(c.supported_formats.is_empty());
    assert_eq!(c.dlna_profile_changes.len(), 0);
}

#[test]
fn parse_readme_profile() {
    let c = RendererConfiguration::parse(SAMPLE);
    assert_eq!(c.renderer_name, "My Custom Device");
    assert_eq!(c.user_agent_search.as_deref(), Some("MyDevice/.*"));
    assert_eq!(c.seek_by_time, "true");
    assert_eq!(c.supported_formats.len(), 2);
    let s = &c.supported_formats[0];
    assert_eq!(s.formats, vec!["mp4".to_string()]);
    assert_eq!(s.video_codecs, vec!["h264".to_string()]);
    assert_eq!(s.audio_codecs, vec!["aac".to_string()]);
    assert_eq!(s.mime_type, "video/mp4");
    assert_eq!(c.supported_formats[1].mime_type, "video/x-matroska");
}

#[test]
fn comments_blank_and_unknown_lines_are_ignored() {
    let c = RendererConfiguration::parse("#RendererName = X\n   \nno equals sign\nUnknownKey = 5\n");
    assert_eq!(c.renderer_name, "Unknown Renderer");
    assert_eq!(c.loading_priority, 0);
}

#[test]
fn loading_priority_parsing() {
    assert_eq!(RendererConfiguration::parse("LoadingPriority = 10").loading_priority, 10);
    assert_eq!(RendererConfiguration::parse("LoadingPriority = -5").loading_priority, -5);
    assert_eq!(RendererConfiguration::parse("LoadingPriority = +7").loading_priority, 7);
    assert_eq!(RendererConfiguration::parse("LoadingPriority = abc").loading_priority, 0);
    assert_eq!(RendererConfiguration::parse("LoadingPriority = 99999999999").loading_priority, 0);
    assert_eq!(RendererConfiguration::parse("LoadingPriority = -2147483648").loading_priority, i32::MIN);
}

#[test]
fn boolean_settings_and_their_defaults() {
    let c = RendererConfiguration::parse("ChunkedTransfer = true\nSendDLNAOrgFlags = nope\nDLNAOrgPN = TRUE\n");
    assert!(c.chunked_transfer);
    assert!(c.send_dlna_org_flags);
    assert!(!c.dlna_org_pn_used);
    let d = RendererConfiguration::parse("SendDLNAOrgFlags = false\r\nMuxNonMod4Resolution = true\r\n");
    assert!(!d.send_dlna_org_flags);
    assert!(d.mux_non_mod4_resolution);
}

#[test]
fn empty_search_patterns_are_not_set() {
    let c = RendererConfiguration::parse("UserAgentSearch =\nUpnpDetailsSearch = \n");
    assert!(c.user_agent_search.is_none());
    assert!(c.upnp_details_search.is_none());
}

#[test]
fn profile_changes_are_upper_cased() {
    let c = RendererConfiguration::parse(
        "DLNAProfileChanges = avc_ts_mp_hd_aac_iso = avc_ts_na_iso | broken | Mp3=Mp3X\n",
    );
    assert_eq!(c.dlna_profile_changes.len(), 2);
    assert_eq!(c.dlna_profile_changes.get("AVC_TS_MP_HD_AAC_ISO").map(|s| s.as_str()), Some("AVC_TS_NA_ISO"));
    assert_eq!(c.dlna_profile_changes.get("MP3").map(|s| s.as_str()), Some("MP3X"));
    assert_eq!(c.get_dlna_profile_id("avc_ts_mp_hd_aac_iso"), "AVC_TS_NA_ISO");
    assert_eq!(c.get_dlna_profile_id("MPEG_PS_PAL"), "MPEG_PS_PAL");
}

#[test]
fn mime_changes_are_lower_cased() {
    let c = RendererConfiguration::parse("MimeTypesChanges = Video/AVI = Video/X-Msvideo\n");
    assert_eq!(c.mime_types_changes.get("video/avi").map(|s| s.as_str()), Some("video/x-msvideo"));
}

#[test]
fn extension_lists_are_trimmed_lowered_and_filtered() {
    let c = RendererConfiguration::parse("TranscodeExtensions = MKV, avi ,, \nStreamExtensions = mp4\n");
    assert_eq!(c.transcode_extensions, vec!["mkv".to_string(), "avi".to_string()]);
    assert_eq!(c.stream_extensions, vec!["mp4".to_string()]);
}

#[test]
fn supported_line_tags() {
    let s = RendererSupport::parse("f:MP4|M4V v:H264|hevc a:aac-lc|HE-AAC m:video/MP4 si:ignored junk");
    assert_eq!(s.formats, vec!["mp4".to_string(), "m4v".to_string()]);
    assert_eq!(s.video_codecs, vec!["h264".to_string(), "hevc".to_string()]);
    assert_eq!(s.audio_codecs, vec!["aac-lc".to_string(), "he-aac".to_string()]);
    assert_eq!(s.mime_type, "video/MP4");
}

#[test]
fn user_agent_matching() {
    let c = RendererConfiguration::parse("UserAgentSearch = LG.*WebOS");
    assert!(c.is_match("Mozilla/5.0 (LG Browser; WebOS 4)"));
    assert!(!c.is_match("Samsung"));
    let invalid = RendererConfiguration::parse("UserAgentSearch = Roku(");
    assert!(invalid.is_match("a Roku( device"));
    assert!(!invalid.is_match("Roku"));
    assert!(!RendererConfiguration::default().is_match("anything"));
}

#[test]
fn upnp_details_matching() {
    let c = RendererConfiguration::parse("UpnpDetailsSearch = Samsung , TV");
    assert!(c.match_upnp_details("SAMSUNG Living Room\nSmart TV"));
    assert!(!c.match_upnp_details("TV by Samsung"));
    let invalid = RendererConfiguration::parse("UpnpDetailsSearch = Xbox(");
    assert!(invalid.match_upnp_details("my XBOX( console"));
    assert!(!RendererConfiguration::default().match_upnp_details("anything"));
}

#[test]
fn compatibility_rules() {
    let c = RendererConfiguration::parse(SAMPLE);
    assert!(c.is_compatible(&item(Some("MKV"), Some("H264"), Some("aac"))));
    assert!(!c.is_compatible(&item(Some("mkv"), Some("hevc"), Some("aac"))));
    assert!(!c.is_compatible(&item(None, Some("h264"), Some("aac"))));
    assert!(c.is_compatible(&item(Some("mp4"), None, None)));
    assert!(!RendererConfiguration::default().is_compatible(&item(Some("mp4"), None, None)));
    let any = RendererConfiguration::parse("Supported = m:video/mp4");
    assert!(any.is_compatible(&item(None, None, None)));
}

#[test]
fn duplicate_copies_everything() {
    let c = RendererConfiguration::parse(SAMPLE);
    let d = c.duplicate();
    assert_eq!(d.renderer_name, c.renderer_name);
    assert_eq!(d.supported_formats.len(), 2);
    assert_eq!(d.user_agent_search, c.user_agent_search);
}

#[test]
fn apply_line_one_at_a_time() {
    let mut c = RendererConfiguration::default();
    c.apply_line("  RendererName =  Roku TV  ");
    c.apply_line("RendererIcon=roku.png");
    assert_eq!(c.renderer_name, "Roku TV");
    assert_eq!(c.renderer_icon, "roku.png");
}

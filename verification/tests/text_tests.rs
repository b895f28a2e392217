use rust_dlna_server::renderer::RendererConfiguration;
use rust_dlna_server::text::{
    chars_of, decimal_exec, parse_bool_exec, parse_i32_exec, parse_u64_exec, replace_str,
    split_char_exec, trim_str, words_exec,
};

fn s(v: &[char]) -> String {
    v.iter().collect()
}

#[test]
fn trimming_unicode_whitespace() {
    assert_eq!(s(&trim_str("  \t abc \r\n")), "abc");
    assert_eq!(s(&trim_str("\u{3000}x\u{a0}")), "x");
    assert_eq!(s(&trim_str("   ")), "");
}

#[test]
fn splitting() {
    let parts: Vec<String> = split_char_exec(&chars_of("a||b|"), '|').iter().map(|p| s(p)).collect();
    assert_eq!(parts, vec!["a", "", "b", ""]);
    let words: Vec<String> = words_exec(&chars_of("  f:mp4   v:h264\ta:aac ")).iter().map(|p| s(p)).collect();
    assert_eq!(words, vec!["f:mp4", "v:h264", "a:aac"]);
}

#[test]
fn replacing() {
    assert_eq!(replace_str("a , b , c", " , ", ".*"), "a.*b.*c");
    assert_eq!(replace_str("aaa", "aa", "b"), "ba");
    assert_eq!(replace_str("x", "y", "z"), "x");
}

#[test]
fn number_parsing_like_std() {
    for t in ["0", "+5", "-5", "2147483647", "-2147483648", "2147483648", "", "-", "+", "1a", " 1"] {
        assert_eq!(parse_i32_exec(&chars_of(t)), t.parse::<i32>().ok(), "{}", t);
    }
    for t in ["0", "+5", "-5", "18446744073709551615", "18446744073709551616", "", "+", "12x"] {
        assert_eq!(parse_u64_exec(&chars_of(t)), t.parse::<u64>().ok(), "{}", t);
    }
    for t in ["true", "false", "True", "", "1"] {
        assert_eq!(parse_bool_exec(&chars_of(t)), t.parse::<bool>().ok(), "{}", t);
    }
}

#[test]
fn decimal_round_trip() {
    for n in [0u64, 7, 10, 1234, u64::MAX] {
        let d = decimal_exec(n);
        assert_eq!(s(&d), n.to_string());
        assert_eq!(parse_u64_exec(&d), Some(n));
    }
}

#[test]
fn later_settings_override_earlier_ones() {
    let c = RendererConfiguration::parse("RendererName = A\nRendererName = B");
    assert_eq!(c.renderer_name, "B");
    let mut d = RendererConfiguration::parse("RendererName = A");
    d.apply_line("RendererName = B");
    assert_eq!(d.renderer_name, c.renderer_name);
}

#[test]
fn profile_id_without_changes_is_kept() {
    let c = RendererConfiguration::default();
    assert_eq!(c.get_dlna_profile_id("avc_mp4"), "avc_mp4");
}

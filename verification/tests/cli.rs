use webrtc_http_media::cli::{
    check_video_track, default_whep_url, parse_whep_args, parse_whip_args, WhepCommand,
    WhipCommand,
};
use webrtc_http_media::mkv_reader::MkvTrackInfo;
use webrtc_http_media::num::{div_toward_zero, to_low32, to_signed, to_unsigned};
use webrtc_http_media::text::{decimal_string, split_on, split_on_space, trimmed};

fn args(list: &[&str]) -> Vec<String> {
    list.iter().map(|a| a.to_string()).collect()
}

#[test]
fn whep_runs_with_defaults() {
    match parse_whep_args(&[]) {
        WhepCommand::Run(config) => {
            assert_eq!(config.whep_url, default_whep_url());
            assert!(!config.debug);
            assert!(!config.debug_libwebrtc);
        }
        other => panic!("{:?}", other),
    }
}

#[test]
fn whep_takes_its_options() {
    match parse_whep_args(&args(&["http://a", "-dlibwebrtc", "http://b", "--debug"])) {
        WhepCommand::Run(config) => {
            assert_eq!(config.whep_url, "http://b");
            assert!(config.debug);
            assert!(config.debug_libwebrtc);
        }
        other => panic!("{:?}", other),
    }
    assert!(matches!(parse_whep_args(&args(&["-d", "-h", "-x"])), WhepCommand::Help));
    assert!(matches!(parse_whep_args(&args(&["--help"])), WhepCommand::Help));
    match parse_whep_args(&args(&["-d", "-x", "-h"])) {
        WhepCommand::UnknownOption(option) => assert_eq!(option, "-x"),
        other => panic!("{:?}", other),
    }
    match parse_whep_args(&args(&["-"])) {
        WhepCommand::UnknownOption(option) => assert_eq!(option, "-"),
        other => panic!("{:?}", other),
    }
}

#[test]
fn whip_needs_an_endpoint() {
    assert!(matches!(parse_whip_args(&[]), WhipCommand::MissingUrl));
    assert!(matches!(parse_whip_args(&args(&["-d", ""])), WhipCommand::MissingUrl));
    match parse_whip_args(&args(&["http://a"])) {
        WhipCommand::Run(config) => {
            assert_eq!(config.whip_url, "http://a");
            assert!(!config.debug);
            assert_eq!(config.output_file, None);
        }
        other => panic!("{:?}", other),
    }
}

#[test]
fn whip_takes_its_options() {
    match parse_whip_args(&args(&["-o", "-h", "--debug", "u", "--output", "f"])) {
        WhipCommand::Run(config) => {
            assert_eq!(config.whip_url, "u");
            assert!(config.debug);
            assert_eq!(config.output_file.as_deref(), Some("f"));
        }
        other => panic!("{:?}", other),
    }
    assert!(matches!(parse_whip_args(&args(&["u", "-o"])), WhipCommand::MissingOutput));
    assert!(matches!(parse_whip_args(&args(&["-h", "-o"])), WhipCommand::Help));
    match parse_whip_args(&args(&["-dlibwebrtc"])) {
        WhipCommand::UnknownOption(option) => assert_eq!(option, "-dlibwebrtc"),
        other => panic!("{:?}", other),
    }
}

#[test]
fn streams_without_video_are_refused() {
    let mut info = MkvTrackInfo::default();
    assert_eq!(check_video_track(&info).unwrap_err().message(), "No video track found in MKV");
    info.video_width = 640;
    assert!(check_video_track(&info).is_err());
    info.video_height = 360;
    assert!(check_video_track(&info).is_ok());
}

#[test]
fn numbers_as_text() {
    assert_eq!(decimal_string(0), "0");
    assert_eq!(decimal_string(9), "9");
    assert_eq!(decimal_string(10), "10");
    assert_eq!(decimal_string(u64::MAX), u64::MAX.to_string());
}

#[test]
fn numbers_of_fixed_width() {
    for v in [0i64, 1, -1, i64::MIN, i64::MAX, 123_456_789, -987_654_321] {
        assert_eq!(to_unsigned(v), v as u64);
        assert_eq!(to_signed(v as u64), v);
        assert_eq!(div_toward_zero(v, 1000), v / 1000);
        assert_eq!(div_toward_zero(v, 1), v);
    }
    assert_eq!(to_low32(0x1_0000_0007), 7);
}

#[test]
fn text_is_cut_like_the_standard_library_does() {
    for text in ["", " a ", "\u{2003}x\u{a0}y\u{85}", "\t\n", "é=ü;ß", "\u{200b}a"] {
        assert_eq!(trimmed(text), text.trim());
        assert_eq!(split_on(text, ';'), text.split(';').collect::<Vec<_>>());
        let words: Vec<String> =
            split_on_space(text).into_iter().filter(|w| !w.is_empty()).collect();
        assert_eq!(words, text.split_whitespace().collect::<Vec<_>>());
    }
    for code in 0..0x3100u32 {
        if let Some(c) = char::from_u32(code) {
            let text = c.to_string();
            assert_eq!(trimmed(&text), text.trim());
        }
    }
}

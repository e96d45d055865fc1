use matrix_rain::column::GlyphStyle;
use matrix_rain::config::{
    frame_nanos, next_value, parse_args, parse_fps, usage_text, ConfigError, Setting, Theme,
};

fn strings(args: &[&str]) -> Vec<String> {
    args.iter().map(|s| s.to_string()).collect()
}

#[test]
fn theme_from_str_names() {
    assert!(matches!(Theme::from_str("matrix"), Some(Theme::Matrix)));
    assert!(matches!(Theme::from_str("amber"), Some(Theme::Amber)));
    assert!(matches!(Theme::from_str("ice"), Some(Theme::Ice)));
    assert!(Theme::from_str("Matrix").is_none());
    assert!(Theme::from_str("").is_none());
    assert!(Theme::from_str("ice ").is_none());
}

#[test]
fn theme_as_str_round_trip() {
    for t in [Theme::Matrix, Theme::Amber, Theme::Ice] {
        assert_eq!(Theme::from_str(t.as_str()), Some(t));
    }
    assert_eq!(Theme::Amber.as_str(), "amber");
}

#[test]
fn glyph_style_from_str_names() {
    assert_eq!(GlyphStyle::from_str("classic"), Some(GlyphStyle::ClassicMatrix));
    assert_eq!(GlyphStyle::from_str("balanced"), Some(GlyphStyle::Balanced));
    assert_eq!(GlyphStyle::from_str("ascii"), Some(GlyphStyle::AsciiGlitch));
    assert_eq!(GlyphStyle::from_str("fancy"), None);
    for g in [GlyphStyle::ClassicMatrix, GlyphStyle::Balanced, GlyphStyle::AsciiGlitch] {
        assert_eq!(GlyphStyle::from_str(g.as_str()), Some(g));
    }
}

#[test]
fn usage_text_lists_options() {
    let u = usage_text();
    assert!(u.starts_with("Usage: matrix-rain [options]"));
    assert!(u.contains("--fps <10-240>"));
    assert!(u.ends_with("-h, --help                  Show this help"));
}

#[test]
fn frame_nanos_values() {
    assert_eq!(frame_nanos(30), 33_333_333);
    assert_eq!(frame_nanos(1), 1_000_000_000);
    assert_eq!(frame_nanos(0), 1_000_000_000);
    assert_eq!(frame_nanos(240), 4_166_666);
}

#[test]
fn parse_fps_accepts_range() {
    assert_eq!(parse_fps("10").unwrap(), 10);
    assert_eq!(parse_fps("240").unwrap(), 240);
    assert_eq!(parse_fps("60").unwrap(), 60);
    assert_eq!(parse_fps("+100").unwrap(), 100);
    assert_eq!(parse_fps("0060").unwrap(), 60);
}

#[test]
fn parse_fps_rejects() {
    for bad in ["9", "241", "abc", "", "+", "-30", " 30", "30 ", "3_0", "99999999999999999999999"] {
        match parse_fps(bad) {
            Err(ConfigError::InvalidArgValue { key, value, expected }) => {
                assert_eq!(key, "--fps");
                assert_eq!(value, bad);
                assert_eq!(expected, "integer in range 10..=240");
            }
            _ => panic!("accepted {:?}", bad),
        }
    }
}

#[test]
fn error_messages() {
    assert_eq!(ConfigError::Help.message(), usage_text());
    assert_eq!(
        ConfigError::MissingArgValue("--fps").message(),
        format!("missing value for --fps\n{}", usage_text())
    );
    let e = ConfigError::InvalidArgValue {
        key: "--theme",
        value: "pink".to_string(),
        expected: "matrix|amber|ice",
    };
    assert_eq!(
        e.message(),
        format!("invalid value 'pink' for --theme; expected matrix|amber|ice\n{}", usage_text())
    );
    assert_eq!(
        ConfigError::UnknownArg("--wat".to_string()).message(),
        format!("unknown argument '--wat'\n{}", usage_text())
    );
}

#[test]
fn next_value_reads_or_fails() {
    let args = strings(&["--fps", "60"]);
    assert_eq!(next_value(&args, 1, "--fps").unwrap(), "60");
    match next_value(&args, 2, "--fps") {
        Err(ConfigError::MissingArgValue(k)) => assert_eq!(k, "--fps"),
        _ => panic!("expected a missing value"),
    }
}

#[test]
fn parse_args_empty() {
    let r = parse_args(&Vec::new());
    assert!(r.settings.is_empty());
    assert!(r.stop.is_none());
}

#[test]
fn parse_args_all_options_in_order() {
    let args = strings(&[
        "--fps", "60", "--density", "0.5", "--speed", "1.5", "--glyph-style", "ascii", "--theme",
        "ice",
    ]);
    let r = parse_args(&args);
    assert!(r.stop.is_none());
    assert_eq!(r.settings.len(), 5);
    assert!(matches!(r.settings[0], Setting::Fps(60)));
    assert!(matches!(&r.settings[1], Setting::Density(s) if s == "0.5"));
    assert!(matches!(&r.settings[2], Setting::Speed(s) if s == "1.5"));
    assert!(matches!(r.settings[3], Setting::GlyphStyle(GlyphStyle::AsciiGlitch)));
    assert!(matches!(r.settings[4], Setting::Theme(Theme::Ice)));
}

#[test]
fn parse_args_help_stops() {
    let r = parse_args(&strings(&["--theme", "amber", "--help", "--fps", "60"]));
    assert_eq!(r.settings.len(), 1);
    assert!(matches!(r.stop, Some(ConfigError::Help)));
    let r = parse_args(&strings(&["-h"]));
    assert!(r.settings.is_empty());
    assert!(matches!(r.stop, Some(ConfigError::Help)));
}

#[test]
fn parse_args_missing_value() {
    let r = parse_args(&strings(&["--fps", "30", "--speed"]));
    assert_eq!(r.settings.len(), 1);
    assert!(matches!(r.stop, Some(ConfigError::MissingArgValue("--speed"))));
}

#[test]
fn parse_args_unknown_argument() {
    let r = parse_args(&strings(&["--theme", "ice", "theme"]));
    assert_eq!(r.settings.len(), 1);
    match r.stop {
        Some(ConfigError::UnknownArg(a)) => assert_eq!(a, "theme"),
        _ => panic!("expected an unknown argument"),
    }
}

#[test]
fn parse_args_invalid_values() {
    let r = parse_args(&strings(&["--glyph-style", "runes"]));
    match r.stop {
        Some(ConfigError::InvalidArgValue { key, value, expected }) => {
            assert_eq!(key, "--glyph-style");
            assert_eq!(value, "runes");
            assert_eq!(expected, "classic|balanced|ascii");
        }
        _ => panic!("expected an invalid glyph style"),
    }
    let r = parse_args(&strings(&["--theme", "pink"]));
    match r.stop {
        Some(ConfigError::InvalidArgValue { key, value, expected }) => {
            assert_eq!(key, "--theme");
            assert_eq!(value, "pink");
            assert_eq!(expected, "matrix|amber|ice");
        }
        _ => panic!("expected an invalid theme"),
    }
    let r = parse_args(&strings(&["--fps", "500", "--theme", "ice"]));
    assert!(r.settings.is_empty());
    assert!(matches!(r.stop, Some(ConfigError::InvalidArgValue { key: "--fps", .. })));
}

#[test]
fn parse_args_value_that_looks_like_option() {
    let r = parse_args(&strings(&["--density", "--fps"]));
    assert!(r.stop.is_none());
    assert!(matches!(&r.settings[0], Setting::Density(s) if s == "--fps"));
}

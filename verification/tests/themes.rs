use fastapi_verified::output::themes::{
    hex_to_rgb, rgb_to_hex, BoxStyle, BoxStylePreset, Color, FastApiTheme, ThemeIcons,
    ThemePreset, ThemeSpacing,
};

fn is_not_black(c: Color) -> bool {
    c.r > 0 || c.g > 0 || c.b > 0
}

#[test]
fn test_color_from_hex() {
    let color = Color::from_hex(0xFF5500);
    assert_eq!(color.r, 0xFF);
    assert_eq!(color.g, 0x55);
    assert_eq!(color.b, 0x00);
}

#[test]
fn test_color_to_hex() {
    let color = Color::new(255, 85, 0);
    assert_eq!(color.to_hex(), "#ff5500");
}

#[test]
fn test_color_to_rgb() {
    let color = Color::new(100, 150, 200);
    assert_eq!(color.to_rgb(), (100, 150, 200));
}

#[test]
fn test_color_to_ansi() {
    let color = Color::new(255, 128, 64);
    assert_eq!(color.to_ansi_fg(), "\x1b[38;2;255;128;64m");
    assert_eq!(color.to_ansi_bg(), "\x1b[48;2;255;128;64m");
}

#[test]
fn test_rgb_to_hex() {
    assert_eq!(rgb_to_hex((0, 150, 136)), "#009688");
    assert_eq!(rgb_to_hex((255, 255, 255)), "#ffffff");
    assert_eq!(rgb_to_hex((0, 0, 0)), "#000000");
}

#[test]
fn test_hex_to_rgb_6_digit() {
    assert_eq!(hex_to_rgb("#009688"), Some((0, 150, 136)));
    assert_eq!(hex_to_rgb("009688"), Some((0, 150, 136)));
    assert_eq!(hex_to_rgb("#FF5500"), Some((255, 85, 0)));
    assert_eq!(hex_to_rgb("#ffffff"), Some((255, 255, 255)));
}

#[test]
fn test_hex_to_rgb_3_digit() {
    assert_eq!(hex_to_rgb("#F00"), Some((255, 0, 0)));
    assert_eq!(hex_to_rgb("0F0"), Some((0, 255, 0)));
    assert_eq!(hex_to_rgb("#FFF"), Some((255, 255, 255)));
}

#[test]
fn test_hex_to_rgb_invalid() {
    assert_eq!(hex_to_rgb("invalid"), None);
    assert_eq!(hex_to_rgb("#12345"), None);
    assert_eq!(hex_to_rgb(""), None);
    assert_eq!(hex_to_rgb("#GGG"), None);
}

#[test]
fn test_theme_default_has_all_colors() {
    let theme = FastApiTheme::default();
    assert!(is_not_black(theme.primary));
    assert!(is_not_black(theme.secondary));
    assert!(is_not_black(theme.accent));
    assert!(is_not_black(theme.success));
    assert!(is_not_black(theme.warning));
    assert!(is_not_black(theme.error));
    assert!(is_not_black(theme.info));
    assert!(is_not_black(theme.http_get));
    assert!(is_not_black(theme.http_post));
    assert!(is_not_black(theme.http_put));
    assert!(is_not_black(theme.http_delete));
}

#[test]
fn test_theme_presets_differ() {
    let fastapi = FastApiTheme::fastapi();
    let neon = FastApiTheme::neon();
    let minimal = FastApiTheme::minimal();
    let monokai = FastApiTheme::monokai();
    let light = FastApiTheme::light();
    let accessible = FastApiTheme::accessible();
    assert_ne!(fastapi, neon);
    assert_ne!(fastapi, minimal);
    assert_ne!(fastapi, monokai);
    assert_ne!(fastapi, light);
    assert_ne!(fastapi, accessible);
    assert_ne!(neon, minimal);
    assert_ne!(neon, monokai);
    assert_ne!(neon, light);
    assert_ne!(neon, accessible);
    assert_ne!(minimal, monokai);
    assert_ne!(minimal, light);
    assert_ne!(minimal, accessible);
    assert_ne!(monokai, light);
    assert_ne!(monokai, accessible);
    assert_ne!(light, accessible);
}

#[test]
fn test_theme_from_preset() {
    assert_eq!(FastApiTheme::from_preset(ThemePreset::Default), FastApiTheme::fastapi());
    assert_eq!(FastApiTheme::from_preset(ThemePreset::FastApi), FastApiTheme::fastapi());
    assert_eq!(FastApiTheme::from_preset(ThemePreset::Neon), FastApiTheme::neon());
    assert_eq!(FastApiTheme::from_preset(ThemePreset::Minimal), FastApiTheme::minimal());
    assert_eq!(FastApiTheme::from_preset(ThemePreset::Monokai), FastApiTheme::monokai());
    assert_eq!(FastApiTheme::from_preset(ThemePreset::Light), FastApiTheme::light());
    assert_eq!(FastApiTheme::from_preset(ThemePreset::Accessible), FastApiTheme::accessible());
}

#[test]
fn test_http_method_colors() {
    let theme = FastApiTheme::default();
    assert_eq!(theme.http_method_color("GET"), theme.http_get);
    assert_eq!(theme.http_method_color("get"), theme.http_get);
    assert_eq!(theme.http_method_color("POST"), theme.http_post);
    assert_eq!(theme.http_method_color("PUT"), theme.http_put);
    assert_eq!(theme.http_method_color("DELETE"), theme.http_delete);
    assert_eq!(theme.http_method_color("PATCH"), theme.http_patch);
    assert_eq!(theme.http_method_color("OPTIONS"), theme.http_options);
    assert_eq!(theme.http_method_color("HEAD"), theme.http_head);
    assert_eq!(theme.http_method_color("UNKNOWN"), theme.muted);
}

#[test]
fn test_http_method_hex() {
    let theme = FastApiTheme::default();
    assert_eq!(theme.http_method_hex("GET"), theme.http_get.to_hex());
    assert_eq!(theme.http_method_hex("POST"), theme.http_post.to_hex());
}

#[test]
fn test_status_code_colors() {
    let theme = FastApiTheme::default();
    assert_eq!(theme.status_code_color(100), theme.status_1xx);
    assert_eq!(theme.status_code_color(199), theme.status_1xx);
    assert_eq!(theme.status_code_color(200), theme.status_2xx);
    assert_eq!(theme.status_code_color(201), theme.status_2xx);
    assert_eq!(theme.status_code_color(301), theme.status_3xx);
    assert_eq!(theme.status_code_color(404), theme.status_4xx);
    assert_eq!(theme.status_code_color(500), theme.status_5xx);
    assert_eq!(theme.status_code_color(503), theme.status_5xx);
    assert_eq!(theme.status_code_color(600), theme.muted);
    assert_eq!(theme.status_code_color(99), theme.muted);
}

#[test]
fn test_status_code_hex() {
    let theme = FastApiTheme::default();
    assert_eq!(theme.status_code_hex(200), theme.status_2xx.to_hex());
    assert_eq!(theme.status_code_hex(500), theme.status_5xx.to_hex());
}

#[test]
fn test_hex_helpers() {
    let theme = FastApiTheme::default();
    assert_eq!(theme.primary_hex(), theme.primary.to_hex());
    assert_eq!(theme.success_hex(), theme.success.to_hex());
    assert_eq!(theme.error_hex(), theme.error.to_hex());
    assert_eq!(theme.warning_hex(), theme.warning.to_hex());
    assert_eq!(theme.info_hex(), theme.info.to_hex());
    assert_eq!(theme.accent_hex(), theme.accent.to_hex());
}

#[test]
fn test_theme_preset_display() {
    assert_eq!(ThemePreset::Default.to_string(), "default");
    assert_eq!(ThemePreset::FastApi.to_string(), "fastapi");
    assert_eq!(ThemePreset::Neon.to_string(), "neon");
    assert_eq!(ThemePreset::Minimal.to_string(), "minimal");
    assert_eq!(ThemePreset::Monokai.to_string(), "monokai");
    assert_eq!(ThemePreset::Light.to_string(), "light");
    assert_eq!(ThemePreset::Accessible.to_string(), "accessible");
}

#[test]
fn test_theme_preset_from_str() {
    assert_eq!("default".parse::<ThemePreset>().unwrap(), ThemePreset::FastApi);
    assert_eq!("fastapi".parse::<ThemePreset>().unwrap(), ThemePreset::FastApi);
    assert_eq!("FASTAPI".parse::<ThemePreset>().unwrap(), ThemePreset::FastApi);
    assert_eq!("neon".parse::<ThemePreset>().unwrap(), ThemePreset::Neon);
    assert_eq!("cyberpunk".parse::<ThemePreset>().unwrap(), ThemePreset::Neon);
    assert_eq!("minimal".parse::<ThemePreset>().unwrap(), ThemePreset::Minimal);
    assert_eq!("gray".parse::<ThemePreset>().unwrap(), ThemePreset::Minimal);
    assert_eq!("grey".parse::<ThemePreset>().unwrap(), ThemePreset::Minimal);
    assert_eq!("monokai".parse::<ThemePreset>().unwrap(), ThemePreset::Monokai);
    assert_eq!("dark".parse::<ThemePreset>().unwrap(), ThemePreset::Monokai);
    assert_eq!("light".parse::<ThemePreset>().unwrap(), ThemePreset::Light);
    assert_eq!("accessible".parse::<ThemePreset>().unwrap(), ThemePreset::Accessible);
    assert_eq!("a11y".parse::<ThemePreset>().unwrap(), ThemePreset::Accessible);
}

#[test]
fn test_theme_preset_from_str_invalid() {
    let err = "invalid".parse::<ThemePreset>().unwrap_err();
    assert_eq!(err.invalid_name(), "invalid");
    assert!(err.to_string().contains("invalid"));
    assert!(err.to_string().contains("available"));
}

#[test]
fn test_theme_preset_theme() {
    assert_eq!(ThemePreset::FastApi.theme(), FastApiTheme::fastapi());
    assert_eq!(ThemePreset::Neon.theme(), FastApiTheme::neon());
    assert_eq!(ThemePreset::Light.theme(), FastApiTheme::light());
    assert_eq!(ThemePreset::Accessible.theme(), FastApiTheme::accessible());
}

#[test]
fn test_available_presets() {
    let presets = ThemePreset::available_presets();
    assert!(presets.contains(&"default"));
    assert!(presets.contains(&"fastapi"));
    assert!(presets.contains(&"neon"));
    assert!(presets.contains(&"minimal"));
    assert!(presets.contains(&"monokai"));
    assert!(presets.contains(&"light"));
    assert!(presets.contains(&"accessible"));
}

#[test]
fn test_theme_icons_unicode() {
    let icons = ThemeIcons::unicode();
    assert!(!icons.success.is_empty());
    assert!(!icons.failure.is_empty());
    assert!(!icons.warning.is_empty());
    assert!(!icons.info.is_empty());
}

#[test]
fn test_theme_icons_ascii() {
    let icons = ThemeIcons::ascii();
    assert!(icons.success.is_ascii());
    assert!(icons.failure.is_ascii());
    assert!(icons.warning.is_ascii());
    assert!(icons.info.is_ascii());
}

#[test]
fn test_theme_icons_compact() {
    let icons = ThemeIcons::compact();
    assert!(!icons.success.is_empty());
    assert!(!icons.arrow_right.is_empty());
}

#[test]
fn test_theme_spacing_default() {
    let spacing = ThemeSpacing::default();
    assert!(spacing.indent > 0);
    assert!(spacing.method_width >= 7);
}

#[test]
fn test_theme_spacing_compact() {
    let compact = ThemeSpacing::compact();
    let default = ThemeSpacing::default();
    assert!(compact.indent <= default.indent);
}

#[test]
fn test_theme_spacing_spacious() {
    let spacious = ThemeSpacing::spacious();
    let default = ThemeSpacing::default();
    assert!(spacious.indent >= default.indent);
}

#[test]
fn test_box_style_rounded() {
    let style = BoxStyle::rounded();
    assert_ne!(style.top_left, style.horizontal);
    assert_ne!(style.vertical, style.horizontal);
}

#[test]
fn test_box_style_ascii() {
    let style = BoxStyle::ascii();
    assert_eq!(style.top_left, '+');
    assert_eq!(style.horizontal, '-');
    assert_eq!(style.vertical, '|');
}

#[test]
fn test_box_style_horizontal_line() {
    let style = BoxStyle::rounded();
    let line = style.horizontal_line(5);
    assert_eq!(line.chars().count(), 5);
}

#[test]
fn test_box_style_borders() {
    let style = BoxStyle::rounded();
    let top = style.top_border(10);
    let bottom = style.bottom_border(10);
    assert!(top.starts_with(style.top_left));
    assert!(top.ends_with(style.top_right));
    assert!(bottom.starts_with(style.bottom_left));
    assert!(bottom.ends_with(style.bottom_right));
}

#[test]
fn test_box_style_preset_parse() {
    assert_eq!("rounded".parse::<BoxStylePreset>().unwrap(), BoxStylePreset::Rounded);
    assert_eq!("heavy".parse::<BoxStylePreset>().unwrap(), BoxStylePreset::Heavy);
    assert_eq!("ascii".parse::<BoxStylePreset>().unwrap(), BoxStylePreset::Ascii);
    assert!("invalid".parse::<BoxStylePreset>().is_err());
}

#[test]
fn box_borders_are_exact() {
    assert_eq!(BoxStyle::ascii().top_border(5), "+---+");
    assert_eq!(BoxStyle::ascii().bottom_border(1), "++");
    assert_eq!(BoxStylePreset::NoBorder.style(), BoxStyle::none());
    assert!("INVISIBLE".parse::<BoxStylePreset>().unwrap() == BoxStylePreset::NoBorder);
}

#[test]
fn hex_round_trip_and_leading_hashes() {
    let c = Color::from_hex(0x1a2b3c);
    assert_eq!(hex_to_rgb(&c.to_hex()), Some(c.to_rgb()));
    assert_eq!(hex_to_rgb("##abc"), Some((0xaa, 0xbb, 0xcc)));
    assert_eq!(hex_to_rgb("#+F+F+F"), Some((15, 15, 15)));
}

#[test]
fn hex_text_reads_back_as_the_same_color() {
    for &(r, g, b) in &[(0u8, 0u8, 0u8), (255, 255, 255), (0, 150, 136), (18, 52, 171), (1, 2, 3)] {
        assert_eq!(hex_to_rgb(&rgb_to_hex((r, g, b))), Some((r, g, b)));
    }
}

#[test]
fn preset_names_select_their_preset() {
    for p in [
        ThemePreset::FastApi,
        ThemePreset::Neon,
        ThemePreset::Minimal,
        ThemePreset::Monokai,
        ThemePreset::Light,
        ThemePreset::Accessible,
    ] {
        assert_eq!(ThemePreset::parse(&p.to_string()).unwrap(), p);
    }
    assert_eq!(ThemePreset::parse(&ThemePreset::Default.to_string()).unwrap(), ThemePreset::FastApi);
}

use sss_code::color::{parse_hex_color, Color};
use sss_code::error::ResolveError;
use sss_code::format::{resolve_format, ImageFormatTag};
use sss_code::render::resolve_all;
use sss_code::resolve::{resolve_theme, ThemeChoice, ThemeRegistry};
use sss_code::serial::theme_to_vim;
use sss_code::syntax::resolve_syntax;
use sss_code::text::first_line;
use sss_code::theme::{theme_from_vim, ColorField, Provenance};

fn rgb(r: u8, g: u8, b: u8) -> Color {
    Color { r, g, b }
}

#[test]
fn hex_color_plain_and_hash() {
    assert_eq!(parse_hex_color("dab997"), Some(Some(rgb(0xda, 0xb9, 0x97))));
    assert_eq!(parse_hex_color("#dab997"), Some(Some(rgb(0xda, 0xb9, 0x97))));
    assert_eq!(parse_hex_color("#DAB997"), Some(Some(rgb(0xda, 0xb9, 0x97))));
}

#[test]
fn hex_color_empty_is_unset() {
    assert_eq!(parse_hex_color(""), Some(None));
}

#[test]
fn hex_color_malformed() {
    assert_eq!(parse_hex_color("#fff"), None);
    assert_eq!(parse_hex_color("gggggg"), None);
    assert_eq!(parse_hex_color("#dab99"), None);
    assert_eq!(parse_hex_color("#dab9977"), None);
}

#[test]
fn vim_theme_basic_scopes() {
    let t = theme_from_vim("Comment,#8a8a8a,,,;String,#afaf00,,,").unwrap();
    assert_eq!(t.scopes.len(), 2);
    assert_eq!(t.scopes[0].name, "Comment");
    assert_eq!(t.scopes[0].foreground, Some(rgb(0x8a, 0x8a, 0x8a)));
    assert_eq!(t.scopes[0].background, None);
    assert_eq!(t.scopes[1].name, "String");
    assert_eq!(t.scopes[1].foreground, Some(rgb(0xaf, 0xaf, 0x00)));
    assert!(matches!(t.provenance, Provenance::Synthesized));
}

#[test]
fn vim_theme_duplicate_scope_last_wins() {
    let t = theme_from_vim("Comment,#111111,,,;Comment,#222222,,,").unwrap();
    assert_eq!(t.scopes.len(), 1);
    assert_eq!(t.scopes[0].name, "Comment");
    assert_eq!(t.scopes[0].foreground, Some(rgb(0x22, 0x22, 0x22)));
}

#[test]
fn vim_theme_normal_sets_defaults() {
    let t = theme_from_vim("Normal,#dab997,#262626,,").unwrap();
    assert_eq!(t.foreground, Some(rgb(0xda, 0xb9, 0x97)));
    assert_eq!(t.background, Some(rgb(0x26, 0x26, 0x26)));
    assert_eq!(t.scopes.len(), 0);
}

#[test]
fn vim_theme_missing_fields_are_unset() {
    let t = theme_from_vim("Comment").unwrap();
    assert_eq!(t.scopes.len(), 1);
    assert_eq!(t.scopes[0].name, "Comment");
    assert_eq!(t.scopes[0].foreground, None);
    assert_eq!(t.scopes[0].background, None);
    let t = theme_from_vim("Comment,#111111").unwrap();
    assert_eq!(t.scopes[0].foreground, Some(rgb(0x11, 0x11, 0x11)));
    assert_eq!(t.scopes[0].background, None);
}

#[test]
fn vim_theme_flags() {
    let t = theme_from_vim("SpellBad,#d75f5f,,undercurl,").unwrap();
    assert!(t.scopes[0].flags.undercurl);
    assert!(!t.scopes[0].flags.bold);
    assert!(!t.scopes[0].flags.underline);
    let t = theme_from_vim("Title,,,bold italic,").unwrap();
    assert!(t.scopes[0].flags.bold);
    assert!(t.scopes[0].flags.italic);
    assert!(!t.scopes[0].flags.nocombine);
}

#[test]
fn vim_theme_unknown_flag_ignored() {
    let t = theme_from_vim("Title,,,shiny,").unwrap();
    assert!(!t.scopes[0].flags.bold);
    assert!(!t.scopes[0].flags.italic);
    assert!(!t.scopes[0].flags.underline);
    assert!(!t.scopes[0].flags.undercurl);
    assert!(!t.scopes[0].flags.nocombine);
}

#[test]
fn vim_theme_fifth_field_ignored() {
    let t = theme_from_vim("Comment,#8a8a8a,,,reserved-junk").unwrap();
    assert_eq!(t.scopes[0].foreground, Some(rgb(0x8a, 0x8a, 0x8a)));
}

#[test]
fn vim_theme_malformed_foreground_position() {
    let e = theme_from_vim("Comment,#zzzzzz,,,").unwrap_err();
    assert_eq!(e.rule_index, 1);
    assert_eq!(e.reason, ColorField::Foreground);
}

#[test]
fn vim_theme_malformed_background_in_second_rule() {
    let e = theme_from_vim("Comment,#111111,,,;String,#222222,#ggg,,").unwrap_err();
    assert_eq!(e.rule_index, 2);
    assert_eq!(e.reason, ColorField::Background);
}

#[test]
fn vim_theme_full_example() {
    let t = theme_from_vim("Normal,#dab997,#262626,,;Comment,#8a8a8a,,,;Keyword,#d485ad,,,")
        .unwrap();
    assert_eq!(t.foreground, Some(rgb(0xda, 0xb9, 0x97)));
    assert_eq!(t.background, Some(rgb(0x26, 0x26, 0x26)));
    assert_eq!(t.scopes.len(), 2);
    assert_eq!(t.scopes[0].name, "Comment");
    assert_eq!(t.scopes[1].name, "Keyword");
}

#[test]
fn round_trip_preserves_fields() {
    let spec = "Normal,#dab997,#262626,,;Comment,#8a8a8a,,,;Title,#83adad,,bold underline,";
    let t = theme_from_vim(spec).unwrap();
    let serialized = theme_to_vim(&t);
    let u = theme_from_vim(&serialized).unwrap();
    assert_eq!(u.foreground, t.foreground);
    assert_eq!(u.background, t.background);
    assert_eq!(u.scopes.len(), t.scopes.len());
    for (a, b) in t.scopes.iter().zip(u.scopes.iter()) {
        assert_eq!(a.name, b.name);
        assert_eq!(a.foreground, b.foreground);
        assert_eq!(a.background, b.background);
        assert_eq!(a.flags, b.flags);
    }
}

#[test]
fn round_trip_keeps_unset_fields_unset() {
    let t = theme_from_vim("Comment,,#303030,,").unwrap();
    let u = theme_from_vim(&theme_to_vim(&t)).unwrap();
    assert_eq!(u.scopes[0].foreground, None);
    assert_eq!(u.scopes[0].background, Some(rgb(0x30, 0x30, 0x30)));
    assert_eq!(u.foreground, None);
    assert_eq!(u.background, None);
}

#[test]
fn format_explicit_unsupported_fails_despite_default() {
    let e = resolve_format(&Some("tiff-but-misspelled".to_string())).unwrap_err();
    assert_eq!(e.name, "tiff-but-misspelled");
}

#[test]
fn format_absent_resolves_to_default_png() {
    assert_eq!(resolve_format(&None).unwrap(), ImageFormatTag::Png);
    assert_eq!(
        resolve_format(&Some("png".to_string())).unwrap(),
        resolve_format(&None).unwrap()
    );
}

#[test]
fn format_table_and_case() {
    assert_eq!(resolve_format(&Some("PNG".to_string())).unwrap(), ImageFormatTag::Png);
    assert_eq!(resolve_format(&Some("jpg".to_string())).unwrap(), ImageFormatTag::Jpeg);
    assert_eq!(resolve_format(&Some("jpeg".to_string())).unwrap(), ImageFormatTag::Jpeg);
    assert_eq!(resolve_format(&Some("bmp".to_string())).unwrap(), ImageFormatTag::Bmp);
    assert_eq!(resolve_format(&Some("exr".to_string())).unwrap(), ImageFormatTag::OpenExr);
    assert_eq!(resolve_format(&Some("ff".to_string())).unwrap(), ImageFormatTag::Farbfeld);
    assert!(resolve_format(&Some("".to_string())).is_err());
}

fn registry(names: &[&str]) -> ThemeRegistry {
    ThemeRegistry { names: names.iter().map(|s| s.to_string()).collect() }
}

#[test]
fn theme_resolver_vim_spec_ignores_named() {
    let reg = registry(&["gruvbox"]);
    let vim = Some("Normal,#111111,,,".to_string());
    let named = Some("gruvbox".to_string());
    let with_named = resolve_theme(&vim, &named, &reg).unwrap();
    let without_named = resolve_theme(&vim, &None, &reg).unwrap();
    match (&with_named, &without_named) {
        (ThemeChoice::Synthesized(a), ThemeChoice::Synthesized(b)) => {
            assert_eq!(a.foreground, Some(rgb(0x11, 0x11, 0x11)));
            assert_eq!(b.foreground, Some(rgb(0x11, 0x11, 0x11)));
        }
        _ => panic!("a present mini-language string must synthesize the theme"),
    }
}

#[test]
fn theme_resolver_named_lookup_and_fallback() {
    let reg = registry(&["gruvbox", "base16-ocean.dark"]);
    match resolve_theme(&None, &Some("gruvbox".to_string()), &reg).unwrap() {
        ThemeChoice::Builtin(n) => assert_eq!(n, "gruvbox"),
        _ => panic!("registry hit must be builtin"),
    }
    match resolve_theme(&None, &Some("missing-theme".to_string()), &reg).unwrap() {
        ThemeChoice::External(n) => assert_eq!(n, "missing-theme"),
        _ => panic!("registry miss must fall back to the external loader"),
    }
}

#[test]
fn theme_resolver_default_name() {
    let reg = registry(&["base16-ocean.dark"]);
    match resolve_theme(&None, &None, &reg).unwrap() {
        ThemeChoice::Builtin(n) => assert_eq!(n, "base16-ocean.dark"),
        _ => panic!("the default name is in this registry"),
    }
    let empty = registry(&[]);
    match resolve_theme(&None, &None, &empty).unwrap() {
        ThemeChoice::External(n) => assert_eq!(n, "base16-ocean.dark"),
        _ => panic!("the default name misses this registry"),
    }
}

#[test]
fn theme_resolver_propagates_parse_error() {
    let reg = registry(&["gruvbox"]);
    let e = resolve_theme(&Some("Bad,#zz,,,".to_string()), &None, &reg).unwrap_err();
    assert_eq!(e.rule_index, 1);
    assert_eq!(e.reason, ColorField::Foreground);
}

#[test]
fn first_line_extraction() {
    assert_eq!(first_line("fn main() {}\nmore"), "fn main() {}");
    assert_eq!(first_line("single line"), "single line");
    assert_eq!(first_line(""), "");
    assert_eq!(first_line("\nrest"), "");
}

#[test]
fn syntax_extension_hit() {
    let ss = sss_code::syntax::load_default_syntaxes();
    let r = resolve_syntax(&ss, "fn main() {}", &Some("rs".to_string())).unwrap();
    assert_eq!(r.name, "Rust");
}

#[test]
fn syntax_extension_miss_never_sniffs() {
    let ss = sss_code::syntax::load_default_syntaxes();
    // the first line alone would match a shell grammar, but the provided
    // extension must decide alone
    let r = resolve_syntax(&ss, "#!/bin/bash\necho hi", &Some("no-such-ext-xyz".to_string()));
    assert!(r.is_err());
}

#[test]
fn syntax_first_line_sniffing() {
    let ss = sss_code::syntax::load_default_syntaxes();
    let r = resolve_syntax(&ss, "#!/bin/bash\necho hi", &None).unwrap();
    assert!(r.name.contains("Shell") || r.name.contains("Bash") || r.name.contains("bash"));
    let miss = resolve_syntax(&ss, "no grammar sniffs this line xyzzy", &None);
    assert!(miss.is_err());
}

#[test]
fn end_to_end_default_pipeline() {
    let ss = sss_code::syntax::load_default_syntaxes();
    let themes = syntect::highlighting::ThemeSet::load_defaults();
    let reg = ThemeRegistry { names: themes.themes.keys().cloned().collect() };
    let cfg = resolve_all(
        &ss,
        &reg,
        "fn main() {}".to_string(),
        &Some("rs".to_string()),
        &None,
        &None,
        &None,
        false,
        "out.png".to_string(),
    )
    .unwrap();
    assert_eq!(cfg.syntax.name, "Rust");
    assert_eq!(cfg.format, ImageFormatTag::Png);
    match &cfg.theme {
        ThemeChoice::Builtin(n) => assert_eq!(n.as_str(), "base16-ocean.dark"),
        _ => panic!("the default theme is among syntect's built-ins"),
    }
    assert_eq!(cfg.content, "fn main() {}");
    assert!(!cfg.copy);
    assert_eq!(cfg.output, "out.png");
}

#[test]
fn end_to_end_first_failure_wins() {
    let ss = sss_code::syntax::load_default_syntaxes();
    let reg = registry(&[]);
    // syntax failure comes before the theme failure
    let r = resolve_all(
        &ss,
        &reg,
        "plain text".to_string(),
        &Some("no-such-ext-xyz".to_string()),
        &Some("Bad,#zz,,,".to_string()),
        &None,
        &Some("tiff-but-misspelled".to_string()),
        false,
        "out".to_string(),
    );
    assert!(matches!(r.unwrap_err(), ResolveError::SyntaxNotFound(_)));
    // with the syntax fine, the theme failure comes before the format one
    let r = resolve_all(
        &ss,
        &reg,
        "fn main() {}".to_string(),
        &Some("rs".to_string()),
        &Some("Bad,#zz,,,".to_string()),
        &None,
        &Some("tiff-but-misspelled".to_string()),
        false,
        "out".to_string(),
    );
    assert!(matches!(r.unwrap_err(), ResolveError::ThemeParse(_)));
    // with syntax and theme fine, the format failure surfaces
    let r = resolve_all(
        &ss,
        &reg,
        "fn main() {}".to_string(),
        &Some("rs".to_string()),
        &Some("Normal,#111111,,,".to_string()),
        &None,
        &Some("tiff-but-misspelled".to_string()),
        false,
        "out".to_string(),
    );
    match r.unwrap_err() {
        ResolveError::UnsupportedFormat(u) => assert_eq!(u.name, "tiff-but-misspelled"),
        _ => panic!("the format name must be the failure here"),
    }
}

//! Identifier synthesis on concrete relative paths.

use asset_pipeline::naming::path_to_variant_name;

#[test]
fn test_basic_file_paths() {
    assert_eq!(path_to_variant_name("image.png"), "ImagePng");
    assert_eq!(path_to_variant_name("style.css"), "StyleCss");
}

#[test]
fn test_nested_paths() {
    assert_eq!(path_to_variant_name("ui/button.svg"), "UiButtonSvg");
    assert_eq!(
        path_to_variant_name("assets/icons/home.png"),
        "AssetsIconsHomePng"
    );
}

#[test]
fn test_windows_path_separators() {
    assert_eq!(path_to_variant_name(r"ui\button.svg"), "UiButtonSvg");
    assert_eq!(
        path_to_variant_name(r"assets\icons\home.png"),
        "AssetsIconsHomePng"
    );
}

#[test]
fn test_paths_with_hyphens() {
    assert_eq!(path_to_variant_name("user-icon.png"), "UserIconPng");
    assert_eq!(
        path_to_variant_name("ui/user-profile/avatar_small.jpg"),
        "UiUserProfileAvatarSmallJpg"
    );
}

#[test]
fn test_paths_with_underscores() {
    assert_eq!(path_to_variant_name("button_large.png"), "ButtonLargePng");
}

#[test]
fn test_paths_starting_with_numbers() {
    assert_eq!(path_to_variant_name("1icon.png"), "Asset1IconPng");
    assert_eq!(path_to_variant_name("2021/logo.png"), "Asset2021LogoPng");
}

#[test]
fn test_paths_with_multiple_dots() {
    assert_eq!(path_to_variant_name("config.dev.json"), "ConfigDevJson");
}

#[test]
fn test_consecutive_separators_contribute_nothing() {
    assert_eq!(path_to_variant_name("weird..png"), "WeirdPng");
    assert_eq!(path_to_variant_name("/leading.png"), "LeadingPng");
}

#[test]
fn test_uppercase_is_normalized() {
    assert_eq!(path_to_variant_name("LOUD.PNG"), "LoudPng");
}

#[test]
fn test_camel_case_words_are_split() {
    assert_eq!(path_to_variant_name("myFile.png"), "MyFilePng");
}

#[test]
fn test_synthesis_is_deterministic() {
    let a = path_to_variant_name("ui/user-profile/avatar_small.jpg");
    let b = path_to_variant_name("ui/user-profile/avatar_small.jpg");
    assert_eq!(a, b);
}

#[test]
fn test_no_identifier_starts_with_digit() {
    for p in ["1icon.png", "2021/logo.png", "9.9.toml", "image.png", "7"] {
        let name = path_to_variant_name(p);
        let first = name.chars().next().unwrap();
        assert!(!first.is_ascii_digit(), "{} -> {}", p, name);
    }
}

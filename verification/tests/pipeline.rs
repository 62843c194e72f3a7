//! End-to-end runs of the pipeline over modelled directory trees, and the
//! error cases of assembly.

use asset_pipeline::assembly::assemble;
use asset_pipeline::discovery::{discover, FsNode};
use asset_pipeline::errors::AssetError;
use asset_pipeline::pipeline::build_group;

fn file(name: &str) -> FsNode {
    FsNode::File { name: name.to_string() }
}

fn dir(name: &str, children: Vec<FsNode>) -> FsNode {
    FsNode::Dir { name: name.to_string(), children }
}

#[test]
fn test_flat_directory_no_filters() {
    let base = "/assets".to_string();
    let entries = vec![file("image.png"), file("style.css")];
    let group = build_group(&base, &entries, None, None).unwrap();
    assert_eq!(group.entries.len(), 2);
    assert_eq!(group.entries[0].identifier, "ImagePng");
    assert_eq!(group.entries[0].relative_path, "image.png");
    assert_eq!(group.entries[0].absolute_path, "/assets/image.png");
    assert_eq!(group.entries[1].identifier, "StyleCss");
    assert_eq!(group.entries[1].relative_path, "style.css");
    assert_eq!(group.entries[1].absolute_path, "/assets/style.css");
}

#[test]
fn test_nested_directories_with_allow_filter() {
    let base = "/proj".to_string();
    let entries = vec![
        dir("ui", vec![file("button.svg")]),
        dir("assets", vec![dir("icons", vec![file("home.png")])]),
    ];
    let inc = r"\.(svg|png)$".to_string();
    let group = build_group(&base, &entries, Some(&inc), None).unwrap();
    assert_eq!(group.entries.len(), 2);
    assert_eq!(group.entries[0].identifier, "UiButtonSvg");
    assert_eq!(group.entries[0].relative_path, "ui/button.svg");
    assert_eq!(group.entries[1].identifier, "AssetsIconsHomePng");
    assert_eq!(group.entries[1].relative_path, "assets/icons/home.png");
}

#[test]
fn test_digit_leading_name_is_prefixed() {
    let base = "/data".to_string();
    let entries = vec![file("1icon.png")];
    let group = build_group(&base, &entries, None, None).unwrap();
    assert_eq!(group.entries.len(), 1);
    assert_eq!(group.entries[0].identifier, "Asset1IconPng");
}

#[test]
fn test_ignore_pattern_drops_matching_file() {
    let base = "/data".to_string();
    let entries = vec![file("config.json"), file("config.temp.json")];
    let ign = "temp".to_string();
    let group = build_group(&base, &entries, None, Some(&ign)).unwrap();
    assert_eq!(group.entries.len(), 1);
    assert_eq!(group.entries[0].identifier, "ConfigJson");
    assert_eq!(group.entries[0].relative_path, "config.json");
}

#[test]
fn test_ignored_directory_is_not_descended_into() {
    let base = "/site".to_string();
    let entries = vec![
        dir("private", vec![file("logo.png")]),
        file("ok.png"),
    ];
    let inc = r"\.png$".to_string();
    let ign = "private".to_string();
    let group = build_group(&base, &entries, Some(&inc), Some(&ign)).unwrap();
    assert_eq!(group.entries.len(), 1);
    assert_eq!(group.entries[0].relative_path, "ok.png");
}

#[test]
fn test_unfiltered_discovery_returns_every_file() {
    let base = "/root".to_string();
    let entries = vec![
        file("a.txt"),
        dir("sub", vec![file("b.txt"), dir("deep", vec![file("c.txt")])]),
        file("d.txt"),
    ];
    let found = discover(&base, &entries, None, None);
    assert_eq!(
        found,
        vec![
            "/root/a.txt".to_string(),
            "/root/sub/b.txt".to_string(),
            "/root/sub/deep/c.txt".to_string(),
            "/root/d.txt".to_string(),
        ]
    );
}

#[test]
fn test_empty_input_is_no_matches() {
    let base = "/data".to_string();
    let entries: Vec<FsNode> = vec![];
    let r = build_group(&base, &entries, None, None);
    assert_eq!(r.unwrap_err(), AssetError::NoMatches);
}

#[test]
fn test_filters_matching_nothing_is_no_matches() {
    let base = "/data".to_string();
    let entries = vec![file("notes.txt")];
    let inc = r"\.png$".to_string();
    let r = build_group(&base, &entries, Some(&inc), None);
    assert_eq!(r.unwrap_err(), AssetError::NoMatches);
}

#[test]
fn test_colliding_identifiers_name_both_paths() {
    let base = "/data".to_string();
    let entries = vec![file("a-b.png"), dir("a", vec![file("b.png")])];
    let r = build_group(&base, &entries, None, None);
    assert_eq!(
        r.unwrap_err(),
        AssetError::DuplicateIdentifier {
            identifier: "ABPng".to_string(),
            first_path: "a-b.png".to_string(),
            second_path: "a/b.png".to_string(),
        }
    );
}

#[test]
fn test_invalid_allow_pattern_is_reported() {
    let base = "/data".to_string();
    let entries = vec![file("x.png")];
    let inc = "(".to_string();
    let r = build_group(&base, &entries, Some(&inc), None);
    assert_eq!(
        r.unwrap_err(),
        AssetError::InvalidPattern { pattern: "(".to_string() }
    );
}

#[test]
fn test_invalid_ignore_pattern_is_reported() {
    let base = "/data".to_string();
    let entries = vec![file("x.png")];
    let ign = "[".to_string();
    let r = build_group(&base, &entries, None, Some(&ign));
    assert_eq!(
        r.unwrap_err(),
        AssetError::InvalidPattern { pattern: "[".to_string() }
    );
}

#[test]
fn test_assemble_builds_entries_in_order() {
    let base = "/b".to_string();
    let paths = vec!["/b/x.png".to_string(), "/b/ui/y.svg".to_string()];
    let group = assemble(&base, &paths).unwrap();
    assert_eq!(group.entries.len(), 2);
    assert_eq!(group.entries[0].identifier, "XPng");
    assert_eq!(group.entries[0].relative_path, "x.png");
    assert_eq!(group.entries[0].absolute_path, "/b/x.png");
    assert_eq!(group.entries[1].identifier, "UiYSvg");
    assert_eq!(group.entries[1].relative_path, "ui/y.svg");
}

#[test]
fn test_assemble_rejects_path_outside_base() {
    let base = "/b".to_string();
    let paths = vec!["/elsewhere/f.png".to_string()];
    let r = assemble(&base, &paths);
    assert_eq!(
        r.unwrap_err(),
        AssetError::PathOutsideBase { path: "/elsewhere/f.png".to_string() }
    );
}

#[test]
fn test_assemble_rejects_empty_path_list() {
    let base = "/b".to_string();
    let paths: Vec<String> = vec![];
    let r = assemble(&base, &paths);
    assert_eq!(r.unwrap_err(), AssetError::NoMatches);
}

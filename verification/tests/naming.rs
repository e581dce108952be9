//! Names, paths and times.

use proton_drive_rs::ids::{LinkId, NodeUid, VolumeId};
use proton_drive_rs::names::{alternate_names, validate_node_name, MAX_NODE_NAME_LENGTH};
use proton_drive_rs::time::epoch_to_iso8601;
use proton_drive_rs::tree::{join_node_path, path_segments};
use proton_drive_rs::drive_cache::context_share_path;

fn strings(names: &[&str]) -> Vec<String> {
    names.iter().map(|name| name.to_string()).collect()
}

#[test]
fn path_segments_ignores_separator_noise() {
    assert_eq!(path_segments("a/b"), ["a", "b"]);
    assert_eq!(path_segments("/a/b"), ["a", "b"]);
    assert_eq!(path_segments("/a/b/"), ["a", "b"]);
    assert_eq!(path_segments("//a///b//"), ["a", "b"]);
    assert!(path_segments("").is_empty());
    assert!(path_segments("/").is_empty());
    assert!(path_segments("///").is_empty());
}

#[test]
fn join_node_path_round_trips_through_path_segments() {
    let names = strings(&["Documents", "a b", "weird: name?", "trailing "]);
    let path = join_node_path(&names);
    assert_eq!(path, "/Documents/a b/weird: name?/trailing ");
    assert_eq!(path_segments(&path), names);
}

#[test]
fn join_node_path_of_the_root_is_a_bare_slash() {
    assert_eq!(join_node_path(&Vec::new()), "/");
}

#[test]
fn epoch_formats_as_iso8601_utc() {
    assert_eq!(epoch_to_iso8601(1_782_482_460), "2026-06-26T14:01:00Z");
    assert_eq!(epoch_to_iso8601(0), "1970-01-01T00:00:00Z");
    assert_eq!(epoch_to_iso8601(-1), "1969-12-31T23:59:59Z");
    assert_eq!(epoch_to_iso8601(1_709_208_000), "2024-02-29T12:00:00Z");
}

#[test]
fn node_names_are_validated_before_they_are_sent() {
    assert!(validate_node_name("report.txt").is_ok());
    assert!(validate_node_name("").is_err());

    let longest = "a".repeat(MAX_NODE_NAME_LENGTH);
    assert!(validate_node_name(&longest).is_ok());
    assert!(validate_node_name(&format!("{longest}a")).is_err());

    // Counted in characters, not bytes.
    assert!(validate_node_name(&"🙂".repeat(MAX_NODE_NAME_LENGTH)).is_ok());
}

#[test]
fn alternate_names_keeps_extension() {
    let got: Vec<String> = alternate_names("report.txt", 3);
    assert_eq!(got, ["report (1).txt", "report (2).txt", "report (3).txt"]);
}

#[test]
fn alternate_names_no_extension() {
    let got: Vec<String> = alternate_names("folder", 2);
    assert_eq!(got, ["folder (1)", "folder (2)"]);
}

#[test]
fn alternate_names_uses_last_dot_only() {
    let first = alternate_names("archive.tar.gz", 1).remove(0);
    assert_eq!(first, "archive.tar (1).gz");
}

#[test]
fn context_share_route_matches_the_drive_api() {
    let uid = NodeUid::new(VolumeId::new("volume-1"), LinkId::new("link-1"));
    assert_eq!(
        context_share_path(&uid),
        "volumes/volume-1/links/link-1/context"
    );
}

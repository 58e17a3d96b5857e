use riteed::target::{CompareTarget, CompareTargetKind};

#[test]
fn file_targets_are_titled_by_their_base_name() {
    let target = CompareTarget::file(String::from("file:///tmp/a.txt"), Some(String::from("a.txt")));
    assert_eq!(target.kind, CompareTargetKind::File);
    assert_eq!(target.title, "a.txt");
    assert_eq!(target.uri.as_deref(), Some("file:///tmp/a.txt"));
    assert!(target.is_refreshable());

    let untitled = CompareTarget::disk(String::from("file:///"), None);
    assert_eq!(untitled.title, "file:///");
}

#[test]
fn text_targets_cannot_be_refreshed() {
    let target = CompareTarget::text(String::from("Clipboard"), String::from("text"));
    assert_eq!(target.kind, CompareTargetKind::Text);
    assert_eq!(target.uri, None);
    assert_eq!(target.text.as_deref(), Some("text"));
    assert!(!target.is_refreshable());
}

#[test]
fn only_the_document_disk_target_matches_its_uri() {
    let disk = CompareTarget::disk(String::from("file:///a"), Some(String::from("a")));
    assert!(disk.is_disk_of("file:///a"));
    assert!(!disk.is_disk_of("file:///b"));
    let other = CompareTarget::file(String::from("file:///a"), Some(String::from("a")));
    assert!(!other.is_disk_of("file:///a"));
    let text = CompareTarget::text(String::from("t"), String::from("x"));
    assert!(!text.is_disk_of("file:///a"));
}

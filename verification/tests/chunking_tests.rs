use riteed::chunking::chunk_end_at_char_boundary;

#[test]
fn chunk_end_respects_target_and_length() {
    assert_eq!(chunk_end_at_char_boundary("abcdef", 0, 4), 4);
    assert_eq!(chunk_end_at_char_boundary("abcdef", 4, 4), 6);
    assert_eq!(chunk_end_at_char_boundary("abcdef", 6, 4), 6);
}

#[test]
fn chunk_end_backs_up_to_char_boundary() {
    let text = "abé";
    assert_eq!(chunk_end_at_char_boundary(text, 0, 3), 2);
    assert_eq!(chunk_end_at_char_boundary(text, 2, 3), 4);
}

#[test]
fn chunk_end_handles_multibyte_run() {
    let text = "ééé";
    assert_eq!(chunk_end_at_char_boundary(text, 0, 1), 0);
    assert_eq!(chunk_end_at_char_boundary(text, 0, 2), 2);
}

#[test]
fn chunk_end_saturates_huge_targets() {
    assert_eq!(chunk_end_at_char_boundary("abc", 1, usize::MAX), 3);
}

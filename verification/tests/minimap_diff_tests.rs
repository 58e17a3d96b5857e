use riteed::git_process::GitProcessError;
use riteed::minimap_diff::{
    all_deleted_bands, bands_for_texts, current_line_count, decode_minimap_text, push_band,
    text_fingerprint, MinimapDiffBand, MinimapDiffBandKind, MinimapDiffFingerprint,
};

#[test]
fn bands_mark_added_and_modified_lines() {
    let bands = bands_for_texts("same\nold\n", "same\nnew\nadded\n");
    assert_eq!(
        bands,
        vec![
            MinimapDiffBand { kind: MinimapDiffBandKind::Modified, start_line: 1, end_line: 2 },
            MinimapDiffBand { kind: MinimapDiffBandKind::Added, start_line: 2, end_line: 3 },
        ]
    );
}

#[test]
fn deletion_only_maps_to_previous_or_first_surviving_line() {
    assert_eq!(
        bands_for_texts("a\nb\nc\n", "a\nc\n"),
        vec![MinimapDiffBand { kind: MinimapDiffBandKind::Deleted, start_line: 0, end_line: 1 }]
    );
    assert_eq!(
        bands_for_texts("a\nb\nc\n", "b\nc\n"),
        vec![MinimapDiffBand { kind: MinimapDiffBandKind::Deleted, start_line: 0, end_line: 1 }]
    );
}

#[test]
fn clean_and_too_large_inputs_have_no_bands() {
    assert!(bands_for_texts("same\n", "same\n").is_empty());
    let large = "x".repeat(1_000_001);
    assert!(bands_for_texts(&large, "").is_empty());
}

#[test]
fn text_decoder_rejects_binary_and_invalid_utf8() {
    assert_eq!(decode_minimap_text(b"text".to_vec()).as_deref(), Ok("text"));
    assert_eq!(decode_minimap_text(b"a\0b".to_vec()), Err(GitProcessError::BinaryContent));
    assert_eq!(decode_minimap_text(vec![0xff]), Err(GitProcessError::ParseFailed));
}

#[test]
fn fnv_fingerprint_is_deterministic_and_length_aware() {
    let first = text_fingerprint("abc");
    let second = text_fingerprint("abc");
    let different = text_fingerprint("abc\n");
    assert_eq!(first, second);
    assert_ne!(first, different);
    assert_eq!(first.len, 3);
}

#[test]
fn fingerprint_counts_characters_not_bytes() {
    assert_eq!(text_fingerprint("abc").chars, 3);
    assert_eq!(text_fingerprint("æøå").chars, 3);
    assert_eq!(text_fingerprint("æøå").len, 6);
    assert_eq!(text_fingerprint("").chars, 0);
}

#[test]
fn fnv_hash_matches_the_reference_values() {
    assert_eq!(text_fingerprint("").hash, 0xcbf2_9ce4_8422_2325);
    assert_eq!(text_fingerprint("a").hash, 0xaf63_dc4c_8601_ec8c);
    let fingerprint = MinimapDiffFingerprint::new(String::from("HEAD"), "a");
    assert_eq!(fingerprint.source, "HEAD");
    assert_eq!(fingerprint.text, text_fingerprint("a"));
}

#[test]
fn bands_merge_when_they_touch() {
    let mut bands = Vec::new();
    push_band(&mut bands, MinimapDiffBandKind::Added, 3);
    push_band(&mut bands, MinimapDiffBandKind::Added, 4);
    push_band(&mut bands, MinimapDiffBandKind::Deleted, 4);
    push_band(&mut bands, MinimapDiffBandKind::Added, 9);
    assert_eq!(
        bands,
        vec![
            MinimapDiffBand { kind: MinimapDiffBandKind::Added, start_line: 3, end_line: 5 },
            MinimapDiffBand { kind: MinimapDiffBandKind::Deleted, start_line: 4, end_line: 5 },
            MinimapDiffBand { kind: MinimapDiffBandKind::Added, start_line: 9, end_line: 10 },
        ]
    );
}

#[test]
fn whole_file_deletion_covers_every_line() {
    assert!(all_deleted_bands("").is_empty());
    assert_eq!(
        all_deleted_bands("a\nb"),
        vec![MinimapDiffBand { kind: MinimapDiffBandKind::Deleted, start_line: 0, end_line: 2 }]
    );
    assert_eq!(current_line_count("a\nb\n"), 2);
    assert_eq!(current_line_count("\n\n"), 2);
    assert_eq!(current_line_count("a\r\nb"), 2);
}

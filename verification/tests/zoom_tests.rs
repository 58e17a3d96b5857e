use riteed::zoom::{
    clamp_zoom_percent, css_escape, font_family_name_matches, normalized_font_size, scale_font_size,
    scroll_past_end_bottom_margin, PANGO_SCALE,
};

#[test]
fn zoom_percent_clamps() {
    assert_eq!(clamp_zoom_percent(40), 50);
    assert_eq!(clamp_zoom_percent(100), 100);
    assert_eq!(clamp_zoom_percent(220), 200);
}

#[test]
fn zoom_scale_uses_percent() {
    assert_eq!(scale_font_size(11 * PANGO_SCALE, 200), 22 * PANGO_SCALE);
}

#[test]
fn family_name_match_accepts_style_suffix() {
    assert!(font_family_name_matches("FreeMono Regular", "FreeMono"));
    assert!(font_family_name_matches("JetBrains Mono Bold", "JetBrains Mono"));
    assert!(!font_family_name_matches("FreeMonoRegular", "FreeMono"));
    assert!(!font_family_name_matches("FreeSans", "FreeMono"));
}

#[test]
fn scaled_sizes_round_toward_zero_and_fall_back_when_too_large() {
    assert_eq!(scale_font_size(199, 50), 99);
    assert_eq!(scale_font_size(-199, 50), -99);
    assert_eq!(scale_font_size(i32::MAX, 200), 11 * PANGO_SCALE);
    assert!(font_family_name_matches("Mono", "Mono"));
}

#[test]
fn scroll_past_end_margin_scales_with_the_font_size() {
    assert_eq!(scroll_past_end_bottom_margin(11 * PANGO_SCALE), 110);
    assert_eq!(scroll_past_end_bottom_margin(22 * PANGO_SCALE), 220);
    assert_eq!(scroll_past_end_bottom_margin(0), 110);
    assert_eq!(scroll_past_end_bottom_margin(100), 12);
    assert_eq!(normalized_font_size(-5), 11 * PANGO_SCALE);
    assert_eq!(normalized_font_size(2048), 2048);
}

#[test]
fn css_escape_escapes_backslashes_and_quotes() {
    assert_eq!(css_escape("JetBrains Mono"), "JetBrains Mono");
    assert_eq!(css_escape("a\"b\\c"), "a\\\"b\\\\c");
}

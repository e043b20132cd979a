use ttf_parser::{lookup_horizontal_metrics, Error, Font, GlyphId, HorizontalMetrics, TableName};

// Three full records (600, 10), (650, 20), (700, 30), then bearings 40 and 50.
fn table() -> Vec<u8> {
    vec![2, 88, 0, 10, 2, 138, 0, 20, 2, 188, 0, 30, 0, 40, 0, 50]
}

fn metrics(advance: u16, left_side_bearing: i16) -> HorizontalMetrics {
    HorizontalMetrics { advance, left_side_bearing }
}

#[test]
fn full_record_glyph() {
    let t = table();
    assert_eq!(lookup_horizontal_metrics(&t, 3, 5, 1), Ok(metrics(650, 20)));
}

#[test]
fn every_full_record_is_returned_verbatim() {
    let t = table();
    assert_eq!(lookup_horizontal_metrics(&t, 3, 5, 0), Ok(metrics(600, 10)));
    assert_eq!(lookup_horizontal_metrics(&t, 3, 5, 1), Ok(metrics(650, 20)));
    assert_eq!(lookup_horizontal_metrics(&t, 3, 5, 2), Ok(metrics(700, 30)));
}

#[test]
fn tail_glyphs_share_last_advance() {
    let t = table();
    assert_eq!(lookup_horizontal_metrics(&t, 3, 5, 3), Ok(metrics(700, 40)));
    assert_eq!(lookup_horizontal_metrics(&t, 3, 5, 4), Ok(metrics(700, 50)));
}

#[test]
fn no_full_records_fails_for_any_glyph() {
    let t = table();
    for glyph_id in [0u16, 1, 4, 5, 100, u16::MAX] {
        assert_eq!(
            lookup_horizontal_metrics(&t, 0, 5, glyph_id),
            Err(Error::NoHorizontalMetrics)
        );
        assert_eq!(
            lookup_horizontal_metrics(&[], 0, 0, glyph_id),
            Err(Error::NoHorizontalMetrics)
        );
    }
}

#[test]
fn truncated_full_records_is_eof() {
    let t = table();
    assert_eq!(lookup_horizontal_metrics(&t[..11], 3, 5, 0), Err(Error::UnexpectedEof));
    assert_eq!(lookup_horizontal_metrics(&[], 1, 1, 0), Err(Error::UnexpectedEof));
}

#[test]
fn truncated_tail_is_eof() {
    let t = table();
    // Full records are intact, so a glyph among them still resolves.
    assert_eq!(lookup_horizontal_metrics(&t[..15], 3, 5, 2), Ok(metrics(700, 30)));
    assert_eq!(lookup_horizontal_metrics(&t[..15], 3, 5, 3), Err(Error::UnexpectedEof));
}

#[test]
fn glyph_count_below_record_count() {
    let t = table();
    assert_eq!(lookup_horizontal_metrics(&t, 3, 2, 3), Err(Error::NoHorizontalMetrics));
}

#[test]
fn glyph_past_glyph_count_in_tail() {
    let t = table();
    assert_eq!(lookup_horizontal_metrics(&t, 3, 5, 5), Err(Error::NoHorizontalMetrics));
}

#[test]
fn negative_bearings_decode() {
    // (500, -10), then a tail bearing of -32768.
    let t = vec![1, 244, 0xFF, 0xF6, 0x80, 0x00];
    assert_eq!(lookup_horizontal_metrics(&t, 1, 2, 0), Ok(metrics(500, -10)));
    assert_eq!(lookup_horizontal_metrics(&t, 1, 2, 1), Ok(metrics(500, -32768)));
}

#[test]
fn every_glyph_has_full_record() {
    let t = table();
    assert_eq!(lookup_horizontal_metrics(&t[..12], 3, 3, 2), Ok(metrics(700, 30)));
}

#[test]
fn font_lookup_matches_table_lookup() {
    let t = table();
    let font = Font { hmtx: Some(&t), number_of_hmetrics: 3, number_of_glyphs: 5 };
    assert_eq!(font.glyph_hor_metrics(GlyphId(1)), Ok(metrics(650, 20)));
    assert_eq!(font.glyph_hor_metrics(GlyphId(3)), Ok(metrics(700, 40)));
    assert_eq!(font.glyph_hor_metrics(GlyphId(4)), Ok(metrics(700, 50)));
}

#[test]
fn font_rejects_glyph_past_count() {
    let t = table();
    let font = Font { hmtx: Some(&t), number_of_hmetrics: 3, number_of_glyphs: 5 };
    assert_eq!(font.glyph_hor_metrics(GlyphId(5)), Err(Error::InvalidGlyphId));
    let font = Font { hmtx: Some(&t), number_of_hmetrics: 0, number_of_glyphs: 5 };
    assert_eq!(font.glyph_hor_metrics(GlyphId(7)), Err(Error::InvalidGlyphId));
}

#[test]
fn font_without_table() {
    let font = Font { hmtx: None, number_of_hmetrics: 3, number_of_glyphs: 5 };
    assert_eq!(
        font.glyph_hor_metrics(GlyphId(0)),
        Err(Error::TableMissing(TableName::HorizontalMetrics))
    );
}

#[test]
fn font_with_no_full_records() {
    let t = table();
    let font = Font { hmtx: Some(&t), number_of_hmetrics: 0, number_of_glyphs: 5 };
    assert_eq!(font.glyph_hor_metrics(GlyphId(0)), Err(Error::NoHorizontalMetrics));
    assert_eq!(font.glyph_hor_metrics(GlyphId(4)), Err(Error::NoHorizontalMetrics));
}

#[test]
fn font_truncated_table() {
    let t = table();
    let font = Font { hmtx: Some(&t[..8]), number_of_hmetrics: 3, number_of_glyphs: 5 };
    assert_eq!(font.glyph_hor_metrics(GlyphId(0)), Err(Error::UnexpectedEof));
}

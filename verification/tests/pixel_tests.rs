use simple_game::raster::{
    GlyphFormat, expand_grayscale, normalize, premultiply_channel, premultiply_rgba,
};

#[test]
fn premultiply_channel_matches_integer_shift_rule() {
    // (c * a) >> 8, truncated, not a floating-point rounding.
    assert_eq!(premultiply_channel(200, 128), ((200u32 * 128) >> 8) as u8);
    assert_eq!(premultiply_channel(255, 255), 254);
    assert_eq!(premultiply_channel(0, 255), 0);
    assert_eq!(premultiply_channel(255, 0), 0);
    assert_eq!(premultiply_channel(1, 255), 0);
    assert_eq!(premultiply_channel(3, 255), 2);
}

#[test]
fn premultiplication_round_trip_example() {
    // (R,G,B,A) = (200,100,50,128): each color channel is scaled by the
    // alpha via (c*a)>>8; the alpha channel is unchanged.
    let out = premultiply_rgba(&vec![200, 100, 50, 128]);
    assert_eq!(out, vec![100, 50, 25, 128]);
}

#[test]
fn premultiply_handles_multiple_pixels() {
    let out = premultiply_rgba(&vec![200, 100, 50, 128, 255, 255, 255, 255]);
    assert_eq!(out, vec![100, 50, 25, 128, 254, 254, 254, 255]);
}

#[test]
fn premultiply_empty_bitmap() {
    let out = premultiply_rgba(&Vec::new());
    assert!(out.is_empty());
}

#[test]
fn grayscale_expands_to_premultiplied_white() {
    // Both RGB and alpha hold the coverage value.
    let out = expand_grayscale(&vec![0, 128, 255]);
    assert_eq!(out, vec![0, 0, 0, 0, 128, 128, 128, 128, 255, 255, 255, 255]);
}

#[test]
fn normalize_dispatches_on_format() {
    assert_eq!(
        normalize(GlyphFormat::Grayscale, &vec![7]),
        vec![7, 7, 7, 7],
    );
    assert_eq!(
        normalize(GlyphFormat::Color, &vec![200, 100, 50, 128]),
        vec![100, 50, 25, 128],
    );
}

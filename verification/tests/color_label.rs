use dub_library::color_label::{rgb_from_token, token_from_hex, token_from_rgb, token_from_traktor_index};

#[test]
fn every_palette_token_survives_a_round_trip() {
    for token in [
        "red", "orange", "yellow", "green", "aqua", "blue", "purple", "pink",
    ] {
        let (r, g, b) = rgb_from_token(token).expect(token);
        assert_eq!(token_from_rgb(r, g, b), Some(token), "{token} drifted");
    }
    assert_eq!(rgb_from_token("chartreuse"), None);
}

#[test]
fn hex_maps_the_eight_dj_colours() {
    assert_eq!(token_from_hex("0xFF0000"), Some("red"));
    assert_eq!(token_from_hex("0xFFA500"), Some("orange"));
    assert_eq!(token_from_hex("#FFFF00"), Some("yellow"));
    assert_eq!(token_from_hex("00FF00"), Some("green"));
    assert_eq!(token_from_hex("0x00FFFF"), Some("aqua"));
    assert_eq!(token_from_hex("0x0000FF"), Some("blue"));
    assert_eq!(token_from_hex("0x9933CC"), Some("purple"));
    assert_eq!(token_from_hex("0xFF3399"), Some("pink"));
}

#[test]
fn greys_and_garbage_map_to_none() {
    assert_eq!(token_from_hex("0x808080"), None);
    assert_eq!(token_from_hex("0x000000"), None);
    assert_eq!(token_from_hex("0xFFFFFF"), None);
    assert_eq!(token_from_hex("not-hex"), None);
    assert_eq!(token_from_hex("0xFF00"), None);
}

#[test]
fn traktor_index_in_range_only() {
    assert_eq!(token_from_traktor_index(1), Some("red"));
    assert_eq!(token_from_traktor_index(7), Some("pink"));
    assert_eq!(token_from_traktor_index(0), None);
    assert_eq!(token_from_traktor_index(8), None);
}

#[test]
fn traktor_index_covers_the_palette_in_order() {
    let got: Vec<_> = (1..=7).map(token_from_traktor_index).collect();
    assert_eq!(
        got,
        vec![
            Some("red"),
            Some("orange"),
            Some("yellow"),
            Some("green"),
            Some("blue"),
            Some("purple"),
            Some("pink")
        ]
    );
}

#[test]
fn hex_accepts_surrounding_space_and_a_plus_signed_channel() {
    assert_eq!(token_from_hex("  0XFF0000 "), Some("red"));
    // `+F` reads as 15, as `u8::from_str_radix` reads it.
    assert_eq!(token_from_hex("FF+F00"), Some("red"));
    assert_eq!(token_from_hex("#GG0000"), None);
}

#[test]
fn hue_band_edges() {
    // A spread of 20 is still grey; 21 is a colour.
    assert_eq!(token_from_rgb(120, 100, 100), None);
    assert_eq!(token_from_rgb(121, 100, 100), Some("red"));
    assert_eq!(token_from_rgb(0x80, 0x00, 0x80), Some("pink"));
}

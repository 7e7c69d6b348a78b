use dub_library::file_url::{decode_file_url, encode_file_url, percent_decode};

#[test]
fn file_url_decoding() {
    assert_eq!(
        decode_file_url("file:///Users/dj/a%20b.mp3").as_deref(),
        Some("/Users/dj/a b.mp3")
    );
    assert_eq!(
        decode_file_url("file://localhost/Users/dj/x.mp3").as_deref(),
        Some("/Users/dj/x.mp3")
    );
    assert_eq!(decode_file_url("http://example.com/x.mp3"), None);
}

#[test]
fn a_url_without_an_absolute_path_names_nothing() {
    assert_eq!(decode_file_url("file://relative/x.mp3"), None);
    assert_eq!(decode_file_url("file://"), None);
}

#[test]
fn percent_escapes_decode_to_bytes_and_utf8() {
    assert_eq!(percent_decode("a%20b"), "a b");
    assert_eq!(percent_decode("caf%C3%A9"), "café");
    assert_eq!(percent_decode("%E2%82%AC"), "€");
}

#[test]
fn malformed_escapes_are_kept_as_they_are() {
    assert_eq!(percent_decode("100%"), "100%");
    assert_eq!(percent_decode("%4"), "%4");
    assert_eq!(percent_decode("%zz"), "%zz");
    assert_eq!(percent_decode("%41%4"), "A%4");
}

#[test]
fn invalid_utf8_decodes_with_a_replacement_character() {
    assert_eq!(percent_decode("a%FFb"), "a\u{FFFD}b");
}

#[test]
fn encoding_escapes_everything_but_the_unreserved_set() {
    assert_eq!(
        encode_file_url("/Users/dj/one shot.wav"),
        "file://localhost/Users/dj/one%20shot.wav"
    );
    assert_eq!(encode_file_url("/a-b_c.d~e"), "file://localhost/a-b_c.d~e");
    assert_eq!(encode_file_url("/Café/ソ"), "file://localhost/Caf%C3%A9/%E3%82%BD");
    assert_eq!(encode_file_url("/100%"), "file://localhost/100%25");
}

#[test]
fn an_encoded_absolute_path_decodes_back() {
    for p in ["/Users/dj/one shot.wav", "/Café/ソウル.flac", "/100% & more/#1?.mp3", "/"] {
        assert_eq!(decode_file_url(&encode_file_url(p)).as_deref(), Some(p));
    }
}

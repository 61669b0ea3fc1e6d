use pxf::codec::{
    decode_pixel, decode_pixel_lines, decode_size_response, encode_pixel, encode_pixel_query,
    encode_size_query, serialize_frame,
};
use pxf::error::PxError;
use pxf::pixel::{Color, Pixel};

#[test]
fn encode_pixel_exact_form() {
    let p = Pixel::new(12, 34, Color::new(0x1A, 0x2B, 0x3C, 0x4D));
    assert_eq!(encode_pixel(p), "PX 12 34 1A2B3C4D\n");
    let q = Pixel::new(0, 0, Color::new(0, 0, 0, 0));
    assert_eq!(encode_pixel(q), "PX 0 0 00000000\n");
    let r = Pixel::new(65535, 65535, Color::new(255, 255, 255, 255));
    assert_eq!(encode_pixel(r), "PX 65535 65535 FFFFFFFF\n");
}

#[test]
fn round_trip_eight_digit() {
    let p = Pixel::new(12, 34, Color::new(0x1A, 0x2B, 0x3C, 0x4D));
    match decode_pixel(&encode_pixel(p)) {
        Ok(q) => assert_eq!(q, p),
        Err(_) => panic!("round trip failed"),
    }
    let p2 = Pixel::new(65535, 0, Color::new(0, 255, 0, 255));
    match decode_pixel(&p2.to_string()) {
        Ok(q) => assert_eq!(q, p2),
        Err(_) => panic!("round trip failed"),
    }
}

#[test]
fn backward_compatible_six_digit() {
    match decode_pixel("PX 5 7 1A2B3C") {
        Ok(p) => assert_eq!(p, Pixel::new(5, 7, Color::new(0x1A, 0x2B, 0x3C, 255))),
        Err(_) => panic!("six-digit form must decode"),
    }
}

#[test]
fn decode_accepts_lowercase_hex() {
    match decode_pixel("PX 1 2 aabbcc") {
        Ok(p) => assert_eq!(p, Pixel::new(1, 2, Color::new(0xAA, 0xBB, 0xCC, 255))),
        Err(_) => panic!("lowercase hex must decode"),
    }
}

#[test]
fn decode_tolerates_surrounding_whitespace() {
    match decode_pixel("PX 5 7 1A2B3C\n") {
        Ok(p) => assert_eq!(p, Pixel::new(5, 7, Color::new(0x1A, 0x2B, 0x3C, 255))),
        Err(_) => panic!("trailing newline must be tolerated"),
    }
    match decode_pixel("  PX   5  7   1A2B3C  \r\n") {
        Ok(p) => assert_eq!(p, Pixel::new(5, 7, Color::new(0x1A, 0x2B, 0x3C, 255))),
        Err(_) => panic!("extra blanks must be tolerated"),
    }
}

#[test]
fn malformed_pixel_records_fail() {
    let bad = [
        "PX 5 ZZ 1A2B3C",
        "PX 5",
        "PX 5 7 1A2B3G",
        "PX 5 7",
        "PX 5 7 1A2B3",
        "PX 5 7 1A2B3C4D5E",
        "PX 5 7 1A2B3C junk",
        "px 5 7 1A2B3C",
        "PX 70000 7 1A2B3C",
        "PX -1 7 1A2B3C",
        "",
        "SIZE 5 7",
    ];
    for line in bad {
        assert!(
            matches!(decode_pixel(line), Err(PxError::MalformedPixelRecord)),
            "should have been rejected: {line}"
        );
    }
}

#[test]
fn size_query_is_exact() {
    assert_eq!(encode_size_query(), "SIZE\n");
    assert_eq!(encode_size_query().as_bytes(), b"SIZE\n");
}

#[test]
fn size_response_decodes() {
    assert!(matches!(decode_size_response("SIZE 1280 720"), Ok((1280, 720))));
    assert!(matches!(decode_size_response("SIZE 1280 720\n"), Ok((1280, 720))));
    assert!(matches!(decode_size_response("SIZE 0 0"), Ok((0, 0))));
}

#[test]
fn malformed_size_responses_fail() {
    let bad = ["SIZE 1280", "SIZE", "SIZE a 720", "SIZE 1280 720 1", "1280 720", "SIZE 99999 720"];
    for line in bad {
        assert!(
            matches!(decode_size_response(line), Err(PxError::MalformedSizeResponse)),
            "should have been rejected: {line}"
        );
    }
}

#[test]
fn pixel_query_form() {
    assert_eq!(encode_pixel_query(3, 4), "PX 3 4\n");
    assert_eq!(encode_pixel_query(0, 65535), "PX 0 65535\n");
}

#[test]
fn color_payload_round_trip() {
    let c = Color::new(0xFF, 0x00, 0xAA, 0x7F);
    assert_eq!(c.to_str(), "FF00AA7F");
    assert_eq!(Color::from_str("FF00AA7F"), Some(c));
    assert_eq!(Color::from_str("1A2B3C"), Some(Color::new(0x1A, 0x2B, 0x3C, 255)));
    assert_eq!(Color::from_str("1A2B3"), None);
    assert_eq!(Color::from_str("1A2B3G"), None);
}

#[test]
fn serialize_frame_concatenates_in_order() {
    let frame = vec![
        Pixel::new(0, 0, Color::new(0, 0, 0, 0)),
        Pixel::new(1, 2, Color::new(0x10, 0x20, 0x30, 0x40)),
    ];
    assert_eq!(serialize_frame(&frame), "PX 0 0 00000000\nPX 1 2 10203040\n");
    assert_eq!(serialize_frame(&Vec::new()), "");
}

#[test]
fn decode_pixel_lines_reads_records() {
    let text = "PX 1 2 000000\nPX 3 4 FFFFFF80\n";
    match decode_pixel_lines(text) {
        Ok(ps) => {
            assert_eq!(ps.len(), 2);
            assert_eq!(ps[0], Pixel::new(1, 2, Color::new(0, 0, 0, 255)));
            assert_eq!(ps[1], Pixel::new(3, 4, Color::new(0xFF, 0xFF, 0xFF, 0x80)));
        },
        Err(_) => panic!("stored records must decode"),
    }
}

#[test]
fn decode_pixel_lines_skips_blank_lines() {
    match decode_pixel_lines("\nPX 1 2 000000\n\n\nPX 3 4 FFFFFF\n") {
        Ok(ps) => assert_eq!(ps.len(), 2),
        Err(_) => panic!("blank lines must be skipped"),
    }
}

#[test]
fn decode_pixel_lines_rejects_bad_record() {
    assert!(matches!(
        decode_pixel_lines("PX 1 2 000000\nPX 3 4 WRONG\n"),
        Err(PxError::MalformedPixelRecord)
    ));
}

#[test]
fn stored_frame_replays_identically() {
    let frame = vec![
        Pixel::new(0, 0, Color::new(1, 2, 3, 4)),
        Pixel::new(9, 9, Color::new(0xAB, 0xCD, 0xEF, 255)),
        Pixel::new(65535, 1, Color::new(0, 0, 0, 0)),
    ];
    let stored = serialize_frame(&frame);
    match decode_pixel_lines(&stored) {
        Ok(ps) => assert_eq!(ps, frame),
        Err(_) => panic!("a stored frame must replay"),
    }
}

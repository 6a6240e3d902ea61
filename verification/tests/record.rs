use birdy::image::{decode_image, encode_image, Image};

#[test]
fn record_round_trip_restores_the_image() {
    let img = Image {
        width: 2,
        height: 1,
        bytes: vec![10, 20, 30, 40, 50, 60, 70, 80],
    };
    let wire = encode_image(&img);
    let back = decode_image(&wire).unwrap();
    assert_eq!(back, img);
}

#[test]
fn encode_writes_little_endian_headers() {
    let img = Image {
        width: 300,
        height: 2,
        bytes: vec![0; 300 * 2 * 4],
    };
    let wire = encode_image(&img);
    // 300 == 0x012c, least significant byte first.
    assert_eq!(&wire[0..8], &[0x2c, 0x01, 0, 0, 0, 0, 0, 0]);
    assert_eq!(&wire[8..16], &[2, 0, 0, 0, 0, 0, 0, 0]);
    assert_eq!(wire.len(), 16 + 300 * 2 * 4);
}

#[test]
fn round_trip_with_multi_byte_dimensions() {
    let img = Image {
        width: 70000,
        height: 1,
        bytes: vec![7; 70000 * 4],
    };
    let back = decode_image(&encode_image(&img)).unwrap();
    assert_eq!(back.width, 70000);
    assert_eq!(back.height, 1);
    assert_eq!(back.bytes, img.bytes);
}

#[test]
fn decode_rejects_a_short_frame() {
    assert!(decode_image(&vec![]).is_none());
    assert!(decode_image(&vec![0; 15]).is_none());
}

#[test]
fn decode_rejects_a_length_mismatch() {
    let img = Image {
        width: 2,
        height: 1,
        bytes: vec![0; 8],
    };
    let mut wire = encode_image(&img);
    wire.push(0);
    assert!(decode_image(&wire).is_none());
    let short = wire[..wire.len() - 2].to_vec();
    assert!(decode_image(&short).is_none());
}

#[test]
fn decode_accepts_an_empty_image() {
    let img = Image {
        width: 0,
        height: 0,
        bytes: vec![],
    };
    let back = decode_image(&encode_image(&img)).unwrap();
    assert_eq!(back, img);
}

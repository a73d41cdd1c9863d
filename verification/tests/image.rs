use editor_backend::image::extension_from_header;
use editor_backend::{
    decode_base64, decode_image, identifier, save_image, DecodedImage, ErrorKind,
};

#[test]
fn base64_of_whole_groups() {
    assert_eq!(decode_base64(""), Some(Vec::new()));
    assert_eq!(decode_base64("TWFu"), Some(b"Man".to_vec()));
    assert_eq!(decode_base64("aGVsbG8gd29ybGQh"), Some(b"hello world!".to_vec()));
    assert_eq!(decode_base64("AAAA"), Some(vec![0, 0, 0]));
    assert_eq!(decode_base64("////"), Some(vec![255, 255, 255]));
    assert_eq!(decode_base64("+/+/"), Some(vec![0xfb, 0xff, 0xbf]));
    assert_eq!(decode_base64("0129"), Some(vec![0xd3, 0x5d, 0xbd]));
}

#[test]
fn base64_with_padding() {
    assert_eq!(decode_base64("TWE="), Some(b"Ma".to_vec()));
    assert_eq!(decode_base64("TQ=="), Some(b"M".to_vec()));
    assert_eq!(decode_base64("aGVsbG8="), Some(b"hello".to_vec()));
    assert_eq!(decode_base64("AA=="), Some(vec![0]));
    assert_eq!(decode_base64("/w=="), Some(vec![255]));
    assert_eq!(decode_base64("//8="), Some(vec![255, 255]));
}

#[test]
fn base64_of_every_byte() {
    let alphabet: Vec<char> =
        "ABCDEFGHIJKLMNOPQRSTUVWXYZabcdefghijklmnopqrstuvwxyz0123456789+/".chars().collect();
    let bytes: Vec<u8> = (0..=255u8).collect();
    let mut text = String::new();
    for chunk in bytes.chunks(3) {
        let x = chunk[0] as usize;
        let y = *chunk.get(1).unwrap_or(&0) as usize;
        let z = *chunk.get(2).unwrap_or(&0) as usize;
        text.push(alphabet[x >> 2]);
        text.push(alphabet[((x & 3) << 4) | (y >> 4)]);
        text.push(if chunk.len() > 1 { alphabet[((y & 15) << 2) | (z >> 6)] } else { '=' });
        text.push(if chunk.len() > 2 { alphabet[z & 63] } else { '=' });
    }
    assert_eq!(decode_base64(&text), Some(bytes));
}

#[test]
fn base64_that_is_malformed() {
    let malformed = [
        "T", "TQ", "TWE", "TWFuT", "TQ=", "=", "====", "T===", "TQ=a", "T=Fu", "=WFu", "TW=u",
        "TQ==TWFu", "TWE=TWFu", "TW Fu", "TWFu\n", " TWFu", "TWF-", "TWF_", "TWFé", "TR==",
        "TWF=", "TQ==\n", "TWFu====",
    ];
    for text in malformed {
        assert_eq!(decode_base64(text), None, "{text:?}");
    }
}

#[test]
fn extension_is_the_mime_subtype() {
    assert_eq!(extension_from_header("data:image/png;base64"), "png");
    assert_eq!(extension_from_header("data:image/jpeg;base64"), "jpeg");
    assert_eq!(extension_from_header("data:image/svg+xml;charset=utf-8;base64"), "svg+xml");
    assert_eq!(extension_from_header("data:image/gif"), "gif");
    assert_eq!(extension_from_header("image/webp"), "webp");
    assert_eq!(extension_from_header("data:a/b/c;base64"), "b/c");
}

#[test]
fn extension_falls_back_to_png() {
    assert_eq!(extension_from_header(""), "png");
    assert_eq!(extension_from_header("data:;base64"), "png");
    assert_eq!(extension_from_header("data:image/;base64"), "png");
    assert_eq!(extension_from_header("data:image/"), "png");
    assert_eq!(extension_from_header("base64"), "png");
}

#[test]
fn decode_image_splits_at_the_first_comma() {
    assert_eq!(
        decode_image("data:image/png;base64,aGVsbG8="),
        Ok(DecodedImage { extension: "png".to_string(), bytes: b"hello".to_vec() })
    );
    assert_eq!(
        decode_image("data:image/jpeg;base64,"),
        Ok(DecodedImage { extension: "jpeg".to_string(), bytes: Vec::new() })
    );
    assert_eq!(
        decode_image(",TWFu"),
        Ok(DecodedImage { extension: "png".to_string(), bytes: b"Man".to_vec() })
    );
    assert_eq!(
        decode_image("données/é;base64,TWFu"),
        Ok(DecodedImage { extension: "é".to_string(), bytes: b"Man".to_vec() })
    );
}

#[test]
fn decode_image_without_a_comma_fails() {
    for payload in ["", "aGVsbG8=", "data:image/png;base64", "data:image/png;base64;aGVsbG8="] {
        let error = decode_image(payload).unwrap_err();
        assert_eq!(error.kind, ErrorKind::Decode);
        assert_eq!(error.message, "Failed to decode image: the payload has no comma");
    }
}

#[test]
fn decode_image_with_malformed_data_fails() {
    for payload in [
        "data:image/png;base64,aGVsbG8",
        "data:image/png;base64,aGVs,bG8=",
        "data:image/png;base64, aGVsbG8=",
        "data:image/png;base64,aGVsbG8é",
        ",,",
    ] {
        let error = decode_image(payload).unwrap_err();
        assert_eq!(error.kind, ErrorKind::Decode);
        assert_eq!(error.message, "Failed to decode image: the data is not base64");
    }
}

#[test]
fn save_image_gives_the_path_below_assets() {
    let file = save_image(
        "data:image/png;base64,iVBORw0KGgo=",
        "3f2b8c1e-0000-4000-8000-000000000001",
    )
    .unwrap();
    assert_eq!(file.relative_path, "assets/3f2b8c1e-0000-4000-8000-000000000001.png");
    assert_eq!(file.bytes, vec![0x89, b'P', b'N', b'G', 0x0d, 0x0a, 0x1a, 0x0a]);
    let file = save_image("data:image/jpeg;base64,TWFu", "n").unwrap();
    assert_eq!(file.relative_path, "assets/n.jpeg");
    let file = save_image("data:text,TWFu", "n").unwrap();
    assert_eq!(file.relative_path, "assets/n.png");
}

#[test]
fn save_image_without_a_comma_fails() {
    let error = save_image("data:image/png;base64", "name").unwrap_err();
    assert_eq!(error.kind, ErrorKind::Decode);
    assert_eq!(error.message, "Failed to decode image: the payload has no comma");
    let error = save_image("data:image/png;base64,@@@@", "name").unwrap_err();
    assert_eq!(error.kind, ErrorKind::Decode);
}

#[test]
fn identifier_of_given_bytes() {
    assert_eq!(identifier(&[0u8; 16]), "00000000-0000-4000-8000-000000000000");
    assert_eq!(identifier(&[0xffu8; 16]), "ffffffff-ffff-4fff-bfff-ffffffffffff");
    let counting: [u8; 16] = [0, 1, 2, 3, 4, 5, 6, 7, 8, 9, 10, 11, 12, 13, 14, 15];
    assert_eq!(identifier(&counting), "00010203-0405-4607-8809-0a0b0c0d0e0f");
    let mixed: [u8; 16] = [
        0x12, 0x34, 0x56, 0x78, 0x9a, 0xbc, 0xde, 0xf0, 0x7f, 0xed, 0xcb, 0xa9, 0x87, 0x65, 0x43,
        0x21,
    ];
    assert_eq!(identifier(&mixed), "12345678-9abc-4ef0-bfed-cba987654321");
}

#[test]
fn save_image_under_an_identifier() {
    let stem = identifier(&[0xabu8; 16]);
    let file = save_image("data:image/png;base64,aGVsbG8=", &stem).unwrap();
    assert_eq!(file.relative_path, "assets/abababab-abab-4bab-abab-abababababab.png");
    assert_eq!(file.bytes, b"hello".to_vec());
}

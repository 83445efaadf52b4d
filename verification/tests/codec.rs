use gt_core::base64::{decode_b64, encode_b64};
use gt_core::paths::default_output_dir;

#[test]
fn base64_encodes_with_padding() {
    assert_eq!(encode_b64(b""), "");
    assert_eq!(encode_b64(b"M"), "TQ==");
    assert_eq!(encode_b64(b"Ma"), "TWE=");
    assert_eq!(encode_b64(b"Man"), "TWFu");
    assert_eq!(encode_b64(&[0xff, 0xfe, 0x00]), "//4A");
}

#[test]
fn base64_decodes_padded_and_unpadded_text() {
    assert_eq!(decode_b64("TWFu").unwrap(), b"Man");
    assert_eq!(decode_b64("TWE=").unwrap(), b"Ma");
    assert_eq!(decode_b64("TWE").unwrap(), b"Ma");
    assert_eq!(decode_b64("TQ==").unwrap(), b"M");
    assert_eq!(decode_b64(" TW\nFu\t").unwrap(), b"Man");
    assert_eq!(decode_b64("").unwrap(), b"");
}

#[test]
fn base64_refuses_other_bytes() {
    assert_eq!(decode_b64("TW*u").unwrap_err(), "invalid base64");
    assert_eq!(decode_b64("TWFué").unwrap_err(), "invalid base64");
}

#[test]
fn base64_reads_back_what_it_writes() {
    let data: Vec<u8> = (0..=255u8).chain([7, 9, 200]).collect();
    for len in 0..data.len() {
        let part = &data[..len];
        assert_eq!(decode_b64(&encode_b64(part)).unwrap(), part);
    }
}

#[test]
fn output_directory_follows_the_input_stem() {
    assert_eq!(default_output_dir("titles/lower third.gtzip"), "lower third_html");
    assert_eq!(default_output_dir("a.b.gtxml"), "a.b_html");
    assert_eq!(default_output_dir(".hidden"), ".hidden_html");
    assert_eq!(default_output_dir("noext"), "noext_html");
    assert_eq!(default_output_dir("dir/.."), "gt-title_html");
    assert_eq!(default_output_dir(""), "gt-title_html");
}

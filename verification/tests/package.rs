use std::io::{Cursor, Write};
use std::path::PathBuf;

use gt_core::error::Error;
use gt_core::package::{decode_xml_bytes, parse_resources, sniff_image, Package, PackageKind};
use gt_core::paths::{file_name_of, is_document_xml, normalize_source};
use gt_core::zipread::ZipEntry;
use zip::write::SimpleFileOptions;
use zip::{CompressionMethod, ZipWriter};

fn utf16_le(text: &str, bom: bool) -> Vec<u8> {
    let mut bytes = if bom { vec![0xFF, 0xFE] } else { Vec::new() };
    for unit in text.encode_utf16() {
        bytes.extend_from_slice(&unit.to_le_bytes());
    }
    bytes
}

fn utf16_be(text: &str, bom: bool) -> Vec<u8> {
    let mut bytes = if bom { vec![0xFE, 0xFF] } else { Vec::new() };
    for unit in text.encode_utf16() {
        bytes.extend_from_slice(&unit.to_be_bytes());
    }
    bytes
}

fn zip_of(entries: &[(&str, &[u8])], stored: bool) -> Vec<u8> {
    let mut zip = ZipWriter::new(Cursor::new(Vec::new()));
    let options = SimpleFileOptions::default().compression_method(if stored {
        CompressionMethod::Stored
    } else {
        CompressionMethod::Deflated
    });
    for (name, bytes) in entries {
        zip.start_file(*name, options).unwrap();
        zip.write_all(bytes).unwrap();
    }
    zip.finish().unwrap().into_inner()
}

#[test]
fn decodes_utf8_and_utf16() {
    let xml = "<Composition Width=\"1\" Height=\"1\"/>";
    assert_eq!(decode_xml_bytes(xml.as_bytes()).unwrap(), xml);

    let mut utf16 = vec![0xFF, 0xFE];
    for unit in xml.encode_utf16() {
        utf16.extend_from_slice(&unit.to_le_bytes());
    }
    assert_eq!(decode_xml_bytes(&utf16).unwrap(), xml);
}

#[test]
fn decode_utf16_without_bom_when_xml_marker_present() {
    let xml = "<Composition Width=\"2\" Height=\"3\"/>";
    let mut bytes = Vec::new();
    for unit in xml.encode_utf16() {
        bytes.extend_from_slice(&unit.to_le_bytes());
    }
    assert_eq!(decode_xml_bytes(&bytes).unwrap(), xml);
}

#[test]
fn decodes_big_endian_and_utf8_bom() {
    let xml = "<Composition Width=\"3\"/>";
    assert_eq!(decode_xml_bytes(&utf16_be(xml, true)).unwrap(), xml);
    assert_eq!(decode_xml_bytes(&utf16_be(xml, false)).unwrap(), xml);
    let mut with_bom = vec![0xEF, 0xBB, 0xBF];
    with_bom.extend_from_slice(xml.as_bytes());
    assert_eq!(decode_xml_bytes(&with_bom).unwrap(), xml);
}

#[test]
fn decodes_surrogate_pairs() {
    let xml = "<T Text=\"\u{1F600} ok\"/>";
    assert_eq!(decode_xml_bytes(&utf16_le(xml, true)).unwrap(), xml);
}

#[test]
fn refuses_bad_encodings() {
    assert_eq!(decode_xml_bytes(&[0x3C, 0xC3, 0x28]), Err(Error::Utf8));
    assert_eq!(decode_xml_bytes(&[0xFF, 0xFE, 0x3C]), Err(Error::Utf16));
    assert_eq!(decode_xml_bytes(&[0xFF, 0xFE, 0x00, 0xD8, 0x3C, 0x00]), Err(Error::Utf16));
}

#[test]
fn sniffs_image_kinds() {
    assert_eq!(sniff_image(&[0x89, b'P', b'N', b'G', 0, 0]), ("png", "image/png"));
    assert_eq!(sniff_image(&[0xFF, 0xD8, 0xFF, 0xE0]), ("jpg", "image/jpeg"));
    assert_eq!(sniff_image(b"GIF89a...."), ("gif", "image/gif"));
    assert_eq!(sniff_image(b"GIF87a"), ("gif", "image/gif"));
    assert_eq!(sniff_image(b"BM...."), ("bmp", "image/bmp"));
    assert_eq!(sniff_image(b"RIFF\0\0\0\0WEBPVP8 "), ("webp", "image/webp"));
    assert_eq!(sniff_image(b"RIFF\0\0\0\0WAVE"), ("bin", "application/octet-stream"));
    assert_eq!(sniff_image(&[]), ("bin", "application/octet-stream"));
}

#[test]
fn file_names_follow_path_rules() {
    assert_eq!(file_name_of("folder/Document.XML").as_deref(), Some("Document.XML"));
    assert_eq!(file_name_of("a/b/").as_deref(), Some("b"));
    assert_eq!(file_name_of("a/b/.").as_deref(), Some("b"));
    assert_eq!(file_name_of("a/.."), None);
    assert_eq!(file_name_of(""), None);
    assert_eq!(file_name_of("/"), None);
    assert_eq!(file_name_of("folder\\pic.png").as_deref(), Some("folder\\pic.png"));
    assert!(is_document_xml("sub/DOCUMENT.xml"));
    assert!(!is_document_xml("document.xml.bak"));
}

#[test]
fn sources_normalise_slashes_space_and_case() {
    assert_eq!(normalize_source("  Folder/Pic.PNG "), "folder\\pic.png");
}

#[test]
fn xml_package_holds_decoded_document() {
    let package = Package::from_xml_bytes(
        PathBuf::from("title.gtxml"),
        &utf16_le("<Composition/>", true),
        PackageKind::Gtxml,
    )
    .unwrap();
    assert_eq!(package.document_xml, "<Composition/>");
    assert_eq!(package.kind, PackageKind::Gtxml);
    assert!(package.asset_names().is_empty());
    assert_eq!(
        Package::from_xml_bytes(PathBuf::from("x"), &[0xC3], PackageKind::Gtxml).unwrap_err(),
        Error::Utf8
    );
}

#[test]
fn zip_package_reads_stored_and_deflated_utf16() {
    let xml = "<Composition Width=\"1920\"><T Text=\"HERE WE ARE\"/></Composition>";
    for stored in [true, false] {
        let bytes = zip_of(&[("document.xml", &utf16_le(xml, true))], stored);
        let package = Package::from_zip_bytes(PathBuf::from("memory.gtzip"), &bytes).unwrap();
        assert_eq!(package.document_xml, xml);
        assert_eq!(package.kind, PackageKind::Gtzip);
    }
}

#[test]
fn zip_without_document_is_refused() {
    let bytes = zip_of(&[("other.xml", b"<x/>")], true);
    assert_eq!(
        Package::from_zip_bytes(PathBuf::from("x.gtzip"), &bytes).unwrap_err(),
        Error::MissingDocumentXml
    );
    assert!(matches!(
        Package::from_zip_bytes(PathBuf::from("x.gtzip"), b"not a zip").unwrap_err(),
        Error::Zip(_)
    ));
}

#[test]
fn zip_resources_map_guid_images() {
    let png = [0x89, b'P', b'N', b'G', 1, 2, 3];
    let xml = r#"<Composition><Image Name="Pic"><Image.Bitmap><Bitmap Source="folder\tiny.png"/></Image.Bitmap></Image></Composition>"#;
    let resources = br#"<resources><resource filename="folder\tiny.png"><source guid="abc-guid">folder\tiny.png</source></resource></resources>"#;
    let bytes = zip_of(
        &[("document.xml", xml.as_bytes()), ("resources.xml", resources), ("abc-guid", &png)],
        true,
    );
    let package = Package::from_zip_bytes(PathBuf::from("mapped.gtzip"), &bytes).unwrap();
    assert_eq!(package.lookup_entry("folder\\tiny.png"), Some("abc-guid"));
    assert_eq!(package.lookup_entry("FOLDER/TINY.PNG"), Some("abc-guid"));
    assert_eq!(package.lookup_bytes("folder\\tiny.png"), Some(&png[..]));
    assert_eq!(package.sequence_entries("folder\\tiny.png"), vec!["abc-guid".to_string()]);
    assert_eq!(package.asset_names(), vec!["abc-guid".to_string()]);
}

#[test]
fn lookups_fall_back_to_file_names() {
    let entries = vec![
        ZipEntry::File { name: "document.xml".to_string(), data: b"<Composition/>".to_vec() },
        ZipEntry::File { name: "images\\Logo.png".to_string(), data: vec![1, 2] },
        ZipEntry::Dir,
        ZipEntry::File { name: "other/pic.png".to_string(), data: vec![3] },
    ];
    let package = Package::from_zip_entries(PathBuf::from("p.gtzip"), &entries).unwrap();
    assert_eq!(package.lookup_entry("images/logo.png"), Some("images/Logo.png"));
    assert_eq!(package.lookup_entry("c:\\elsewhere\\PIC.png"), None);
    assert_eq!(package.lookup_entry("elsewhere/PIC.png"), Some("other/pic.png"));
    assert_eq!(package.lookup_bytes("images\\Logo.png"), Some(&[1u8, 2][..]));
    assert_eq!(package.lookup_bytes("missing.png"), None);
    assert_eq!(package.sequence_entries("missing.png"), Vec::<String>::new());
    assert_eq!(
        package.asset_names(),
        vec!["images/Logo.png".to_string(), "other/pic.png".to_string()]
    );
}

#[test]
fn first_bad_document_stops_reading() {
    let entries = vec![
        ZipEntry::File { name: "document.xml".to_string(), data: vec![0xC3] },
        ZipEntry::File { name: "b".to_string(), data: vec![] },
    ];
    assert_eq!(
        Package::from_zip_entries(PathBuf::from("p.gtzip"), &entries).unwrap_err(),
        Error::Utf8
    );
}

#[test]
fn resource_sequences_keep_frame_order() {
    let xml = br#"<resources>
  <resource filename="clip\frame1.png">
    <source guid="g1">clip\frame1.png</source>
    <source guid="g2">clip\frame2.png</source>
  </resource>
</resources>"#;
    let bytes = xml.to_vec();
    let index = parse_resources(Some(&bytes));
    assert_eq!(index.path_to_entry.get("clip\\frame1.png"), Some(&"g1".to_string()));
    assert_eq!(index.path_to_entry.get("clip\\frame2.png"), Some(&"g2".to_string()));
    assert_eq!(index.path_to_entry.get("g2"), Some(&"g2".to_string()));
    assert_eq!(
        index.path_to_sequence.get("clip\\frame2.png"),
        Some(&vec!["g1".to_string(), "g2".to_string()])
    );
    assert_eq!(parse_resources(None).path_to_entry.len(), 0);
    let bad = vec![0xC3u8];
    assert_eq!(parse_resources(Some(&bad)).path_to_sequence.len(), 0);
}

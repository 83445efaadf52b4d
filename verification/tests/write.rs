use std::path::PathBuf;

use gt_core::model::{Animation, Bounding, ObjectKind, Storyboard, UnknownNode};
use gt_core::package::Package;
use gt_core::fields::FieldSource;
use gt_core::strmap::StrMap;
use gt_core::write::{
    assign_guids, bounding_is_default, content_types_xml, data_flags_for_write, encode_text_attr,
    esc_attr, esc_text, resources_xml, serialize_animation, serialize_storyboard, serialize_storyboards,
    serialize_unknown, sniff_or_bin, truthy, write_gtzip_bytes, AnimationNumbers, WriteAssets,
};
use gt_core::zipread::ZipEntry;

fn animation(kind: &str) -> Animation {
    Animation {
        kind: kind.to_string(),
        object: Some("Box".to_string()),
        duration: None,
        delay: None,
        interpolation: None,
        direction: None,
        reversed: false,
        center_axis: None,
        speed: None,
        muted: false,
        extra_attrs: StrMap::new(),
    }
}

fn plain_numbers() -> AnimationNumbers {
    AnimationNumbers { delay: None, duration: "1".to_string(), speed: "1".to_string() }
}

#[test]
fn escapes_attributes_and_text() {
    assert_eq!(esc_attr("a&b<c>\"d'"), "a&amp;b&lt;c&gt;&quot;d'");
    assert_eq!(esc_text("a&b<c>\"d"), "a&amp;b&lt;c&gt;\"d");
}

#[test]
fn text_attributes_use_crlf() {
    assert_eq!(encode_text_attr("a\nb\r\nc\rd"), "a\r\nb\r\ncd");
}

#[test]
fn flags_and_defaults() {
    assert!(truthy("TRUE"));
    assert!(truthy("1"));
    assert!(truthy("Yes"));
    assert!(!truthy("no"));
    assert!(bounding_is_default(&Bounding { object: String::new(), padding: "0,0,0,0".to_string() }));
    assert!(!bounding_is_default(&Bounding { object: "T".to_string(), padding: String::new() }));
    assert_eq!(data_flags_for_write(Some(" ShowVisible "), ObjectKind::TextBlock).as_deref(), Some("ShowVisible"));
    assert_eq!(data_flags_for_write(Some("none"), ObjectKind::TextBlock), None);
    assert_eq!(data_flags_for_write(Some("Hidden"), ObjectKind::Rectangle), None);
    assert_eq!(data_flags_for_write(Some("Hidden"), ObjectKind::Image).as_deref(), Some("Hidden"));
    assert_eq!(data_flags_for_write(None, ObjectKind::Image), None);
    assert_eq!(sniff_or_bin(b"BM"), ("bmp", "image/bmp"));
}

#[test]
fn kept_elements_write_back() {
    let mut child = UnknownNode::new("Item".to_string());
    child.attributes.insert("Name".to_string(), "A&B".to_string());
    let mut node = UnknownNode::new("Widget".to_string());
    node.attributes.insert("z".to_string(), "2".to_string());
    node.attributes.insert("a".to_string(), "1".to_string());
    node.children.push(child);
    node.text = Some("x<y".to_string());
    assert_eq!(serialize_unknown(&node), "<Widget a=\"1\" z=\"2\"><Item Name=\"A&amp;B\" />x&lt;y</Widget>");
    assert_eq!(serialize_unknown(&UnknownNode::new("Empty".to_string())), "<Empty />");
}

#[test]
fn animations_write_only_non_defaults() {
    let plain = animation("Fade");
    assert_eq!(serialize_animation(&plain, 2, &plain_numbers()), "    <Fade Object=\"Box\" />\n");
    let mut rich = animation("Fly");
    rich.duration = Some("2".to_string());
    rich.interpolation = Some("Linear".to_string());
    rich.direction = Some("Right".to_string());
    rich.reversed = true;
    rich.extra_attrs.insert("Custom".to_string(), "v".to_string());
    let nums = AnimationNumbers { delay: Some("0.5".to_string()), duration: "2".to_string(), speed: "1".to_string() };
    assert_eq!(
        serialize_animation(&rich, 0, &nums),
        "<Fly Object=\"Box\" Delay=\"0.5\" Duration=\"2\" Reverse=\"True\" Direction=\"Right\" Custom=\"v\" />\n"
    );
    let mut spin = animation("RotateContinuous");
    spin.speed = Some("2".to_string());
    spin.duration = Some("5".to_string());
    let nums = AnimationNumbers { delay: None, duration: "5".to_string(), speed: "2".to_string() };
    assert_eq!(serialize_animation(&spin, 0, &nums), "<RotateContinuous Object=\"Box\" Speed=\"2\" />\n");
}

#[test]
fn storyboards_write_type_and_scope() {
    let mut sb = Storyboard {
        storyboard_type: Some("TransitionOut".to_string()),
        reversed: false,
        data_name: Some("Title.Text".to_string()),
        animations: Vec::new(),
        extra_attrs: StrMap::new(),
        unknown_children: Vec::new(),
    };
    sb.animations.push(animation("Fade"));
    let text = serialize_storyboard(&sb, 1, &vec![plain_numbers()]);
    assert_eq!(
        text,
        "  <Storyboard Type=\"TransitionOut\" DataName=\"Title.Text\">\n    <Storyboard.Animations>\n      <Fade Object=\"Box\" />\n    </Storyboard.Animations>\n  </Storyboard>\n"
    );
}

#[test]
fn assets_keep_backslash_paths() {
    let mut assets = WriteAssets::default();
    assets.insert("folder/pic.png".to_string(), vec![1, 2, 3]);
    assert_eq!(assets.blobs.get("folder\\pic.png"), Some(&vec![1, 2, 3]));
    let guids = assign_guids(&assets);
    let guid = guids.get("folder\\pic.png").unwrap();
    assert_eq!(guid.len(), 36);
    assert_eq!(guid.as_bytes()[8], b'-');
}

#[test]
fn index_files_list_every_guid() {
    let mut assets = WriteAssets::default();
    assets.insert("a.png".to_string(), vec![1]);
    assets.insert("seq\\f1.png".to_string(), vec![2]);
    assets.insert("seq\\f2.png".to_string(), vec![3]);
    assets.sequences.insert("seq/f1.png".to_string(), vec!["seq/f1.png".to_string(), "seq\\f2.png".to_string()]);
    let mut guids = StrMap::new();
    guids.insert("a.png".to_string(), "g-a".to_string());
    guids.insert("seq\\f1.png".to_string(), "g-1".to_string());
    guids.insert("seq\\f2.png".to_string(), "g-2".to_string());
    let types = content_types_xml(&guids);
    assert!(types.starts_with("<?xml version=\"1.0\" encoding=\"utf-8\"?>\n<Types"));
    assert!(types.contains("  <Override PartName=\"/g-a\" ContentType=\"application/octet-stream\" />\n"));
    assert!(types.ends_with("</Types>\n"));
    assert_eq!(
        resources_xml(&assets, &guids),
        "<resources><resource filename=\"seq\\f1.png\"><source guid=\"g-1\">seq\\f1.png</source><source guid=\"g-2\">seq\\f2.png</source></resource><resource filename=\"a.png\"><source guid=\"g-a\">a.png</source></resource></resources>"
    );
}

#[test]
fn written_package_reads_back() {
    let xml = "<?xml version=\"1.0\" encoding=\"utf-8\"?>\n<Composition Width=\"1920\"><T Text=\"HERE WE ARE\"/></Composition>\n";
    let mut assets = WriteAssets::default();
    assets.insert("folder\\frame1.png".to_string(), vec![0x89, b'P', b'N', b'G']);
    assets.insert("folder\\frame2.png".to_string(), vec![0x89, b'P', b'N', b'G', 9]);
    assets.sequences.insert(
        "folder\\frame1.png".to_string(),
        vec!["folder\\frame1.png".to_string(), "folder\\frame2.png".to_string()],
    );
    let bytes = write_gtzip_bytes(xml, &assets).unwrap();
    let package = Package::from_zip_bytes(PathBuf::from("seq.gtzip"), &bytes).unwrap();
    assert_eq!(package.document_xml, xml);
    assert!(!package.document_xml.as_bytes().starts_with(&[0xFF, 0xFE]));
    assert_eq!(package.lookup_bytes("folder\\frame2.png"), Some(&[0x89, b'P', b'N', b'G', 9][..]));
    assert_eq!(package.sequence_entries("folder\\frame1.png").len(), 2);
    assert_eq!(package.asset_names().len(), 2);
    let again = WriteAssets::from_package(&package);
    assert_eq!(again.blobs.get("folder\\frame1.png"), Some(&vec![0x89, b'P', b'N', b'G']));
    assert_eq!(again.sequences.get("folder\\frame1.png").map(|v| v.len()), Some(2));
}

#[test]
fn assets_fall_back_to_plain_files() {
    let entries = vec![
        ZipEntry::File { name: "document.xml".to_string(), data: b"<Composition/>".to_vec() },
        ZipEntry::File { name: "pics/logo.png".to_string(), data: vec![7] },
        ZipEntry::File { name: "[Content_Types].xml".to_string(), data: vec![] },
    ];
    let package = Package::from_zip_entries(PathBuf::from("p.gtzip"), &entries).unwrap();
    let assets = WriteAssets::from_package(&package);
    assert_eq!(assets.blobs.len(), 1);
    assert_eq!(assets.blobs.get("pics\\logo.png"), Some(&vec![7]));
    assert_eq!(assets.sequences.len(), 0);
}

#[test]
fn scoped_storyboards_need_a_known_field() {
    let board = |data: Option<&str>| Storyboard {
        storyboard_type: None,
        reversed: false,
        data_name: data.map(str::to_string),
        animations: vec![animation("Fade")],
        extra_attrs: StrMap::new(),
        unknown_children: Vec::new(),
    };
    let boards = vec![board(None), board(Some("Title.Text")), board(Some("Gone.Text"))];
    let objects = vec![FieldSource {
        kind: ObjectKind::TextBlock,
        name: "Title".to_string(),
        data_flags: None,
        picture_fill: false,
        ticker_template: None,
    }];
    let nums = vec![vec![plain_numbers()], vec![plain_numbers()], vec![plain_numbers()]];
    let text = serialize_storyboards(&boards, &nums, &objects, 0);
    let expected = format!(
        "{}{}",
        serialize_storyboard(&boards[0], 0, &nums[0]),
        serialize_storyboard(&boards[1], 0, &nums[1])
    );
    assert_eq!(text, expected);
    assert!(text.contains("DataName=\"Title.Text\""));
    assert!(!text.contains("Gone"));
}

use gt_core::elements::{flip_axes, object_attrs};
use gt_core::model::{Bounding, CropEffect, ObjectKind};
use gt_core::objects::{ObjectOut, serialize_object};
use gt_core::strmap::StrMap;

fn plain(tag: &str, kind: ObjectKind, name: &str) -> ObjectOut {
    ObjectOut {
        tag: tag.to_string(),
        kind,
        name: name.to_string(),
        dimensions: "1,1,0".to_string(),
        location: "0,0,0".to_string(),
        anchor: None,
        visible: true,
        opacity: None,
        locked: false,
        data_flags: None,
        size_mode: None,
        text: None,
        font_family: None,
        font_size: None,
        font_weight: None,
        text_align: None,
        vertical_align: None,
        line_spacing: None,
        auto_upper_case: false,
        text_effect: None,
        ignore_overhang: None,
        word_wrapping: None,
        auto_size: None,
        ticker_speed: None,
        ticker_direction: None,
        ticker_kind: None,
        stroke_thickness: None,
        rect_style: None,
        radius: None,
        rotate_xyz: None,
        fill_xml: None,
        stroke_xml: None,
        dash_style: None,
        image_source: None,
        bitmap_position: None,
        ticker_template: None,
        crop: None,
        bounding: None,
        mask: None,
    }
}

fn s(v: &str) -> Option<String> {
    Some(v.to_string())
}

#[test]
fn text_object_omits_defaults_and_writes_regular_weight() {
    let mut o = plain("TextBlock", ObjectKind::TextBlock, "Title");
    o.dimensions = "100,50,0".to_string();
    o.location = "10,20,0".to_string();
    o.anchor = s("topleft");
    o.data_flags = s(" Text ");
    o.text = s("a\nb");
    o.font_size = s("24");
    o.font_weight = s("normal");
    o.text_effect = s("Uppercase");
    o.word_wrapping = s("nowrap");
    o.auto_size = s("Fixed");
    assert_eq!(
        serialize_object(&o, 1),
        "  <TextBlock Name=\"Title\" Dimensions=\"100,50,0\" Location=\"10,20,0\" DataFlags=\"Text\" Text=\"a\r\nb\" FontSize=\"24\" FontWeight=\"Regular\" TextEffect=\"Uppercase\" TextWordWrapping=\"NoWrap\" />\n"
    );
}

#[test]
fn shape_writes_brushes_and_hidden_flags_are_dropped() {
    let mut o = plain("Rectangle", ObjectKind::Rectangle, "Box");
    o.visible = false;
    o.locked = true;
    o.opacity = s("0.5");
    o.data_flags = s("Hidden");
    o.rect_style = s("square");
    o.radius = s("4");
    o.text = s("ignored? no");
    o.font_size = s("12");
    o.fill_xml = s("<Brush Color=\"#FFFF0000\" />");
    o.dash_style = s("Dash");
    assert_eq!(
        serialize_object(&o, 0),
        "<Rectangle Name=\"Box\" Dimensions=\"1,1,0\" Location=\"0,0,0\" Visible=\"False\" Opacity=\"0.5\" Locked=\"True\" Text=\"ignored? no\" Style=\"square\" Radius=\"4\">\n  <Rectangle.Fill><Brush Color=\"#FFFF0000\" /></Rectangle.Fill>\n  <Rectangle.StrokeStyle><StrokeStyle DashStyle=\"Dash\"/></Rectangle.StrokeStyle>\n</Rectangle>\n"
    );
}

#[test]
fn image_writes_bitmap_crop_bounding_and_mask() {
    let mut o = plain("Image", ObjectKind::Image, "Pic");
    o.size_mode = s("Centered");
    o.image_source = s("a/b.png");
    o.bitmap_position = s("2");
    o.crop = Some(CropEffect { range: s("0,0,1,1"), feather: s("0.1") });
    o.bounding = Some(Bounding { object: "T".to_string(), padding: "0,0,0,0".to_string() });
    o.mask = s("M");
    assert_eq!(
        serialize_object(&o, 0),
        "<Image Name=\"Pic\" Dimensions=\"1,1,0\" Location=\"0,0,0\">\n  <Image.Bitmap><Bitmap Source=\"a\\b.png\" Position=\"2\" /></Image.Bitmap>\n  <Image.Crop><Crop Feather=\"0.1\" /></Image.Crop>\n  <Image.Bounding><Bounding Object=\"T\" /></Image.Bounding>\n  <Image.Mask><Mask Object=\"M\"/></Image.Mask>\n</Image>\n"
    );
}

#[test]
fn ticker_writes_template_from_its_text() {
    let mut o = plain("Ticker", ObjectKind::Ticker, "News");
    o.text = s("a & b");
    o.ticker_speed = s("2");
    o.ticker_direction = s("left");
    o.ticker_kind = s("Crawl");
    o.size_mode = s("Stretch");
    assert_eq!(
        serialize_object(&o, 0),
        "<Ticker Name=\"News\" Dimensions=\"1,1,0\" Location=\"0,0,0\" Speed=\"2\" Type=\"Crawl\">\n  <Ticker.Template><TextBlock Text=\"a &amp; b\" /></Ticker.Template>\n</Ticker>\n"
    );
}

#[test]
fn default_bounding_is_not_written() {
    let mut o = plain("Rectangle", ObjectKind::Rectangle, "Box");
    o.bounding = Some(Bounding { object: String::new(), padding: "0,0,0,0".to_string() });
    assert_eq!(
        serialize_object(&o, 0),
        "<Rectangle Name=\"Box\" Dimensions=\"1,1,0\" Location=\"0,0,0\" />\n"
    );
}

#[test]
fn object_attributes_are_read_apart_from_numbers() {
    let mut m = StrMap::new();
    for (k, v) in [
        ("Name", "T"),
        ("Text", "hello"),
        ("TextWordWrapping", "NoWrap"),
        ("Compositing", "Additive"),
        ("TextEffect", "uppercase"),
        ("Type", "Crawl"),
        ("FlipX", "true"),
        ("Location", "1,2,0"),
        ("Custom", "x"),
    ] {
        m.insert(k.to_string(), v.to_string());
    }
    let ticker = object_attrs(ObjectKind::Ticker, &m);
    assert_eq!(ticker.name.as_deref(), Some("T"));
    assert_eq!(ticker.text.as_deref(), Some("hello"));
    assert_eq!(ticker.word_wrapping.as_deref(), Some("NoWrap"));
    assert_eq!(ticker.compositing.as_deref(), Some("Additive"));
    assert!(ticker.auto_upper_case);
    assert!(ticker.visible);
    assert!(ticker.flip_x);
    assert!(!ticker.flip_y);
    assert_eq!(ticker.ticker_kind.as_deref(), Some("Crawl"));
    assert_eq!(ticker.extra_attrs.len(), 1);
    assert_eq!(ticker.extra_attrs.get("Custom").unwrap(), "x");
    let image = object_attrs(ObjectKind::Image, &m);
    assert_eq!(image.ticker_kind, None);
    m.insert("Visible".to_string(), "False".to_string());
    assert!(!object_attrs(ObjectKind::Image, &m).visible);
}

#[test]
fn flip_effects_name_their_axes() {
    let flips = |pairs: &[(&str, &str)]| {
        let mut m = StrMap::new();
        for (k, v) in pairs {
            m.insert(k.to_string(), v.to_string());
        }
        flip_axes(&m)
    };
    assert_eq!(flips(&[("Value", "FlipHorizontal")]), (true, false));
    assert_eq!(flips(&[("Axis", "V")]), (false, true));
    assert_eq!(flips(&[("Value", "x"), ("FlipY", "True")]), (true, true));
    assert_eq!(flips(&[("Value", "both")]), (false, false));
    assert_eq!(flips(&[]), (false, false));
}

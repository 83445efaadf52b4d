use gt_core::color::Color;
use gt_core::model::{Animation, ObjectKind, Storyboard};
use gt_core::strmap::StrMap;

fn animation(kind: &str, object: &str) -> Animation {
    Animation {
        kind: kind.to_string(),
        object: Some(object.to_string()),
        duration: None,
        delay: None,
        interpolation: None,
        direction: None,
        reversed: false,
        center_axis: None,
        speed: None,
        muted: false,
        extra_attrs: StrMap::new(),
    }
}

fn storyboard(ty: Option<&str>, data_name: Option<&str>) -> Storyboard {
    Storyboard {
        storyboard_type: ty.map(str::to_string),
        reversed: false,
        data_name: data_name.map(str::to_string),
        animations: Vec::new(),
        extra_attrs: StrMap::new(),
        unknown_children: Vec::new(),
    }
}

#[test]
fn colors_parse_six_and_eight_digits() {
    assert_eq!(Color::parse("#FF0080"), Some(Color { a: 255, r: 255, g: 0, b: 128 }));
    assert_eq!(Color::parse("  #80102030 "), Some(Color { a: 128, r: 16, g: 32, b: 48 }));
    assert_eq!(Color::parse("##abcdef"), Some(Color { a: 255, r: 171, g: 205, b: 239 }));
    assert_eq!(Color::parse("#12345"), None);
    assert_eq!(Color::parse("#GG0000"), None);
}

#[test]
fn colors_print_as_css_and_argb() {
    assert_eq!(Color { a: 255, r: 255, g: 0, b: 128 }.to_css(), "#FF0080");
    assert_eq!(Color { a: 128, r: 1, g: 2, b: 3 }.to_css(), "rgba(1, 2, 3, 0.502)");
    assert_eq!(Color { a: 0, r: 0, g: 0, b: 0 }.to_css(), "rgba(0, 0, 0, 0.000)");
    assert_eq!(Color { a: 128, r: 16, g: 32, b: 48 }.to_argb(), "#80102030");
    assert!(Color::transparent().is_transparent());
}

#[test]
fn argb_text_reads_back() {
    for c in [Color { a: 1, r: 2, g: 3, b: 4 }, Color { a: 255, r: 171, g: 0, b: 9 }] {
        assert_eq!(Color::parse(&c.to_argb()), Some(c));
    }
}

#[test]
fn kinds_round_trip_through_names() {
    for tag in ["TextBlock", "Rectangle", "Ellipse", "Triangle", "Image", "Ticker", "Text3D", "QrCode", "ImageSequence"] {
        assert_eq!(ObjectKind::from_tag(tag).as_str(), tag);
    }
    assert_eq!(ObjectKind::from_tag("QR"), ObjectKind::QrCode);
    assert_eq!(ObjectKind::from_tag("TextBlock3D"), ObjectKind::Text3D);
    assert_eq!(ObjectKind::from_tag("Widget"), ObjectKind::Unknown);
    assert!(ObjectKind::Triangle.is_shape());
    assert!(!ObjectKind::Image.is_shape());
    assert!(!ObjectKind::Unknown.renders_html());
    assert!(ObjectKind::Ticker.phase1_renderable());
}

#[test]
fn storyboard_types_and_scopes() {
    assert_eq!(storyboard(None, None).effective_type(), "TransitionIn");
    assert_eq!(storyboard(Some(""), None).effective_type(), "TransitionIn");
    assert!(storyboard(Some("TransitionOut"), None).plays_rewound());
    assert!(storyboard(Some("DataChangeIn"), None).plays_rewound());
    assert!(!storyboard(Some("transitionout"), None).plays_rewound());
    assert!(storyboard(Some("continuous"), None).is_continuous());
    assert!(storyboard(None, Some("Title.Text")).is_scoped());
    assert!(!storyboard(None, Some("")).is_scoped());
}

#[test]
fn placeholders_do_not_count() {
    let mut sb = storyboard(None, None);
    sb.animations.push(animation("Fade", "Box"));
    sb.animations.push(animation("none", "Box"));
    sb.animations.push(animation("Fly", "box"));
    sb.animations.push(animation("Fly", "Other"));
    assert_eq!(sb.counted_animations_for("BOX"), 2);
    assert!(sb.animations[1].is_placeholder());
    assert!(animation("Blink", "x").is_continuous_type());
    assert!(!animation("blink", "x").is_continuous_type());
}

#[test]
fn parsed_colors_write_back_in_upper_case() {
    for h in ["ff00aa11", "80FfEe01", "0123abCD"] {
        let c = Color::parse(&format!("#{h}")).unwrap();
        assert_eq!(c.to_argb(), format!("#{}", h.to_ascii_uppercase()));
        assert_eq!(Color::parse(&c.to_argb()), Some(c));
    }
}

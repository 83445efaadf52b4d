use gt_core::brushes::{gradient_stops, read_fill, BrushRead};
use gt_core::color::Color;
use gt_core::model::UnknownNode;

fn node(tag: &str, attrs: &[(&str, &str)], children: Vec<UnknownNode>) -> UnknownNode {
    let mut n = UnknownNode::new(tag.to_string());
    for (k, v) in attrs {
        n.attributes.insert(k.to_string(), v.to_string());
    }
    n.children = children;
    n
}

#[test]
fn solid_brushes_read_their_colour() {
    match read_fill(&node("Brush", &[("Color", "#80FF0000")], vec![])) {
        Some(BrushRead::Solid(Some(c))) => assert_eq!(c, Color { a: 0x80, r: 0xFF, g: 0, b: 0 }),
        other => panic!("unexpected {other:?}"),
    }
    assert!(matches!(read_fill(&node("Brush", &[("Color", "red")], vec![])), Some(BrushRead::Solid(None))));
    assert!(matches!(read_fill(&node("Brush", &[], vec![])), Some(BrushRead::Solid(None))));
}

#[test]
fn gradient_brushes_keep_points_wrap_and_stops() {
    let stops = node(
        "Brush.Stops",
        &[],
        vec![
            node("GradientStop", &[("Color", "#FF00FF00")], vec![]),
            node("GradientStop", &[("Position", "0.5"), ("Color", "#FF0000FF")], vec![]),
            node("GradientStop", &[("Color", "bad")], vec![]),
        ],
    );
    let brush = node(
        "Brush",
        &[("Type", "LinearGradient"), ("StartPoint", "0,0"), ("EndPoint", "1,1"), ("Wrap", "Clamp"), ("WrapX", "Wrap")],
        vec![stops],
    );
    match read_fill(&brush) {
        Some(BrushRead::PointGradient { start, end, wrap, stops }) => {
            assert_eq!(start.as_deref(), Some("0,0"));
            assert_eq!(end.as_deref(), Some("1,1"));
            assert_eq!(wrap.as_deref(), Some("Wrap"));
            assert_eq!(stops.len(), 2);
            assert_eq!(stops[0].offset, None);
            assert_eq!(stops[1].offset.as_deref(), Some("0.5"));
            assert_eq!(stops[1].color, Color { a: 255, r: 0, g: 0, b: 255 });
        }
        other => panic!("unexpected {other:?}"),
    }
    let legacy = node("LinearGradientBrush", &[("Angle", "90"), ("Wrap", "Clamp"), ("WrapX", "Wrap")], vec![]);
    match read_fill(&legacy) {
        Some(BrushRead::AngleGradient { angle, wrap, stops }) => {
            assert_eq!(angle.as_deref(), Some("90"));
            assert_eq!(wrap.as_deref(), Some("Clamp"));
            assert!(stops.is_empty());
        }
        other => panic!("unexpected {other:?}"),
    }
    assert!(matches!(
        read_fill(&node("Brush", &[("Type", "RadialGradient")], vec![])),
        Some(BrushRead::RadialGradient { .. })
    ));
}

#[test]
fn picture_brushes_name_their_source() {
    let bitmap = node(
        "Brush",
        &[("Type", "Bitmap"), ("SizeMode", "Stretch")],
        vec![node("Brush.Bitmap", &[], vec![node("Bitmap", &[("Source", "pics\\a.png")], vec![])])],
    );
    match read_fill(&bitmap) {
        Some(BrushRead::Picture { source, size_mode, extra }) => {
            assert_eq!(source, "pics\\a.png");
            assert_eq!(size_mode.as_deref(), Some("Stretch"));
            assert_eq!(extra.len(), 0);
        }
        other => panic!("unexpected {other:?}"),
    }
    let picture = node("ImageBrush", &[("ImageSource", "b.png"), ("Stretch", "Fill"), ("Opacity", "1")], vec![]);
    match read_fill(&picture) {
        Some(BrushRead::Picture { source, size_mode, extra }) => {
            assert_eq!(source, "b.png");
            assert_eq!(size_mode.as_deref(), Some("Fill"));
            assert_eq!(extra.get("Opacity").map(String::as_str), Some("1"));
        }
        other => panic!("unexpected {other:?}"),
    }
    assert!(read_fill(&node("Picture", &[], vec![])).is_none());
    assert!(read_fill(&node("Other", &[("Color", "#FFFFFFFF")], vec![])).is_none());
}

#[test]
fn stops_are_found_depth_first() {
    let tree = node(
        "Stop",
        &[("Color", "#FF000000"), ("Offset", "0.1"), ("Position", "0.9")],
        vec![node("X", &[], vec![node("Stop", &[("Color", "#FFFFFFFF")], vec![])])],
    );
    let stops = gradient_stops(&tree);
    assert_eq!(stops.len(), 2);
    assert_eq!(stops[0].offset.as_deref(), Some("0.1"));
    assert_eq!(stops[1].color, Color { a: 255, r: 255, g: 255, b: 255 });
}

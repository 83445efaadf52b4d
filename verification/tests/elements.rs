use gt_core::elements::{
    attributes, bitmap_source_from_node, bounding_from_attrs, is_animation_tag, is_object_tag,
    leftover_attrs, object_attrs, parse_animation, parse_bool, parse_storyboard, parse_unknown,
    skip_to_end,
};
use gt_core::document::{document_structure, LayerChild};
use gt_core::error::Error;
use gt_core::model::{ObjectKind, UnknownNode};
use gt_core::strmap::StrMap;
use gt_core::xml::{read_events, XmlEvent};

/// The events of `xml` and the position just after its first start tag,
/// with that tag's name, attribute text and emptiness.
fn after_root(xml: &str) -> (Vec<XmlEvent>, usize, String, String, bool) {
    let events = read_events(xml);
    for (i, e) in events.iter().enumerate() {
        if let XmlEvent::Open { name, attrs, empty } = e {
            return (events.clone(), i + 1, name.clone(), attrs.clone(), *empty);
        }
    }
    panic!("no start tag");
}

fn map_of(pairs: &[(&str, &str)]) -> StrMap<String> {
    let mut m = StrMap::new();
    for (k, v) in pairs {
        m.insert(k.to_string(), v.to_string());
    }
    m
}

#[test]
fn attributes_are_read_and_malformed_ones_refused() {
    let m = attributes(r#"A="1" B="x &amp; y""#).unwrap();
    assert_eq!(m.len(), 2);
    assert_eq!(m.get("A").unwrap(), "1");
    assert_eq!(m.get("B").unwrap(), "x & y");
    assert!(matches!(attributes(r#"A="1" A="2""#), Err(Error::XmlAttr(_))));
    assert!(matches!(attributes(r#"A="1" B"#), Err(Error::XmlAttr(_))));
}

#[test]
fn flags_accept_true_one_and_yes() {
    for v in ["true", " TRUE ", "1", "Yes"] {
        assert!(parse_bool(Some(&v.to_string())), "{v}");
    }
    for v in ["false", "0", "no", "", "truthy"] {
        assert!(!parse_bool(Some(&v.to_string())), "{v}");
    }
    assert!(!parse_bool(None));
}

#[test]
fn tags_are_classified() {
    assert!(is_object_tag("Text"));
    assert!(is_object_tag("Rectangle"));
    assert!(!is_object_tag("Layer"));
    assert!(!is_object_tag("Text.Fill"));
    assert!(!is_object_tag("Brush"));
    assert!(is_animation_tag("Fade"));
    assert!(!is_animation_tag("Animations"));
    assert!(!is_animation_tag("Storyboard.Animations"));
}

#[test]
fn leftover_attributes_ignore_known_names_in_any_case() {
    let m = map_of(&[("object", "A"), ("Duration", "1"), ("Custom", "x")]);
    let rest = leftover_attrs(&m, &["Object", "DURATION"]);
    assert_eq!(rest.len(), 1);
    assert_eq!(rest.get("Custom").unwrap(), "x");
}

#[test]
fn bounding_needs_an_object_and_defaults_padding() {
    let b = bounding_from_attrs(&map_of(&[("Object", "Box")])).unwrap();
    assert_eq!(b.object, "Box");
    assert_eq!(b.padding, "0,0,0,0");
    let b = bounding_from_attrs(&map_of(&[("Object", "Box"), ("Padding", "1,2,3,4")])).unwrap();
    assert_eq!(b.padding, "1,2,3,4");
    assert!(bounding_from_attrs(&map_of(&[("Padding", "1")])).is_none());
}

#[test]
fn bitmap_source_searches_bitmap_children() {
    let mut inner = UnknownNode::new("Bitmap".to_string());
    inner.attributes.insert("Source".to_string(), "pic.png".to_string());
    let mut other = UnknownNode::new("Other".to_string());
    other.attributes.insert("Source".to_string(), "no.png".to_string());
    let mut brush = UnknownNode::new("Brush.Bitmap".to_string());
    brush.children.push(other);
    brush.children.push(inner);
    let mut fill = UnknownNode::new("Fill".to_string());
    fill.children.push(brush);
    assert_eq!(bitmap_source_from_node(&fill).as_deref(), Some("pic.png"));
    assert_eq!(bitmap_source_from_node(&UnknownNode::new("Fill".to_string())), None);
}

#[test]
fn skipping_passes_over_nested_content() {
    let (events, pos, _, _, _) = after_root("<A><B><C/></B>text<D></D></A><E/>");
    let end = skip_to_end(&events, pos).unwrap();
    assert!(matches!(&events[end], XmlEvent::Open { name, .. } if name == "E"));
    let (events, pos, _, _, _) = after_root("<A><B>");
    assert!(matches!(skip_to_end(&events, pos), Err(Error::UnexpectedEof(l)) if l == "skip"));
}

#[test]
fn unknown_elements_keep_children_attributes_and_text() {
    let (events, pos, name, raw, empty) =
        after_root(r#"<Extra K="v"><Child A="1"/><Inner>hi <![CDATA[there]]></Inner>  </Extra>"#);
    let attrs = attributes(&raw).unwrap();
    let (node, next) = parse_unknown(&events, pos, &name, attrs, empty).unwrap();
    assert_eq!(node.tag, "Extra");
    assert_eq!(node.attributes.get("K").unwrap(), "v");
    assert_eq!(node.children.len(), 2);
    assert_eq!(node.children[0].tag, "Child");
    assert_eq!(node.children[0].attributes.get("A").unwrap(), "1");
    assert_eq!(node.children[1].text.as_deref(), Some("hithere"));
    assert_eq!(node.text, None);
    assert!(matches!(events[next], XmlEvent::Eof));
}

#[test]
fn unknown_element_without_end_is_refused() {
    let (events, pos, name, raw, empty) = after_root("<Extra><Child>");
    let attrs = attributes(&raw).unwrap();
    assert!(matches!(
        parse_unknown(&events, pos, &name, attrs, empty),
        Err(Error::UnexpectedEof(l)) if l == "unknown"
    ));
}

#[test]
fn animations_read_their_attributes() {
    let (events, pos, name, raw, empty) = after_root(
        r#"<Fade Object="Box" Duration="0.5" Reverse="true" Custom="c"><X/></Fade>"#,
    );
    let attrs = attributes(&raw).unwrap();
    let (a, next) = parse_animation(&events, pos, &name, &attrs, empty).unwrap();
    assert_eq!(a.kind, "Fade");
    assert_eq!(a.object.as_deref(), Some("Box"));
    assert_eq!(a.duration.as_deref(), Some("0.5"));
    assert!(a.reversed);
    assert!(!a.muted);
    assert_eq!(a.extra_attrs.len(), 1);
    assert_eq!(a.extra_attrs.get("Custom").unwrap(), "c");
    assert!(matches!(events[next], XmlEvent::Eof));
}

#[test]
fn storyboards_collect_animations_and_kept_children() {
    let xml = r#"<Storyboard Type="TransitionOut" Reversed="yes" DataName="Title" Extra="e">
        <Storyboard.Animations>
            <Fade Object="A" />
            <Note Kind="n" />
        </Storyboard.Animations>
        <Zoom Object="B"></Zoom>
        <Unknown.Child/>
    </Storyboard><After/>"#;
    let (events, pos, _, raw, empty) = after_root(xml);
    let attrs = attributes(&raw).unwrap();
    let (sb, next) = parse_storyboard(&events, pos, &attrs, empty).unwrap();
    assert_eq!(sb.storyboard_type.as_deref(), Some("TransitionOut"));
    assert!(sb.reversed);
    assert_eq!(sb.data_name.as_deref(), Some("Title"));
    assert_eq!(sb.extra_attrs.len(), 1);
    let kinds: Vec<&str> = sb.animations.iter().map(|a| a.kind.as_str()).collect();
    assert_eq!(kinds, ["Fade", "Note", "Zoom"]);
    assert_eq!(sb.animations[2].object.as_deref(), Some("B"));
    assert_eq!(sb.unknown_children.len(), 1);
    assert_eq!(sb.unknown_children[0].tag, "Unknown.Child");
    assert!(matches!(&events[next], XmlEvent::Open { name, .. } if name == "After"));
}

#[test]
fn storyboard_without_end_is_refused() {
    let (events, pos, _, raw, empty) = after_root(r#"<Storyboard><Fade Object="A"/>"#);
    let attrs = attributes(&raw).unwrap();
    assert!(matches!(
        parse_storyboard(&events, pos, &attrs, empty),
        Err(Error::UnexpectedEof(l)) if l == "Storyboard"
    ));
}

#[test]
fn empty_storyboard_reads_only_attributes() {
    let (events, pos, _, raw, empty) = after_root(r#"<Storyboard Type="Continuous"/>"#);
    assert!(empty);
    let attrs = attributes(&raw).unwrap();
    let (sb, next) = parse_storyboard(&events, pos, &attrs, empty).unwrap();
    assert_eq!(next, pos);
    assert_eq!(sb.storyboard_type.as_deref(), Some("Continuous"));
    assert!(sb.animations.is_empty());
}

#[test]
fn open_animation_types_are_kept() {
    let xml = r#"<Composition Width="10" Height="10">
  <Layer Name="L" Dimensions="10,10,0"><Layer.Composition><Composition Width="10" Height="10">
    <Rectangle Name="R" Dimensions="10,10,0" Location="0,0,0" DataFlags="ShowVisible"/>
  </Composition></Layer.Composition></Layer>
  <Storyboard Type="Continuous">
    <Storyboard.Animations>
      <RotateContinuous Object="R" Speed="2" Direction="Right"/>
      <Blink Object="R"/>
    </Storyboard.Animations>
  </Storyboard>
</Composition>"#;
    let document = document_structure(xml).unwrap();
    let storyboards = &document.storyboards;
    assert_eq!(storyboards[0].animations.len(), 2);
    assert_eq!(storyboards[0].animations[0].kind, "RotateContinuous");
    assert_eq!(storyboards[0].animations[0].speed.as_deref(), Some("2"));
    let rect = match &document.layers[0].children[0] {
        LayerChild::Object(object) => object,
        _ => panic!("object"),
    };
    let read = object_attrs(ObjectKind::from_tag(&rect.tag), &rect.attrs);
    assert_eq!(read.data_flags.as_deref(), Some("ShowVisible"));
}

use gt_core::model::{Animation, ObjectKind, Storyboard};
use gt_core::resolve::{
    bounding_source, collect_warnings, effective_storyboard_type, walk_layer, warn_object,
    BoundingCandidate, DocumentFacts, FillFacts, LayerFacts, LayerItem, ObjectFacts,
};
use gt_core::strmap::StrMap;
use gt_core::warn::Warning;
use gt_core::ConvertOptions;

fn object(kind: ObjectKind, name: &str) -> ObjectFacts {
    ObjectFacts {
        kind,
        tag: kind.as_str().to_string(),
        name: name.to_string(),
        has_image_source: false,
        geometry: None,
        fill: FillFacts::Other,
        stroke_fill: FillFacts::Other,
        reflection: false,
        compositing: None,
        auto_size: None,
        unknown_children: Vec::new(),
        extra_attr_keys: Vec::new(),
    }
}

fn codes(ws: &[Warning]) -> Vec<&str> {
    ws.iter().map(|w| w.code.as_str()).collect()
}

fn storyboard(ty: Option<&str>, kinds: &[&str]) -> Storyboard {
    let mut sb = Storyboard {
        storyboard_type: ty.map(str::to_string),
        reversed: false,
        data_name: None,
        animations: Vec::new(),
        extra_attrs: StrMap::new(),
        unknown_children: Vec::new(),
    };
    for kind in kinds {
        sb.animations.push(Animation {
            kind: kind.to_string(),
            object: Some("Box".to_string()),
            duration: None,
            delay: None,
            interpolation: None,
            direction: None,
            reversed: false,
            center_axis: None,
            speed: None,
            muted: false,
            extra_attrs: StrMap::new(),
        });
    }
    sb
}

#[test]
fn effective_type_defaults_to_transition_in() {
    assert_eq!(effective_storyboard_type(None), "TransitionIn");
    assert_eq!(effective_storyboard_type(Some("")), "TransitionIn");
    assert_eq!(effective_storyboard_type(Some("Continuous")), "Continuous");
}

#[test]
fn object_warnings_come_in_order() {
    let mut o = object(ObjectKind::Unknown, "W");
    o.tag = "FutureWidget".to_string();
    o.geometry = Some("cube".to_string());
    o.fill = FillFacts::Picture { extra_keys: vec!["Tile".to_string()] };
    o.stroke_fill = FillFacts::Unsupported { detail: "odd stroke".to_string() };
    o.reflection = true;
    o.compositing = Some(" Additive ".to_string());
    o.auto_size = Some("Grow".to_string());
    o.unknown_children = vec!["Extra".to_string()];
    o.extra_attr_keys = vec!["Foo".to_string()];
    let mut ws = Vec::new();
    warn_object(&o, &mut ws);
    assert_eq!(
        codes(&ws),
        vec![
            "unsupported.object.unknown",
            "approximate.cube",
            "unsupported.picture_fill.attribute",
            "unsupported.stroke",
            "approximate.reflection",
            "approximate.compositing",
            "unsupported.auto_size",
            "unsupported.object_child",
            "unsupported.attribute",
        ]
    );
    assert_eq!(ws[0].message, "<FutureWidget> 'W' is not converted to HTML");
    assert_eq!(ws[0].object.as_deref(), Some("W"));
    assert_eq!(ws[2].message, "picture fill attribute Tile is not applied");
    assert_eq!(ws[3].message, "odd stroke");
    assert_eq!(ws[5].message, "Compositing  Additive  is approximated with mix-blend-mode");
    assert_eq!(ws[6].message, "AutoSize=Grow is not applied as live layout");
    assert_eq!(ws[7].message, "object child <Extra> is not converted");
    assert_eq!(ws[8].message, "attribute Foo is preserved but not rendered");
}

#[test]
fn images_and_codes_without_source_warn() {
    let mut ws = Vec::new();
    warn_object(&object(ObjectKind::Image, "Pic"), &mut ws);
    warn_object(&object(ObjectKind::QrCode, "Qr"), &mut ws);
    warn_object(&object(ObjectKind::Text3D, "T3"), &mut ws);
    let mut fixed = object(ObjectKind::TextBlock, "T");
    fixed.auto_size = Some("fixed".to_string());
    warn_object(&fixed, &mut ws);
    assert_eq!(
        codes(&ws),
        vec!["unsupported.image.source", "unsupported.qr.generation", "approximate.text3d"]
    );
}

#[test]
fn layers_warn_children_then_objects() {
    let nested = LayerFacts {
        name: "Inner".to_string(),
        unknown_children: vec!["Blob".to_string()],
        children: vec![LayerItem::Object(object(ObjectKind::Image, "Pic"))],
    };
    let layer = LayerFacts {
        name: "Outer".to_string(),
        unknown_children: vec!["Odd".to_string()],
        children: vec![LayerItem::Layer(nested), LayerItem::Object(object(ObjectKind::Text3D, "T"))],
    };
    let mut ws = Vec::new();
    walk_layer(&layer, &mut ws);
    assert_eq!(
        codes(&ws),
        vec!["unsupported.layer_child", "unsupported.layer_child", "unsupported.image.source", "approximate.text3d"]
    );
    assert_eq!(ws[0].message, "layer child <Odd> is not converted");
    assert_eq!(ws[0].object.as_deref(), Some("Outer"));
    assert_eq!(ws[1].object.as_deref(), Some("Inner"));
}

#[test]
fn document_warnings_cover_storyboards() {
    let document = DocumentFacts {
        warnings: vec![Warning::new("parse.note".to_string(), "seen".to_string())],
        unknown_children: vec!["Meta".to_string()],
        storyboards: vec![
            storyboard(Some("DataChangeIn"), &["Fade", "Bounce"]),
            storyboard(Some("Page1"), &[]),
        ],
        layers: Vec::new(),
    };
    let ws = collect_warnings(&document, &ConvertOptions::default());
    assert_eq!(
        codes(&ws),
        vec![
            "parse.note",
            "unsupported.root_child",
            "unsupported.storyboard.datachange",
            "unsupported.animation.bounce",
            "unsupported.storyboard",
            "unsupported.storyboard.missing",
        ]
    );
    assert_eq!(ws[1].message, "root child <Meta> is not converted");
    assert_eq!(ws[2].message, "storyboard DataChangeIn is kept in IR for Wasm runtime (stage 6)");
    assert_eq!(ws[3].message, "animation <Bounce> is recorded but has no dedicated CSS mapping");
    assert_eq!(ws[4].message, "storyboard page1 is parsed but not selected for HTML");
    assert_eq!(ws[5].message, "no storyboard named 'TransitionIn' was found; static layout is used");
    assert_eq!(ws[5].object, None);
}

#[test]
fn selected_storyboard_is_not_missing() {
    let document = DocumentFacts {
        warnings: Vec::new(),
        unknown_children: Vec::new(),
        storyboards: vec![storyboard(None, &["Reveal"])],
        layers: Vec::new(),
    };
    assert!(collect_warnings(&document, &ConvertOptions::default()).is_empty());
    let options = ConvertOptions { embed_assets: false, storyboard: "TransitionOut".to_string() };
    assert_eq!(codes(&collect_warnings(&document, &options)), vec!["unsupported.storyboard.missing"]);
}

fn candidate(name: &str, bounded: bool, visible: bool, transparent: bool) -> BoundingCandidate {
    BoundingCandidate { name: name.to_string(), bounded, visible, transparent }
}

#[test]
fn bound_objects_take_their_size_from_a_plain_object_of_their_layer() {
    let cs = vec![
        candidate("Back", true, true, false),
        candidate("Text 1", false, true, false),
        candidate("Text 1", false, false, false),
        candidate("Ghost", false, false, false),
        candidate("Clear", false, true, true),
        candidate("Box", true, true, false),
    ];
    assert_eq!(bounding_source(&cs, "Text 1"), Some(1));
    assert_eq!(bounding_source(&cs, "Ghost"), None);
    assert_eq!(bounding_source(&cs, "Clear"), None);
    assert_eq!(bounding_source(&cs, "Box"), None);
    assert_eq!(bounding_source(&cs, "Missing"), None);
}

use gt_core::color::Color;
use gt_core::fields::{
    asset_field, field_change, fields_for_object, has_flag, is_known_field, list_fields,
    split_field, top_level_sources, DataField, FieldChange, FieldSource, LayerEntry,
};
use gt_core::model::{ObjectKind, UnknownNode};

fn source(kind: ObjectKind, name: &str, flags: Option<&str>) -> FieldSource {
    FieldSource {
        kind,
        name: name.to_string(),
        data_flags: flags.map(str::to_string),
        picture_fill: false,
        ticker_template: None,
    }
}

fn field(name: &str, object: &str, kind: &str, event_source: bool) -> DataField {
    DataField {
        name: name.to_string(),
        object: object.to_string(),
        kind: kind.to_string(),
        event_source,
    }
}

#[test]
fn flags_are_comma_separated() {
    assert!(has_flag(&Some("ShowVisible, hidden".to_string()), "Hidden"));
    assert!(!has_flag(&Some("ShowVisible,Hiddenish".to_string()), "Hidden"));
    assert!(!has_flag(&None, "Hidden"));
    assert!(has_flag(&Some(" NoEvents ".to_string()), "NoEvents"));
}

#[test]
fn texts_images_and_shapes_give_fields() {
    assert_eq!(
        fields_for_object(&source(ObjectKind::TextBlock, "Title", None)),
        vec![field("Title.Text", "Title", "Text", true)]
    );
    assert_eq!(
        fields_for_object(&source(ObjectKind::Image, "Pic", Some("Hidden"))),
        vec![field("Pic.Source", "Pic", "Source", false)]
    );
    assert_eq!(
        fields_for_object(&source(ObjectKind::Rectangle, "Box", None)),
        vec![field("Box.Fill.Color", "Box", "Fill.Color", false)]
    );
    let mut picture = source(ObjectKind::Ellipse, "Disc", Some("ShowVisible"));
    picture.picture_fill = true;
    assert_eq!(
        fields_for_object(&picture),
        vec![field("Disc.Fill.Bitmap", "Disc", "Fill.Bitmap", true)]
    );
    assert!(fields_for_object(&source(ObjectKind::Triangle, "Tri", None)).is_empty());
}

#[test]
fn ticker_templates_name_their_items() {
    let mut template = UnknownNode::new("Group".to_string());
    let mut headline = UnknownNode::new("TextBlock".to_string());
    headline.attributes.insert("Name".to_string(), "Headline".to_string());
    let mut logo = UnknownNode::new("image".to_string());
    logo.attributes.insert("Name".to_string(), "Logo".to_string());
    template.children.push(headline);
    template.children.push(UnknownNode::new("Spacer".to_string()));
    template.children.push(logo);
    let mut ticker = source(ObjectKind::Ticker, "News", None);
    ticker.ticker_template = Some(template);
    assert_eq!(
        fields_for_object(&ticker),
        vec![
            field("News.Headline.Text", "News", "Text", true),
            field("News.Logo.Source", "News", "Source", true),
        ]
    );
    let mut plain = source(ObjectKind::Ticker, "Crawl", None);
    plain.ticker_template = Some(UnknownNode::new("textblock".to_string()));
    assert_eq!(fields_for_object(&plain), vec![field("Crawl.Text", "Crawl", "Text", true)]);
}

#[test]
fn fields_are_listed_last_first() {
    let objects = vec![
        source(ObjectKind::TextBlock, "A", None),
        source(ObjectKind::Image, "B", None),
    ];
    assert_eq!(
        list_fields(&objects),
        vec![field("B.Source", "B", "Source", true), field("A.Text", "A", "Text", true)]
    );
    assert!(is_known_field(&objects, "A.Text"));
    assert!(!is_known_field(&objects, "A.Source"));
}

#[test]
fn field_names_split_at_first_dot() {
    assert_eq!(split_field("Box.Fill.Color"), Some(("Box".to_string(), "Fill.Color".to_string())));
    assert_eq!(split_field("NoDot"), None);
}

#[test]
fn field_changes_by_property() {
    assert_eq!(field_change("Text", "Hi"), Some(FieldChange::Text("Hi".to_string())));
    assert_eq!(field_change("Source", "a.png"), Some(FieldChange::Source("a.png".to_string())));
    assert_eq!(
        field_change("Fill.Color", "#FF0000"),
        Some(FieldChange::FillColor(Color { a: 255, r: 255, g: 0, b: 0 }))
    );
    assert_eq!(field_change("Fill.Color", "red"), None);
    assert_eq!(field_change("Fill.Bitmap", "b.png"), Some(FieldChange::FillBitmap("b.png".to_string())));
    assert_eq!(field_change("Width", "3"), None);
}

#[test]
fn assets_go_to_picture_fills_or_sources() {
    let mut picture = source(ObjectKind::Rectangle, "Box", Some("ShowVisible"));
    picture.picture_fill = true;
    let objects = vec![picture, source(ObjectKind::Image, "Pic", None)];
    assert_eq!(asset_field(&objects, "box"), "box.Fill.Bitmap");
    assert_eq!(asset_field(&objects, "Pic"), "Pic.Source");
    assert_eq!(asset_field(&objects, "Other"), "Other.Source");
    assert_eq!(asset_field(&objects, "Pic.Fill.Bitmap"), "Pic.Fill.Bitmap");
}

#[test]
fn only_objects_standing_directly_in_a_layer_give_fields() {
    let layers = vec![
        vec![
            LayerEntry::Object(source(ObjectKind::TextBlock, "Title", None)),
            LayerEntry::Layer(vec![LayerEntry::Object(source(ObjectKind::TextBlock, "Nested", None))]),
            LayerEntry::Object(source(ObjectKind::Image, "Logo", None)),
        ],
        vec![],
        vec![LayerEntry::Object(source(ObjectKind::TextBlock, "Second", None))],
    ];
    let objects = top_level_sources(layers);
    let names: Vec<&str> = objects.iter().map(|o| o.name.as_str()).collect();
    assert_eq!(names, ["Title", "Logo", "Second"]);
    let fields = list_fields(&objects);
    assert!(fields.iter().all(|f| f.object != "Nested"));
    assert!(!is_known_field(&objects, "Nested.Text"));
    assert!(is_known_field(&objects, "Title.Text"));
}

use gt_core::brushes::BrushRead;
use gt_core::color::Color;
use gt_core::document::{
    crop_of, document_structure, effect_of, layer_attrs, EffectRead, DocumentRead, FillRead, LayerChild, ObjectPart, ObjectRead,
    TemplateItem,
};
use gt_core::model::UnknownNode;
use gt_core::strmap::StrMap;
use gt_core::Error;

fn structure(xml: &str) -> DocumentRead {
    match document_structure(xml) {
        Ok(d) => d,
        Err(e) => panic!("unexpected error {e:?}"),
    }
}

fn only_object(doc: &DocumentRead) -> &ObjectRead {
    match &doc.layers[0].children[0] {
        LayerChild::Object(o) => o,
        other => panic!("unexpected {other:?}"),
    }
}

fn get<'a>(m: &'a StrMap<String>, key: &str) -> Option<&'a str> {
    m.get(key).map(|v| v.as_str())
}

#[test]
fn a_document_without_a_composition_is_refused() {
    assert!(matches!(document_structure("<Title><Other/></Title>"), Err(Error::MissingComposition)));
    assert!(matches!(document_structure(""), Err(Error::MissingComposition)));
}

#[test]
fn the_root_composition_may_be_nested_and_self_closing() {
    let doc = structure(r##"<Title><Composition Width="1920" Height="1080" Extra="x"/></Title>"##);
    assert_eq!(get(&doc.attrs, "Width"), Some("1920"));
    assert_eq!(get(&doc.attrs, "Extra"), Some("x"));
    assert!(doc.layers.is_empty());
    assert!(doc.storyboards.is_empty());
    assert!(doc.unknown_children.is_empty());
}

#[test]
fn layers_storyboards_and_other_elements_are_sorted_out() {
    let xml = r##"<Composition Width="10">
        <Layer Name="Main"/>
        <Storyboard Type="TransitionIn"/>
        <Notes Kind="a"><Line>hi</Line></Notes>
        <Layer Name="Second"/>
    </Composition>"##;
    let doc = structure(xml);
    assert_eq!(doc.layers.len(), 2);
    assert_eq!(get(&doc.layers[1].attrs, "Name"), Some("Second"));
    assert_eq!(doc.storyboards.len(), 1);
    assert_eq!(doc.storyboards[0].storyboard_type.as_deref(), Some("TransitionIn"));
    assert_eq!(doc.unknown_children.len(), 1);
    assert_eq!(doc.unknown_children[0].tag, "Notes");
    assert_eq!(doc.unknown_children[0].children[0].text.as_deref(), Some("hi"));
}

#[test]
fn objects_of_a_layer_composition_keep_their_parts_in_order() {
    let xml = r##"<Composition><Layer Name="L"><Layer.Composition>
        <TextBlock Name="Headline" Text="Hello" Location="1,2,0">
            <TextBlock.Fill><Brush Color="#FFFF0000"/></TextBlock.Fill>
            <Stroke/>
            <TextBlock.Bounding Padding="1,1,1,1"><Bounding Object="Other"/></TextBlock.Bounding>
            <Custom A="b"/>
        </TextBlock>
    </Layer.Composition></Layer></Composition>"##;
    let doc = structure(xml);
    let object = only_object(&doc);
    assert_eq!(object.tag, "TextBlock");
    assert_eq!(get(&object.attrs, "Text"), Some("Hello"));
    assert_eq!(object.parts.len(), 4);
    match &object.parts[0] {
        ObjectPart::Fill(FillRead::Brush(BrushRead::Solid(Some(c)))) => {
            assert_eq!(*c, Color { a: 0xFF, r: 0xFF, g: 0, b: 0 })
        },
        other => panic!("unexpected {other:?}"),
    }
    assert!(matches!(&object.parts[1], ObjectPart::Stroke(FillRead::Transparent)));
    match &object.parts[2] {
        ObjectPart::Bounding(Some(b)) => {
            assert_eq!(b.object, "Other");
            assert_eq!(b.padding, "0,0,0,0");
        },
        other => panic!("unexpected {other:?}"),
    }
    match &object.parts[3] {
        ObjectPart::Unknown(n) => assert_eq!(n.tag, "Custom"),
        other => panic!("unexpected {other:?}"),
    }
}

#[test]
fn fills_without_a_brush_keep_their_children() {
    let xml = r##"<Composition><Layer><Layer.Composition>
        <Rectangle><Rectangle.Fill><Pattern Kind="dots"/></Rectangle.Fill>
        <Rectangle.Stroke></Rectangle.Stroke></Rectangle>
    </Layer.Composition></Layer></Composition>"##;
    let doc = structure(xml);
    let object = only_object(&doc);
    match &object.parts[0] {
        ObjectPart::Fill(FillRead::Unsupported(n)) => {
            assert_eq!(n.tag, "Rectangle.Fill");
            assert_eq!(n.attributes.len(), 0);
            assert_eq!(n.children.len(), 1);
            assert_eq!(n.children[0].tag, "Pattern");
        },
        other => panic!("unexpected {other:?}"),
    }
    assert!(matches!(&object.parts[1], ObjectPart::Stroke(FillRead::Transparent)));
}

#[test]
fn the_last_brush_of_a_fill_wins() {
    let xml = r##"<Composition><Layer><Layer.Composition>
        <Ellipse><Fill><Brush Color="#FF0000FF"/><Other/><Brush Color="#FF00FF00"/></Fill></Ellipse>
    </Layer.Composition></Layer></Composition>"##;
    let doc = structure(xml);
    match &only_object(&doc).parts[0] {
        ObjectPart::Fill(FillRead::Brush(BrushRead::Solid(Some(c)))) => assert_eq!(c.g, 0xFF),
        other => panic!("unexpected {other:?}"),
    }
}

#[test]
fn inner_compositions_give_the_layer_sizes() {
    let xml = r##"<Composition><Layer Name="L" Visible="False">
        <Composition Width="100"><Composition Width="200" Height="50"></Composition></Composition>
        <Layer.Composition><Layer Name="Inner"/></Layer.Composition>
    </Layer></Composition>"##;
    let doc = structure(xml);
    let layer = &doc.layers[0];
    assert_eq!(layer.sizes.len(), 2);
    assert_eq!(get(&layer.sizes[0].attrs, "Width"), Some("100"));
    assert!(!layer.sizes[0].replace);
    assert_eq!(get(&layer.sizes[1].attrs, "Height"), Some("50"));
    assert!(layer.sizes[1].replace);
    assert_eq!(layer.children.len(), 1);
    assert!(matches!(&layer.children[0], LayerChild::Layer(l) if get(&l.attrs, "Name") == Some("Inner")));
    let fields = layer_attrs(&layer.attrs);
    assert_eq!(fields.name, "L");
    assert!(!fields.visible);
    assert!(!fields.locked);
    assert_eq!(fields.location, None);
}

#[test]
fn layer_attributes_default_and_keep_the_rest() {
    let mut attrs: StrMap<String> = StrMap::new();
    attrs.insert("Location".to_string(), "5,6,0".to_string());
    attrs.insert("Locked".to_string(), "True".to_string());
    attrs.insert("Opacity".to_string(), "50".to_string());
    let fields = layer_attrs(&attrs);
    assert_eq!(fields.name, "");
    assert!(fields.visible);
    assert!(fields.locked);
    assert_eq!(fields.location.as_deref(), Some("5,6,0"));
    assert_eq!(fields.extra_attrs.len(), 1);
    assert_eq!(get(&fields.extra_attrs, "Opacity"), Some("50"));
}

#[test]
fn templates_hold_objects_and_elements() {
    let xml = r##"<Composition><Layer><Layer.Composition>
        <Ticker Name="T"><Ticker.Template><TextBlock Text="item"/><Item.Spacer/><Item.Note>x</Item.Note></Ticker.Template></Ticker>
    </Layer.Composition></Layer></Composition>"##;
    let doc = structure(xml);
    match &only_object(&doc).parts[0] {
        ObjectPart::Template(items) => {
            assert_eq!(items.len(), 2);
            match &items[0] {
                TemplateItem::Object(o, empty) => {
                    assert!(*empty);
                    assert_eq!(get(&o.attrs, "Text"), Some("item"));
                },
                other => panic!("unexpected {other:?}"),
            }
            assert!(matches!(&items[1], TemplateItem::Node(n) if n.tag == "Item.Note"));
        },
        other => panic!("unexpected {other:?}"),
    }
}

#[test]
fn attribute_parts_collect_their_inner_elements() {
    let xml = r##"<Composition><Layer><Layer.Composition>
        <Image><Image.Bitmap><Bitmap Source="a.png"/><Other Source="b.png"/></Image.Bitmap>
        <Crop Range="0,0,1,1"><Crop Feather="2"/></Crop>
        <Image.Effects><Effect Type="Shadow"/></Image.Effects></Image>
    </Layer.Composition></Layer></Composition>"##;
    let doc = structure(xml);
    let object = only_object(&doc);
    match &object.parts[0] {
        ObjectPart::Bitmap(maps) => {
            assert_eq!(maps.len(), 1);
            assert_eq!(get(&maps[0], "Source"), Some("a.png"));
        },
        other => panic!("unexpected {other:?}"),
    }
    match &object.parts[1] {
        ObjectPart::Crop(maps) => {
            assert_eq!(maps.len(), 2);
            assert_eq!(get(&maps[0], "Range"), Some("0,0,1,1"));
            assert_eq!(get(&maps[1], "Feather"), Some("2"));
        },
        other => panic!("unexpected {other:?}"),
    }
    match &object.parts[2] {
        ObjectPart::Effects(nodes) => assert_eq!(nodes[0].attributes.get("Type").map(|v| v.as_str()), Some("Shadow")),
        other => panic!("unexpected {other:?}"),
    }
}

#[test]
fn input_that_ends_inside_an_element_is_refused() {
    assert!(document_structure("<Composition><Layer>").is_err());
    assert!(document_structure(r##"<Composition><Layer A="1" A="2"/></Composition>"##).is_err());
}

fn effect(tag: &str, attrs: &[(&str, &str)]) -> EffectRead {
    let mut n = UnknownNode::new(tag.to_string());
    for (k, v) in attrs {
        n.attributes.insert(k.to_string(), v.to_string());
    }
    effect_of(&n)
}

#[test]
fn effects_are_read_by_type_then_tag() {
    match effect("Effect", &[("Type", "Glow"), ("Blur", "4"), ("Color", "#FF112233")]) {
        EffectRead::Shadow { mode, blur, color } => {
            assert_eq!(mode, None);
            assert_eq!(blur.as_deref(), Some("4"));
            assert_eq!(color, Some(Color { a: 0xFF, r: 0x11, g: 0x22, b: 0x33 }));
        },
        other => panic!("unexpected {other:?}"),
    }
    match effect("Shadow", &[("BlurAmount", "2"), ("Blur", "9"), ("Mode", "Outer")]) {
        EffectRead::Shadow { mode, blur, .. } => {
            assert_eq!(mode.as_deref(), Some("Outer"));
            assert_eq!(blur.as_deref(), Some("2"));
        },
        other => panic!("unexpected {other:?}"),
    }
    assert!(matches!(effect("Skew", &[("Angle", "1,2,3")]), EffectRead::Skew(Some(a)) if a == "1,2,3"));
    assert!(matches!(effect("Effect", &[("Type", "Reflection")]), EffectRead::Reflection));
    assert!(matches!(effect("Flip", &[("Value", "Horizontal")]), EffectRead::Flip(true, false)));
    assert!(matches!(effect("TextureFlip", &[("Axis", "v")]), EffectRead::Flip(false, true)));
    assert!(matches!(effect("Blur", &[]), EffectRead::Other));
}

#[test]
fn crops_need_an_attribute() {
    let empty: StrMap<String> = StrMap::new();
    assert!(crop_of(&empty).is_none());
    let mut attrs: StrMap<String> = StrMap::new();
    attrs.insert("Feather".to_string(), "3".to_string());
    let crop = crop_of(&attrs).expect("a crop");
    assert_eq!(crop.range, None);
    assert_eq!(crop.feather.as_deref(), Some("3"));
}

#[test]
fn a_brush_of_gradient_type_stays_a_gradient() {
    let xml = r##"<Composition Width="100" Height="100">
  <Layer Name="L" Dimensions="100,100,0" Location="0,0,0">
    <Layer.Composition>
      <Composition Width="100" Height="100">
        <Rectangle Name="Grad" Dimensions="80,40,0" Location="50,30,0" Anchor="MiddleCenter" StrokeThickness="2">
          <Rectangle.Fill>
            <Brush Type="LinearGradient" Color="#FFFFFFFF" StartPoint="0,0.5" EndPoint="1,0.5">
              <Brush.Stops>
                <GradientStop Color="#FFFF0000" />
                <GradientStop Position="1" Color="#FF0000FF" />
              </Brush.Stops>
            </Brush>
          </Rectangle.Fill>
        </Rectangle>
      </Composition>
    </Layer.Composition>
  </Layer>
</Composition>"##;
    let doc = structure(xml);
    let layer = &doc.layers[0];
    assert_eq!(layer.sizes.len(), 1);
    assert!(layer.sizes[0].replace);
    let object = only_object(&doc);
    assert_eq!(get(&object.attrs, "Anchor"), Some("MiddleCenter"));
    match &object.parts[0] {
        ObjectPart::Fill(FillRead::Brush(BrushRead::PointGradient { start, end, wrap, stops })) => {
            assert_eq!(start.as_deref(), Some("0,0.5"));
            assert_eq!(end.as_deref(), Some("1,0.5"));
            assert_eq!(*wrap, None);
            assert_eq!(stops.len(), 2);
            assert_eq!(stops[0].color, Color { a: 0xFF, r: 0xFF, g: 0, b: 0 });
            assert_eq!(stops[0].offset, None);
            assert_eq!(stops[1].color, Color { a: 0xFF, r: 0, g: 0, b: 0xFF });
            assert_eq!(stops[1].offset.as_deref(), Some("1"));
        },
        other => panic!("unexpected {other:?}"),
    }
}

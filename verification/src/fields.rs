//! The data fields of a title: the texts, images and colours that a live
//! data source can change, as `<object>.<property>` names.
use vstd::prelude::*;

use crate::color::{parse_color, Color};
use crate::model::{ObjectKind, UnknownNode};
use crate::text::{eq_ignore_ascii_case, owned, same_ignoring_case, str_eq, trim_seq};

verus! {

/// One data field: its name, the object it belongs to, what it sets, and
/// whether the object raises events.
#[derive(Debug, Clone, PartialEq, Eq)]
pub struct DataField {
    pub name: String,
    pub object: String,
    pub kind: String,
    pub event_source: bool,
}

/// A field as text: name, object, kind, and whether it raises events.
pub type FieldView = (Seq<char>, Seq<char>, Seq<char>, bool);

pub open spec fn field_view(f: DataField) -> FieldView {
    (f.name@, f.object@, f.kind@, f.event_source)
}

pub open spec fn fields_view(fs: Seq<DataField>) -> Seq<FieldView> {
    fs.map_values(|f: DataField| field_view(f))
}

/// What an object holds that bears on its data fields.
#[derive(Debug)]
pub struct FieldSource {
    pub kind: ObjectKind,
    pub name: String,
    pub data_flags: Option<String>,
    /// Whether its fill is a picture.
    pub picture_fill: bool,
    /// A ticker's template, as it was read.
    pub ticker_template: Option<UnknownNode>,
}

/// Whether a comma-separated list holds `flag` (outer white space and ASCII
/// case ignored); `cur` is the part read so far.
pub open spec fn flag_in(rest: Seq<char>, cur: Seq<char>, flag: Seq<char>) -> bool
    decreases rest.len(),
{
    if rest.len() == 0 {
        same_ignoring_case(trim_seq(cur), flag)
    } else if rest[0] == ',' {
        same_ignoring_case(trim_seq(cur), flag) || flag_in(rest.drop_first(), Seq::empty(), flag)
    } else {
        flag_in(rest.drop_first(), cur.push(rest[0]), flag)
    }
}

/// Whether an object's `DataFlags` hold `flag`.
pub open spec fn has_flag_spec(flags: Option<String>, flag: Seq<char>) -> bool {
    flag_in(
        match flags {
            Some(f) => f@,
            None => Seq::empty(),
        },
        Seq::empty(),
        flag,
    )
}

fn part_is(cur: &Vec<char>, flag: &str) -> (res: bool)
    ensures
        res == same_ignoring_case(trim_seq(cur@), flag@),
{
    let s = crate::text::string_from_chars(cur.as_slice());
    eq_ignore_ascii_case(crate::text::trim(s.as_str()), flag)
}

/// Whether a comma-separated flag list holds `flag`.
pub fn has_flag(data_flags: &Option<String>, flag: &str) -> (res: bool)
    ensures
        res == has_flag_spec(*data_flags, flag@),
{
    let ghost text = match data_flags {
        Some(f) => f@,
        None => Seq::<char>::empty(),
    };
    let chars = match data_flags {
        Some(f) => crate::text::chars_of(f.as_str()),
        None => Vec::new(),
    };
    proof {
        assert(chars@ == text);
    }
    let n = chars.len();
    let mut cur: Vec<char> = Vec::new();
    let mut i: usize = 0;
    proof {
        assert(text.subrange(0, n as int) =~= text);
    }
    while i < n
        invariant
            chars@ == text,
            n == text.len(),
            i <= n,
            has_flag_spec(*data_flags, flag@) == flag_in(text.subrange(i as int, n as int), cur@, flag@),
        decreases n - i,
    {
        proof {
            assert(text.subrange(i as int, n as int).drop_first() =~= text.subrange(i + 1, n as int));
            assert(text.subrange(i as int, n as int)[0] == text[i as int]);
        }
        if chars[i] == ',' {
            if part_is(&cur, flag) {
                return true;
            }
            cur = Vec::new();
            proof {
                assert(cur@ =~= Seq::<char>::empty());
            }
        } else {
            cur.push(chars[i]);
        }
        i = i + 1;
    }
    proof {
        assert(text.subrange(n as int, n as int).len() == 0);
    }
    part_is(&cur, flag)
}

/// A field of the named object.
pub open spec fn field_of(object: Seq<char>, suffix: Seq<char>, event_source: bool) -> FieldView {
    (object + "."@ + suffix, object, suffix, event_source)
}

/// The fields of a ticker template's named children: `Image` children give
/// `Source`, others `Text`.
pub open spec fn template_fields(children: Seq<UnknownNode>, object: Seq<char>, event_source: bool) -> Seq<FieldView>
    decreases children.len(),
{
    if children.len() == 0 {
        Seq::empty()
    } else {
        let c = children.last();
        let prev = template_fields(children.drop_last(), object, event_source);
        if c.attributes@.contains_key("Name"@) {
            let suffix = if same_ignoring_case(c.tag@, "Image"@) {
                "Source"@
            } else {
                "Text"@
            };
            prev.push(
                (
                    object + "."@ + c.attributes@["Name"@]@ + "."@ + suffix,
                    object,
                    suffix,
                    event_source,
                ),
            )
        } else {
            prev
        }
    }
}

/// A ticker's fields: one per named child of a template that is not a
/// lone text, else its text.
pub open spec fn ticker_fields_spec(o: FieldSource, event_source: bool) -> Seq<FieldView> {
    match o.ticker_template {
        Some(t) => if !same_ignoring_case(t.tag@, "TextBlock"@) && !same_ignoring_case(t.tag@, "Text3D"@) {
            template_fields(t.children@, o.name@, event_source)
        } else {
            seq![field_of(o.name@, "Text"@, event_source)]
        },
        None => seq![field_of(o.name@, "Text"@, event_source)],
    }
}

/// The fields of one object: texts, image sources, ticker items, or the
/// fill of a rectangle or ellipse. Objects flagged `Hidden` or `NoEvents`
/// raise no events; a shape raises them only when it has flags at all.
pub open spec fn object_fields(o: FieldSource) -> Seq<FieldView> {
    let hidden = has_flag_spec(o.data_flags, "Hidden"@) || has_flag_spec(o.data_flags, "NoEvents"@);
    let event_source = !hidden;
    match o.kind {
        ObjectKind::TextBlock | ObjectKind::Text3D => seq![field_of(o.name@, "Text"@, event_source)],
        ObjectKind::Image | ObjectKind::QrCode | ObjectKind::ImageSequence => seq![
            field_of(o.name@, "Source"@, event_source),
        ],
        ObjectKind::Ticker => ticker_fields_spec(o, event_source),
        ObjectKind::Rectangle | ObjectKind::Ellipse => seq![
            field_of(
                o.name@,
                if o.picture_fill {
                    "Fill.Bitmap"@
                } else {
                    "Fill.Color"@
                },
                !hidden && o.data_flags is Some,
            ),
        ],
        _ => Seq::empty(),
    }
}

fn make_field(object: &str, suffix: &str, event_source: bool) -> (f: DataField)
    ensures
        field_view(f) == field_of(object@, suffix@, event_source),
{
    DataField {
        name: owned(object).concat(".").concat(suffix),
        object: owned(object),
        kind: owned(suffix),
        event_source,
    }
}

fn ticker_fields(o: &FieldSource, event_source: bool) -> (fs: Vec<DataField>)
    ensures
        fields_view(fs@) == ticker_fields_spec(*o, event_source),
{
    proof {
        reveal_strlit("Name");
    }
    if let Some(t) = &o.ticker_template {
        if !eq_ignore_ascii_case(t.tag.as_str(), "TextBlock") && !eq_ignore_ascii_case(
            t.tag.as_str(),
            "Text3D",
        ) {
            let mut fs: Vec<DataField> = Vec::new();
            let n = t.children.len();
            let mut i: usize = 0;
            proof {
                assert(t.children@.take(0) =~= Seq::<UnknownNode>::empty());
                assert(fields_view(fs@) =~= template_fields(t.children@.take(0), o.name@, event_source));
            }
            while i < n
                invariant
                    n == t.children@.len(),
                    i <= n,
                    fields_view(fs@) == template_fields(t.children@.take(i as int), o.name@, event_source),
                decreases n - i,
            {
                let child = &t.children[i];
                proof {
                    assert(t.children@.take(i + 1).drop_last() =~= t.children@.take(i as int));
                    assert(t.children@.take(i + 1).last() == *child);
                }
                if let Some(name) = child.attributes.get("Name") {
                    let suffix = if eq_ignore_ascii_case(child.tag.as_str(), "Image") {
                        "Source"
                    } else {
                        "Text"
                    };
                    let f = DataField {
                        name: owned(o.name.as_str()).concat(".").concat(name.as_str()).concat(".").concat(suffix),
                        object: owned(o.name.as_str()),
                        kind: owned(suffix),
                        event_source,
                    };
                    let ghost before = fs@;
                    fs.push(f);
                    proof {
                        assert(fields_view(fs@) =~= fields_view(before).push(field_view(f)));
                    }
                }
                i = i + 1;
            }
            proof {
                assert(t.children@.take(n as int) =~= t.children@);
            }
            return fs;
        }
    }
    let fs = vec![make_field(o.name.as_str(), "Text", event_source)];
    proof {
        assert(fields_view(fs@) =~= ticker_fields_spec(*o, event_source));
    }
    fs
}

/// The data fields of one object (see `object_fields`).
pub fn fields_for_object(o: &FieldSource) -> (fs: Vec<DataField>)
    ensures
        fields_view(fs@) == object_fields(*o),
{
    let hidden = has_flag(&o.data_flags, "Hidden") || has_flag(&o.data_flags, "NoEvents");
    let event_source = !hidden;
    let name = o.name.as_str();
    let fs = match o.kind {
        ObjectKind::TextBlock | ObjectKind::Text3D => vec![make_field(name, "Text", event_source)],
        ObjectKind::Image | ObjectKind::QrCode | ObjectKind::ImageSequence => vec![
            make_field(name, "Source", event_source),
        ],
        ObjectKind::Ticker => {
            return ticker_fields(o, event_source);
        },
        ObjectKind::Rectangle | ObjectKind::Ellipse => {
            let kind = if o.picture_fill {
                "Fill.Bitmap"
            } else {
                "Fill.Color"
            };
            vec![make_field(name, kind, !hidden && o.data_flags.is_some())]
        },
        _ => Vec::new(),
    };
    proof {
        assert(fields_view(fs@) =~= object_fields(*o));
    }
    fs
}

/// The fields of the objects, object by object, last field first.
pub open spec fn document_fields(objects: Seq<FieldSource>) -> Seq<FieldView>
    decreases objects.len(),
{
    if objects.len() == 0 {
        Seq::empty()
    } else {
        object_fields(objects.last()).reverse() + document_fields(objects.drop_last())
    }
}

/// The data fields of a title's top-level objects, listed in reverse order
/// (see `document_fields`).
pub fn list_fields(objects: &Vec<FieldSource>) -> (fields: Vec<DataField>)
    ensures
        fields_view(fields@) == document_fields(objects@),
{
    let mut all: Vec<DataField> = Vec::new();
    let n = objects.len();
    let mut i: usize = 0;
    proof {
        assert(objects@.take(0) =~= Seq::<FieldSource>::empty());
        assert(fields_view(all@).reverse() =~= document_fields(objects@.take(0)));
    }
    while i < n
        invariant
            n == objects@.len(),
            i <= n,
            fields_view(all@).reverse() == document_fields(objects@.take(i as int)),
        decreases n - i,
    {
        let mut fs = fields_for_object(&objects[i]);
        let ghost before = all@;
        let ghost added = fs@;
        all.append(&mut fs);
        proof {
            assert(objects@.take(i + 1).drop_last() =~= objects@.take(i as int));
            assert(objects@.take(i + 1).last() == objects@[i as int]);
            assert(fields_view(all@) =~= fields_view(before) + fields_view(added));
            assert(fields_view(all@).reverse() =~= fields_view(added).reverse() + fields_view(before).reverse());
        }
        i = i + 1;
    }
    proof {
        assert(objects@.take(n as int) =~= objects@);
    }
    let ghost orig = all@;
    let mut out: Vec<DataField> = Vec::new();
    proof {
        assert(fields_view(out@) =~= fields_view(orig).reverse().take(0));
        assert(all@ =~= orig.take(orig.len() as int));
    }
    while all.len() > 0
        invariant
            all@.len() <= orig.len(),
            all@ == orig.take(all@.len() as int),
            out@.len() == orig.len() - all@.len(),
            fields_view(out@) == fields_view(orig).reverse().take(orig.len() - all@.len()),
        decreases all@.len(),
    {
        let ghost k = all@.len();
        let f = all.pop().unwrap();
        proof {
            assert(f == orig[k - 1]);
            assert(all@ =~= orig.take(k - 1));
        }
        let ghost before = out@;
        out.push(f);
        proof {
            let target = fields_view(orig).reverse().take(orig.len() - all@.len());
            let prev = fields_view(orig).reverse().take(orig.len() - k);
            assert(fields_view(before) == prev);
            assert forall|m: int| 0 <= m < out@.len() implies #[trigger] fields_view(out@)[m] == target[m] by {
                if m < before.len() {
                    assert(out@[m] == before[m]);
                    assert(fields_view(before)[m] == prev[m]);
                } else {
                    assert(m == orig.len() - k);
                    assert(out@[m] == f);
                }
            }
            assert(fields_view(out@) =~= target);
        }
    }
    proof {
        assert(fields_view(orig).reverse().take(orig.len() as int) =~= fields_view(orig).reverse());
    }
    out
}

/// Whether one of the fields of the objects is named `name`.
pub fn is_known_field(objects: &Vec<FieldSource>, name: &str) -> (res: bool)
    ensures
        res == exists|i: int|
            0 <= i < document_fields(objects@).len() && (#[trigger] document_fields(objects@)[i]).0
                == name@,
{
    let fields = list_fields(objects);
    let n = fields.len();
    let mut i: usize = 0;
    while i < n
        invariant
            n == fields@.len(),
            i <= n,
            fields_view(fields@) == document_fields(objects@),
            forall|j: int| 0 <= j < i ==> (#[trigger] fields@[j]).name@ != name@,
        decreases n - i,
    {
        if str_eq(fields[i].name.as_str(), name) {
            proof {
                assert(document_fields(objects@)[i as int] == field_view(fields@[i as int]));
            }
            return true;
        }
        i = i + 1;
    }
    proof {
        assert forall|j: int| 0 <= j < document_fields(objects@).len() implies (#[trigger] document_fields(objects@)[j]).0 != name@ by {
            assert(document_fields(objects@)[j] == field_view(fields@[j]));
        }
    }
    false
}

/// The index of the first `.` in a field name.
pub open spec fn first_dot(s: Seq<char>) -> Option<int> {
    if exists|i: int| 0 <= i < s.len() && s[i] == '.' {
        Some(choose|i: int| 0 <= i < s.len() && s[i] == '.' && forall|j: int| 0 <= j < i ==> s[j] != '.')
    } else {
        None
    }
}

/// A field name split at its first `.` into object name and property.
pub fn split_field(field: &str) -> (res: Option<(String, String)>)
    ensures
        match res {
            Some((object, property)) => first_dot(field@) matches Some(i) && object@ == field@.take(i)
                && property@ == field@.skip(i + 1),
            None => first_dot(field@) is None,
        },
{
    let chars = crate::text::chars_of(field);
    let n = chars.len();
    let mut i: usize = 0;
    while i < n
        invariant
            chars@ == field@,
            n == chars@.len(),
            i <= n,
            forall|j: int| 0 <= j < i ==> chars@[j] != '.',
        decreases n - i,
    {
        if chars[i] == '.' {
            let object = crate::text::string_from_chars(&chars.as_slice()[0..i]);
            let property = crate::text::string_from_chars(&chars.as_slice()[i + 1..n]);
            proof {
                let w = choose|w: int| 0 <= w < field@.len() && field@[w] == '.' && forall|j: int| 0 <= j < w ==> field@[j] != '.';
                assert(field@[i as int] == '.');
                if w < i {
                    assert(chars@[w] != '.');
                } else if w > i {
                    assert(field@[i as int] != '.');
                }
                assert(chars@.subrange(0, i as int) =~= field@.take(i as int));
                assert(chars@.subrange(i + 1, n as int) =~= field@.skip(i + 1));
            }
            return Some((object, property));
        }
        i = i + 1;
    }
    None
}

/// What setting a property of an object changes.
#[derive(Debug, Clone, PartialEq, Eq)]
pub enum FieldChange {
    /// Its text.
    Text(String),
    /// Its image source.
    Source(String),
    /// Its fill, to a solid colour.
    FillColor(Color),
    /// Its fill, to a picture from this source.
    FillBitmap(String),
}

/// The change that setting a property makes: `Text`, `Source`,
/// `Fill.Color` (a colour that `Color::parse` reads) and `Fill.Bitmap`;
/// none for any other property or an unreadable colour.
pub fn field_change(property: &str, value: &str) -> (res: Option<FieldChange>)
    ensures
        property@ == "Text"@ ==> res == Some(FieldChange::Text(res->0->Text_0)) && res->0->Text_0@ == value@,
        property@ == "Source"@ ==> res == Some(FieldChange::Source(res->0->Source_0)) && res->0->Source_0@
            == value@,
        property@ == "Fill.Color"@ ==> match parse_color(value@) {
            Some(c) => res == Some(FieldChange::FillColor(c)),
            None => res is None,
        },
        property@ == "Fill.Bitmap"@ ==> res == Some(FieldChange::FillBitmap(res->0->FillBitmap_0))
            && res->0->FillBitmap_0@ == value@,
        property@ != "Text"@ && property@ != "Source"@ && property@ != "Fill.Color"@ && property@
            != "Fill.Bitmap"@ ==> res is None,
{
    proof {
        reveal_strlit("Text");
        reveal_strlit("Source");
        reveal_strlit("Fill.Color");
        reveal_strlit("Fill.Bitmap");
        assert("Text"@.len() == 4 && "Source"@.len() == 6);
        assert("Fill.Color"@[5] == 'C' && "Fill.Bitmap"@[5] == 'B');
        assert("Fill.Color"@ != "Fill.Bitmap"@);
    }
    if str_eq(property, "Text") {
        Some(FieldChange::Text(owned(value)))
    } else if str_eq(property, "Source") {
        Some(FieldChange::Source(owned(value)))
    } else if str_eq(property, "Fill.Color") {
        match Color::parse(value) {
            Some(c) => Some(FieldChange::FillColor(c)),
            None => None,
        }
    } else if str_eq(property, "Fill.Bitmap") {
        Some(FieldChange::FillBitmap(owned(value)))
    } else {
        None
    }
}

/// The field that assigning an asset to `object` sets: the name itself
/// when it already names a property, the object's picture fill when it has
/// one, and otherwise its image source.
pub open spec fn asset_field_of(objects: Seq<FieldSource>, object: Seq<char>) -> Seq<char> {
    let fields = document_fields(objects);
    if object.contains('.') {
        object
    } else if exists|i: int|
        0 <= i < fields.len() && same_ignoring_case((#[trigger] fields[i]).1, object) && fields[i].2
            == "Fill.Bitmap"@ {
        object + ".Fill.Bitmap"@
    } else {
        object + ".Source"@
    }
}

/// The field an asset is assigned to (see `asset_field_of`).
pub fn asset_field(objects: &Vec<FieldSource>, object: &str) -> (res: String)
    ensures
        res@ == asset_field_of(objects@, object@),
{
    let cs = crate::text::chars_of(object);
    let mut i: usize = 0;
    while i < cs.len()
        invariant
            cs@ == object@,
            i <= cs@.len(),
            forall|j: int| 0 <= j < i ==> cs@[j] != '.',
        decreases cs@.len() - i,
    {
        if cs[i] == '.' {
            assert(object@[i as int] == '.');
            return owned(object);
        }
        i = i + 1;
    }
    let fields = list_fields(objects);
    let n = fields.len();
    let mut k: usize = 0;
    while k < n
        invariant
            n == fields@.len(),
            k <= n,
            fields_view(fields@) == document_fields(objects@),
            !object@.contains('.'),
            forall|j: int|
                0 <= j < k ==> !(same_ignoring_case((#[trigger] fields@[j]).object@, object@)
                    && fields@[j].kind@ == "Fill.Bitmap"@),
        decreases n - k,
    {
        if eq_ignore_ascii_case(fields[k].object.as_str(), object) && str_eq(fields[k].kind.as_str(), "Fill.Bitmap") {
            proof {
                assert(document_fields(objects@)[k as int] == field_view(fields@[k as int]));
            }
            return owned(object).concat(".Fill.Bitmap");
        }
        k = k + 1;
    }
    proof {
        let fs = document_fields(objects@);
        assert forall|j: int| 0 <= j < fs.len() implies !(same_ignoring_case((#[trigger] fs[j]).1, object@) && fs[j].2 == "Fill.Bitmap"@) by {
            assert(fs[j] == field_view(fields@[j]));
        }
    }
    owned(object).concat(".Source")
}

/// An element of a layer as the field listing sees it: an object's facts,
/// or a nested layer with its own elements.
#[derive(Debug)]
pub enum LayerEntry {
    Object(FieldSource),
    Layer(Vec<LayerEntry>),
}

/// The objects directly in a layer, in order; those of nested layers are
/// not among them.
pub open spec fn direct_objects(entries: Seq<LayerEntry>) -> Seq<FieldSource>
    decreases entries.len(),
{
    if entries.len() == 0 {
        Seq::empty()
    } else {
        (match entries[0] {
            LayerEntry::Object(o) => seq![o],
            LayerEntry::Layer(_) => Seq::empty(),
        }) + direct_objects(entries.drop_first())
    }
}

/// The objects directly in each layer, layer by layer: the objects whose
/// fields a title lists.
pub open spec fn top_level_objects(layers: Seq<Vec<LayerEntry>>) -> Seq<FieldSource>
    decreases layers.len(),
{
    if layers.len() == 0 {
        Seq::empty()
    } else {
        direct_objects(layers[0]@) + top_level_objects(layers.drop_first())
    }
}

/// The objects whose fields a title lists (see `top_level_objects`).
pub fn top_level_sources(layers: Vec<Vec<LayerEntry>>) -> (res: Vec<FieldSource>)
    ensures
        res@ == top_level_objects(layers@),
{
    let ghost total = top_level_objects(layers@);
    let mut rest = layers;
    let mut out: Vec<FieldSource> = Vec::new();
    while rest.len() > 0
        invariant
            out@ + top_level_objects(rest@) == total,
        decreases rest@.len(),
    {
        let ghost before = rest@;
        let mut layer = rest.remove(0);
        proof {
            assert(rest@ =~= before.drop_first());
            assert(out@ + direct_objects(layer@) + top_level_objects(rest@) =~= total);
        }
        while layer.len() > 0
            invariant
                out@ + direct_objects(layer@) + top_level_objects(rest@) == total,
            decreases layer@.len(),
        {
            let ghost items = layer@;
            let entry = layer.remove(0);
            proof {
                assert(layer@ =~= items.drop_first());
            }
            match entry {
                LayerEntry::Object(o) => {
                    let ghost prev = out@;
                    out.push(o);
                    proof {
                        assert(out@ + direct_objects(layer@) + top_level_objects(rest@) =~= prev
                            + direct_objects(items) + top_level_objects(rest@));
                    }
                },
                LayerEntry::Layer(_) => {
                    proof {
                        assert(out@ + direct_objects(layer@) + top_level_objects(rest@) =~= out@
                            + direct_objects(items) + top_level_objects(rest@));
                    }
                },
            }
        }
        proof {
            assert(direct_objects(layer@) =~= Seq::<FieldSource>::empty());
            assert(out@ + top_level_objects(rest@) =~= out@ + direct_objects(layer@) + top_level_objects(rest@));
        }
    }
    proof {
        assert(top_level_objects(rest@) =~= Seq::<FieldSource>::empty());
        assert(out@ =~= out@ + top_level_objects(rest@));
    }
    out
}

/// Whether an object's flags keep it from raising events.
pub open spec fn quiet(o: FieldSource) -> bool {
    has_flag_spec(o.data_flags, "Hidden"@) || has_flag_spec(o.data_flags, "NoEvents"@)
}

/// What each kind of object gives as fields: a text object one `Text`
/// field; an image, QR code or image sequence one `Source` field; a
/// rectangle or ellipse one fill field (`Fill.Bitmap` for a picture fill,
/// else `Fill.Color`) that raises events only when the object has flags;
/// kinds other than these and tickers none. Each field is named after its
/// object, a dot and its kind, and raises events unless the object is
/// flagged `Hidden` or `NoEvents`.
pub proof fn lemma_fields_by_kind(o: FieldSource)
    ensures
        (o.kind == ObjectKind::TextBlock || o.kind == ObjectKind::Text3D) ==> object_fields(o) == seq![
            (o.name@ + "."@ + "Text"@, o.name@, "Text"@, !quiet(o)),
        ],
        (o.kind == ObjectKind::Image || o.kind == ObjectKind::QrCode || o.kind
            == ObjectKind::ImageSequence) ==> object_fields(o) == seq![
            (o.name@ + "."@ + "Source"@, o.name@, "Source"@, !quiet(o)),
        ],
        (o.kind == ObjectKind::Rectangle || o.kind == ObjectKind::Ellipse) ==> object_fields(o) == seq![
            (
                o.name@ + "."@ + (if o.picture_fill {
                    "Fill.Bitmap"@
                } else {
                    "Fill.Color"@
                }),
                o.name@,
                if o.picture_fill {
                    "Fill.Bitmap"@
                } else {
                    "Fill.Color"@
                },
                !quiet(o) && o.data_flags is Some,
            ),
        ],
        !(o.kind == ObjectKind::TextBlock || o.kind == ObjectKind::Text3D || o.kind == ObjectKind::Image
            || o.kind == ObjectKind::QrCode || o.kind == ObjectKind::ImageSequence || o.kind
            == ObjectKind::Rectangle || o.kind == ObjectKind::Ellipse || o.kind == ObjectKind::Ticker)
            ==> object_fields(o).len() == 0,
{
}

} // verus!

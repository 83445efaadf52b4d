//! Writing an object element back as GT XML. Which attributes and child
//! elements are written, and in which form, is decided here; the numbers
//! (dimensions, location, sizes, angles) and brushes come already written.
use vstd::prelude::*;

use crate::elements::text_view;
use crate::model::{Bounding, CropEffect, ObjectKind, UnknownNode};
use crate::text::{eq_ignore_ascii_case, owned, same_ignoring_case, str_eq};
use crate::write::{
    backslash, backslashed, data_flags_for_write, encode_text_attr, esc_attr, escaped_attr,
    flags_for_write, is_default_bounding, is_truthy, make_pad, pad, serialize_unknown, text_attr,
    truthy, unknown_xml,
};

verus! {

/// An object as it is written: its texts, and its numbers and brushes
/// already written as text.
#[derive(Debug)]
pub struct ObjectOut {
    pub tag: String,
    pub kind: ObjectKind,
    pub name: String,
    /// `width,height,depth`.
    pub dimensions: String,
    /// The anchor point, `x,y,z`.
    pub location: String,
    pub anchor: Option<String>,
    pub visible: bool,
    pub opacity: Option<String>,
    pub locked: bool,
    pub data_flags: Option<String>,
    pub size_mode: Option<String>,
    pub text: Option<String>,
    pub font_family: Option<String>,
    pub font_size: Option<String>,
    pub font_weight: Option<String>,
    pub text_align: Option<String>,
    pub vertical_align: Option<String>,
    pub line_spacing: Option<String>,
    pub auto_upper_case: bool,
    pub text_effect: Option<String>,
    pub ignore_overhang: Option<String>,
    pub word_wrapping: Option<String>,
    pub auto_size: Option<String>,
    /// A ticker's speed, present when it is not the default.
    pub ticker_speed: Option<String>,
    pub ticker_direction: Option<String>,
    pub ticker_kind: Option<String>,
    pub stroke_thickness: Option<String>,
    pub rect_style: Option<String>,
    pub radius: Option<String>,
    /// The rotation `rx,ry,rz`, present when it is not zero.
    pub rotate_xyz: Option<String>,
    /// The fill's brush element, present when the fill is not transparent.
    pub fill_xml: Option<String>,
    /// The stroke's brush element, present when there is a stroke.
    pub stroke_xml: Option<String>,
    pub dash_style: Option<String>,
    pub image_source: Option<String>,
    pub bitmap_position: Option<String>,
    pub ticker_template: Option<UnknownNode>,
    pub crop: Option<CropEffect>,
    pub bounding: Option<Bounding>,
    pub mask: Option<String>,
}

/// An attribute as a key and its unescaped value.
pub type Pair = (Seq<char>, Seq<char>);

pub open spec fn pair_if(c: bool, key: Seq<char>, value: Seq<char>) -> Seq<Pair> {
    if c {
        seq![(key, value)]
    } else {
        Seq::empty()
    }
}

/// A value that is given and is not the default (ASCII case ignored).
pub open spec fn not_default(v: Option<String>, default: Seq<char>) -> bool {
    v matches Some(s) && !same_ignoring_case(s@, default)
}

pub open spec fn value_of(v: Option<String>) -> Seq<char> {
    match v {
        Some(s) => s@,
        None => Seq::empty(),
    }
}

/// `Normal` is written `Regular`.
pub open spec fn written_weight(w: Seq<char>) -> Seq<char> {
    if same_ignoring_case(w, "Normal"@) {
        "Regular"@
    } else {
        w
    }
}

/// The data flags attribute, when the flags are written.
pub open spec fn flags_pair(o: ObjectOut) -> Seq<Pair> {
    match flags_for_write(text_view(o.data_flags), o.kind) {
        Some(f) => seq![("DataFlags"@, f)],
        None => Seq::empty(),
    }
}

/// After `acc`: name, dimensions and location; the anchor unless
/// `TopLeft`; `Visible` when hidden; opacity; `Locked`; the data flags to
/// write; an image's size mode unless `Centered`; the text, except a
/// ticker's.
pub open spec fn with_head(acc: Seq<Pair>, o: ObjectOut) -> Seq<Pair> {
    acc + pair_if(true, "Name"@, o.name@) + pair_if(true, "Dimensions"@, o.dimensions@) + pair_if(
        true,
        "Location"@,
        o.location@,
    ) + pair_if(not_default(o.anchor, "TopLeft"@), "Anchor"@, value_of(o.anchor)) + pair_if(
        !o.visible,
        "Visible"@,
        "False"@,
    ) + pair_if(o.opacity is Some, "Opacity"@, value_of(o.opacity)) + pair_if(
        o.locked,
        "Locked"@,
        "True"@,
    ) + flags_pair(o) + pair_if(
        o.kind == ObjectKind::Image && not_default(o.size_mode, "Centered"@),
        "SizeMode"@,
        value_of(o.size_mode),
    ) + pair_if(
        o.text is Some && o.kind != ObjectKind::Ticker,
        "Text"@,
        text_attr(value_of(o.text)),
    )
}

/// Kinds that carry text attributes.
pub open spec fn writes_text_style(k: ObjectKind) -> bool {
    k == ObjectKind::TextBlock || k == ObjectKind::Ticker || k == ObjectKind::Text3D
}

/// After `acc`, for a text kind: font, alignment, spacing, upper case as
/// `TextEffect`, `IgnoreOverhang` when truthy, `TextWordWrapping` only for
/// `NoWrap`.
pub open spec fn with_style(acc: Seq<Pair>, o: ObjectOut) -> Seq<Pair> {
    if !writes_text_style(o.kind) {
        acc
    } else {
        acc + pair_if(o.font_family is Some, "FontFamily"@, value_of(o.font_family)) + pair_if(
            o.font_size is Some,
            "FontSize"@,
            value_of(o.font_size),
        ) + pair_if(o.font_weight is Some, "FontWeight"@, written_weight(value_of(o.font_weight)))
            + pair_if(o.text_align is Some, "TextAlign"@, value_of(o.text_align)) + pair_if(
            o.vertical_align is Some,
            "VerticalAlign"@,
            value_of(o.vertical_align),
        ) + pair_if(o.line_spacing is Some, "LineSpacing"@, value_of(o.line_spacing)) + pair_if(
            o.auto_upper_case || (o.text_effect matches Some(e) && e@ == "Uppercase"@),
            "TextEffect"@,
            "Uppercase"@,
        ) + pair_if(
            o.ignore_overhang matches Some(v) && is_truthy(v@),
            "IgnoreOverhang"@,
            "True"@,
        ) + pair_if(
            o.word_wrapping matches Some(w) && same_ignoring_case(w@, "NoWrap"@),
            "TextWordWrapping"@,
            "NoWrap"@,
        )
    }
}

/// After `acc`: auto size unless `Fixed`; a ticker's speed, direction
/// unless `Left` and type unless `Replace`; stroke thickness; `Style` only
/// for `Square`; radius.
pub open spec fn with_tail(acc: Seq<Pair>, o: ObjectOut) -> Seq<Pair> {
    let ticker = o.kind == ObjectKind::Ticker;
    acc + pair_if(not_default(o.auto_size, "Fixed"@), "AutoSize"@, value_of(o.auto_size)) + pair_if(
        ticker && o.ticker_speed is Some,
        "Speed"@,
        value_of(o.ticker_speed),
    ) + pair_if(
        ticker && not_default(o.ticker_direction, "Left"@),
        "Direction"@,
        value_of(o.ticker_direction),
    ) + pair_if(ticker && not_default(o.ticker_kind, "Replace"@), "Type"@, value_of(o.ticker_kind))
        + pair_if(o.stroke_thickness is Some, "StrokeThickness"@, value_of(o.stroke_thickness))
        + pair_if(
        o.rect_style matches Some(s) && same_ignoring_case(s@, "Square"@),
        "Style"@,
        value_of(o.rect_style),
    ) + pair_if(o.radius is Some, "Radius"@, value_of(o.radius))
}

/// The attributes written, in order.
pub open spec fn object_pairs(o: ObjectOut) -> Seq<Pair> {
    with_tail(with_style(with_head(Seq::empty(), o), o), o)
}

/// Attributes as `key="value"` with the value escaped, joined by spaces.
pub open spec fn pairs_text(ps: Seq<Pair>) -> Seq<char>
    decreases ps.len(),
{
    if ps.len() == 0 {
        Seq::empty()
    } else {
        let one = ps.last().0 + "=\""@ + escaped_attr(ps.last().1) + "\""@;
        if ps.len() == 1 {
            one
        } else {
            pairs_text(ps.drop_last()) + " "@ + one
        }
    }
}

pub open spec fn child_text(p: Seq<char>, tag: Seq<char>, part: Seq<char>, inner: Seq<char>) -> Seq<char> {
    p + "  <"@ + tag + "."@ + part + ">"@ + inner + "</"@ + tag + "."@ + part + ">\n"@
}

/// A child element `<Tag.part>inner</Tag.part>` on its own line.
pub open spec fn child(indent: nat, tag: Seq<char>, part: Seq<char>, inner: Seq<char>) -> Seq<char> {
    child_text(pad(indent), tag, part, inner)
}

pub open spec fn child_if(c: bool, text: Seq<char>) -> Seq<char> {
    if c {
        text
    } else {
        Seq::empty()
    }
}

/// ` key="value"` with the value escaped, when it is given.
pub open spec fn opt_attr_text(c: bool, key: Seq<char>, value: Seq<char>) -> Seq<char> {
    child_if(c, " "@ + key + "=\""@ + escaped_attr(value) + "\""@)
}

pub open spec fn bitmap_inner(o: ObjectOut) -> Seq<char> {
    "<Bitmap Source=\""@ + escaped_attr(backslashed(value_of(o.image_source))) + "\""@ + child_if(
        o.bitmap_position is Some,
        " Position=\""@ + value_of(o.bitmap_position) + "\""@,
    ) + " />"@
}

pub open spec fn template_inner(o: ObjectOut) -> Seq<char> {
    match o.ticker_template {
        Some(n) => unknown_xml(n),
        None => "<TextBlock Text=\""@ + escaped_attr(text_attr(value_of(o.text))) + "\" />"@,
    }
}

pub open spec fn crop_inner(c: CropEffect) -> Seq<char> {
    "<Crop"@ + opt_attr_text(
        c.range matches Some(r) && r@ != "0,0,1,1"@,
        "Range"@,
        value_of(c.range),
    ) + opt_attr_text(c.feather is Some, "Feather"@, value_of(c.feather)) + " />"@
}

pub open spec fn bounding_inner(b: Bounding) -> Seq<char> {
    "<Bounding"@ + opt_attr_text(b.object@.len() > 0, "Object"@, b.object@) + opt_attr_text(
        b.padding@ != "0,0,0,0"@ && b.padding@.len() > 0,
        "Padding"@,
        b.padding@,
    ) + " />"@
}

/// The child elements: rotation when given, fill and stroke brushes,
/// a dash style unless `Solid`, an image's bitmap, a ticker's template (its
/// kept template, or a text block with its text), crop, bounding unless it
/// is the default, and mask.
pub open spec fn object_children(o: ObjectOut, indent: nat) -> Seq<char> {
    let t = o.tag@;
    child_if(
        o.rotate_xyz is Some,
        child(indent, t, "Transform"@, "<Transform Rotate=\""@ + value_of(o.rotate_xyz) + "\"/>"@),
    ) + child_if(o.fill_xml is Some, child(indent, t, "Fill"@, value_of(o.fill_xml))) + child_if(
        o.stroke_xml is Some,
        child(indent, t, "Stroke"@, value_of(o.stroke_xml)),
    ) + child_if(
        not_default(o.dash_style, "Solid"@),
        child(
            indent,
            t,
            "StrokeStyle"@,
            "<StrokeStyle DashStyle=\""@ + escaped_attr(value_of(o.dash_style)) + "\"/>"@,
        ),
    ) + child_if(
        o.kind == ObjectKind::Image && o.image_source is Some,
        child(indent, t, "Bitmap"@, bitmap_inner(o)),
    ) + child_if(o.kind == ObjectKind::Ticker, child(indent, t, "Template"@, template_inner(o)))
        + match o.crop {
        Some(c) => child(indent, t, "Crop"@, crop_inner(c)),
        None => Seq::empty(),
    } + match o.bounding {
        Some(b) => child_if(!is_default_bounding(b), child(indent, t, "Bounding"@, bounding_inner(b))),
        None => Seq::empty(),
    } + child_if(
        o.mask is Some,
        child(indent, t, "Mask"@, "<Mask Object=\""@ + escaped_attr(value_of(o.mask)) + "\"/>"@),
    )
}

/// An object element: a self-closing tag when it has no child elements.
pub open spec fn object_xml(o: ObjectOut, indent: nat) -> Seq<char> {
    let head = pad(indent) + "<"@ + o.tag@ + " "@ + pairs_text(object_pairs(o));
    let children = object_children(o, indent);
    if children.len() == 0 {
        head + " />\n"@
    } else {
        head + ">\n"@ + children + pad(indent) + "</"@ + o.tag@ + ">\n"@
    }
}

pub open spec fn pairs_view(v: Seq<(String, String)>) -> Seq<Pair> {
    v.map_values(|p: (String, String)| (p.0@, p.1@))
}

fn push_pair(pairs: &mut Vec<(String, String)>, c: bool, key: &str, value: String)
    ensures
        pairs_view(final(pairs)@) == pairs_view(old(pairs)@) + pair_if(c, key@, value@),
{
    if c {
        pairs.push((owned(key), value));
    }
    proof {
        assert(pairs_view(pairs@) =~= pairs_view(old(pairs)@) + pair_if(c, key@, value@));
    }
}

fn text_of(v: &Option<String>) -> (res: String)
    ensures
        res@ == value_of(*v),
{
    match v {
        Some(s) => s.clone(),
        None => String::new(),
    }
}

fn given_not(v: &Option<String>, default: &str) -> (res: bool)
    ensures
        res == not_default(*v, default@),
{
    match v {
        Some(s) => !eq_ignore_ascii_case(s.as_str(), default),
        None => false,
    }
}

fn push_head(o: &ObjectOut, pairs: &mut Vec<(String, String)>)
    ensures
        pairs_view(final(pairs)@) == with_head(pairs_view(old(pairs)@), *o),
{
    push_pair(pairs, true, "Name", o.name.clone());
    push_pair(pairs, true, "Dimensions", o.dimensions.clone());
    push_pair(pairs, true, "Location", o.location.clone());
    push_pair(pairs, given_not(&o.anchor, "TopLeft"), "Anchor", text_of(&o.anchor));
    push_pair(pairs, !o.visible, "Visible", owned("False"));
    push_pair(pairs, o.opacity.is_some(), "Opacity", text_of(&o.opacity));
    push_pair(pairs, o.locked, "Locked", owned("True"));
    let flags = data_flags_for_write(
        match &o.data_flags {
            Some(f) => Some(f.as_str()),
            None => None,
        },
        o.kind,
    );
    let ghost before_flags = pairs_view(pairs@);
    match flags {
        Some(f) => {
            pairs.push((owned("DataFlags"), f));
        },
        None => {},
    }
    proof {
        assert(match &o.data_flags {
            Some(f) => Some(f@),
            None => None::<Seq<char>>,
        } == text_view(o.data_flags));
        assert(pairs_view(pairs@) =~= before_flags + flags_pair(*o));
    }
    push_pair(
        pairs,
        o.kind == ObjectKind::Image && given_not(&o.size_mode, "Centered"),
        "SizeMode",
        text_of(&o.size_mode),
    );
    push_pair(
        pairs,
        o.text.is_some() && o.kind != ObjectKind::Ticker,
        "Text",
        encode_text_attr(text_of(&o.text).as_str()),
    );
}

fn push_style(o: &ObjectOut, pairs: &mut Vec<(String, String)>)
    ensures
        pairs_view(final(pairs)@) == with_style(pairs_view(old(pairs)@), *o),
{
    if !(o.kind == ObjectKind::TextBlock || o.kind == ObjectKind::Ticker || o.kind == ObjectKind::Text3D) {
        return;
    }
    push_pair(pairs, o.font_family.is_some(), "FontFamily", text_of(&o.font_family));
    push_pair(pairs, o.font_size.is_some(), "FontSize", text_of(&o.font_size));
    let weight = text_of(&o.font_weight);
    let written = if eq_ignore_ascii_case(weight.as_str(), "Normal") {
        owned("Regular")
    } else {
        weight
    };
    push_pair(pairs, o.font_weight.is_some(), "FontWeight", written);
    push_pair(pairs, o.text_align.is_some(), "TextAlign", text_of(&o.text_align));
    push_pair(pairs, o.vertical_align.is_some(), "VerticalAlign", text_of(&o.vertical_align));
    push_pair(pairs, o.line_spacing.is_some(), "LineSpacing", text_of(&o.line_spacing));
    let upper = o.auto_upper_case || match &o.text_effect {
        Some(e) => str_eq(e.as_str(), "Uppercase"),
        None => false,
    };
    push_pair(pairs, upper, "TextEffect", owned("Uppercase"));
    let overhang = match &o.ignore_overhang {
        Some(v) => truthy(v.as_str()),
        None => false,
    };
    push_pair(pairs, overhang, "IgnoreOverhang", owned("True"));
    let nowrap = match &o.word_wrapping {
        Some(w) => eq_ignore_ascii_case(w.as_str(), "NoWrap"),
        None => false,
    };
    push_pair(pairs, nowrap, "TextWordWrapping", owned("NoWrap"));
}

fn push_tail(o: &ObjectOut, pairs: &mut Vec<(String, String)>)
    ensures
        pairs_view(final(pairs)@) == with_tail(pairs_view(old(pairs)@), *o),
{
    push_pair(pairs, given_not(&o.auto_size, "Fixed"), "AutoSize", text_of(&o.auto_size));
    let ticker = o.kind == ObjectKind::Ticker;
    push_pair(pairs, ticker && o.ticker_speed.is_some(), "Speed", text_of(&o.ticker_speed));
    push_pair(
        pairs,
        ticker && given_not(&o.ticker_direction, "Left"),
        "Direction",
        text_of(&o.ticker_direction),
    );
    push_pair(pairs, ticker && given_not(&o.ticker_kind, "Replace"), "Type", text_of(&o.ticker_kind));
    push_pair(pairs, o.stroke_thickness.is_some(), "StrokeThickness", text_of(&o.stroke_thickness));
    let square = match &o.rect_style {
        Some(s) => eq_ignore_ascii_case(s.as_str(), "Square"),
        None => false,
    };
    push_pair(pairs, square, "Style", text_of(&o.rect_style));
    push_pair(pairs, o.radius.is_some(), "Radius", text_of(&o.radius));
}

fn join_pairs(pairs: &Vec<(String, String)>) -> (res: String)
    ensures
        res@ == pairs_text(pairs_view(pairs@)),
{
    let ghost ps = pairs_view(pairs@);
    let n = pairs.len();
    let mut out = String::new();
    let mut i: usize = 0;
    proof {
        reveal_strlit("");
        assert(ps.take(0) =~= Seq::<Pair>::empty());
    }
    while i < n
        invariant
            ps == pairs_view(pairs@),
            n == ps.len(),
            i <= n,
            out@ == pairs_text(ps.take(i as int)),
        decreases n - i,
    {
        if i > 0 {
            out.append(" ");
        }
        out.append(pairs[i].0.as_str());
        out.append("=\"");
        out.append(esc_attr(pairs[i].1.as_str()).as_str());
        out.append("\"");
        proof {
            assert(ps.take(i + 1).drop_last() =~= ps.take(i as int));
            assert(ps.take(i + 1).last() == ps[i as int]);
            if i == 0 {
                assert(ps.take(0).len() == 0);
            }
            assert(out@ =~= pairs_text(ps.take(i + 1)));
        }
        i = i + 1;
    }
    proof {
        assert(ps.take(n as int) =~= ps);
    }
    out
}

fn push_child(out: &mut String, c: bool, p: &String, tag: &str, part: &str, inner: &str)
    ensures
        final(out)@ == old(out)@ + child_if(c, child_text(p@, tag@, part@, inner@)),
{
    let ghost before = out@;
    if c {
        out.append(p.as_str());
        out.append("  <");
        out.append(tag);
        out.append(".");
        out.append(part);
        out.append(">");
        out.append(inner);
        out.append("</");
        out.append(tag);
        out.append(".");
        out.append(part);
        out.append(">\n");
    }
    proof {
        assert(out@ =~= before + child_if(c, child_text(p@, tag@, part@, inner@)));
    }
}

fn attr_piece(c: bool, key: &str, value: &str) -> (res: String)
    ensures
        res@ == opt_attr_text(c, key@, value@),
{
    proof {
        reveal_strlit("");
    }
    if c {
        owned(" ").concat(key).concat("=\"").concat(esc_attr(value).as_str()).concat("\"")
    } else {
        String::new()
    }
}

fn bitmap_text(o: &ObjectOut) -> (res: String)
    ensures
        res@ == bitmap_inner(*o),
{
    proof {
        reveal_strlit("");
    }
    let mut b = owned("<Bitmap Source=\"").concat(esc_attr(backslash(text_of(&o.image_source).as_str()).as_str()).as_str()).concat("\"");
    if let Some(position) = &o.bitmap_position {
        b = b.concat(" Position=\"").concat(position.as_str()).concat("\"");
    }
    b.concat(" />")
}

fn template_text(o: &ObjectOut) -> (res: String)
    ensures
        res@ == template_inner(*o),
{
    match &o.ticker_template {
        Some(n) => serialize_unknown(n),
        None => owned("<TextBlock Text=\"").concat(esc_attr(encode_text_attr(text_of(&o.text).as_str()).as_str()).as_str()).concat("\" />"),
    }
}

fn crop_text(c: &CropEffect) -> (res: String)
    ensures
        res@ == crop_inner(*c),
{
    let keep_range = match &c.range {
        Some(r) => !str_eq(r.as_str(), "0,0,1,1"),
        None => false,
    };
    owned("<Crop").concat(attr_piece(keep_range, "Range", text_of(&c.range).as_str()).as_str()).concat(
        attr_piece(c.feather.is_some(), "Feather", text_of(&c.feather).as_str()).as_str(),
    ).concat(" />")
}

fn bounding_text(b: &Bounding) -> (res: String)
    ensures
        res@ == bounding_inner(*b),
{
    let has_object = !b.object.as_str().is_empty();
    let has_padding = !str_eq(b.padding.as_str(), "0,0,0,0") && !b.padding.as_str().is_empty();
    owned("<Bounding").concat(attr_piece(has_object, "Object", b.object.as_str()).as_str()).concat(
        attr_piece(has_padding, "Padding", b.padding.as_str()).as_str(),
    ).concat(" />")
}

fn children_text(o: &ObjectOut, indent: usize) -> (res: String)
    ensures
        res@ == object_children(*o, indent as nat),
{
    let p = make_pad(indent);
    let t = o.tag.as_str();
    let mut out = String::new();
    let ghost s0 = out@;
    proof {
        reveal_strlit("");
    }
    let rot = owned("<Transform Rotate=\"").concat(text_of(&o.rotate_xyz).as_str()).concat("\"/>");
    push_child(&mut out, o.rotate_xyz.is_some(), &p, t, "Transform", rot.as_str());
    push_child(&mut out, o.fill_xml.is_some(), &p, t, "Fill", text_of(&o.fill_xml).as_str());
    push_child(&mut out, o.stroke_xml.is_some(), &p, t, "Stroke", text_of(&o.stroke_xml).as_str());
    let dash = owned("<StrokeStyle DashStyle=\"").concat(esc_attr(text_of(&o.dash_style).as_str()).as_str()).concat("\"/>");
    push_child(&mut out, given_not(&o.dash_style, "Solid"), &p, t, "StrokeStyle", dash.as_str());
    let ghost s4 = out@;
    let image = o.kind == ObjectKind::Image && o.image_source.is_some();
    let bitmap = bitmap_text(o);
    push_child(&mut out, image, &p, t, "Bitmap", bitmap.as_str());
    let template = template_text(o);
    push_child(&mut out, o.kind == ObjectKind::Ticker, &p, t, "Template", template.as_str());
    let ghost s6 = out@;
    match &o.crop {
        Some(c) => {
            let inner = crop_text(c);
            push_child(&mut out, true, &p, t, "Crop", inner.as_str());
        },
        None => {},
    }
    let ghost s7 = out@;
    match &o.bounding {
        Some(b) => {
            let inner = bounding_text(b);
            push_child(&mut out, !crate::write::bounding_is_default(b), &p, t, "Bounding", inner.as_str());
        },
        None => {},
    }
    let ghost s8 = out@;
    let mask = owned("<Mask Object=\"").concat(esc_attr(text_of(&o.mask).as_str()).as_str()).concat("\"/>");
    push_child(&mut out, o.mask.is_some(), &p, t, "Mask", mask.as_str());
    proof {
        assert(s7 =~= s6 + match o.crop {
            Some(c) => child(indent as nat, o.tag@, "Crop"@, crop_inner(c)),
            None => Seq::empty(),
        });
        assert(s8 =~= s7 + match o.bounding {
            Some(b) => child_if(!is_default_bounding(b), child(indent as nat, o.tag@, "Bounding"@, bounding_inner(b))),
            None => Seq::empty(),
        });
        assert(out@ =~= object_children(*o, indent as nat));
    }
    out
}

/// An object element as GT XML (see `object_xml`).
pub fn serialize_object(o: &ObjectOut, indent: usize) -> (res: String)
    ensures
        res@ == object_xml(*o, indent as nat),
{
    let mut pairs: Vec<(String, String)> = Vec::new();
    proof {
        assert(pairs_view(pairs@) =~= Seq::<Pair>::empty());
    }
    push_head(o, &mut pairs);
    push_style(o, &mut pairs);
    push_tail(o, &mut pairs);
    let attr_xml = join_pairs(&pairs);
    let children = children_text(o, indent);
    let p = make_pad(indent);
    let head = owned(p.as_str()).concat("<").concat(o.tag.as_str()).concat(" ").concat(attr_xml.as_str());
    if children.as_str().is_empty() {
        head.concat(" />\n")
    } else {
        head.concat(">\n").concat(children.as_str()).concat(p.as_str()).concat("</").concat(o.tag.as_str()).concat(">\n")
    }
}

} // verus!

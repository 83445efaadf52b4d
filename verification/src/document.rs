//! Reading the structure of a title document from its event stream: the
//! root composition, its layers with their nested layers and objects, its
//! storyboards and kept elements, and the parts of each object in the order
//! they appear. Numbers stay the text they were written in.
//!
//! As in `elements`, each reader starts just after a start tag and returns
//! the position after the end tag that closes it, and what it reads is
//! stated as a function over the event sequence.
use vstd::prelude::*;

use crate::brushes::{brush_view, fill_of, read_fill, BrushRead, BrushSpec};
use crate::elements::{
    attr_get, attributes, bounding_from_attrs, bounding_of, either, eof_error, flag, flag_attr,
    flip_axes, flips_of, opt_either,
    is_object_tag, leaf, leftover, leftover_attrs, object_tag, opt_attr, lemma_nodes_view, node_view, nodes_view, parse_unknown,
    parse_storyboard, read_board, read_node, skip_from, skip_to_end, stop_of, storyboard_fits,
    tag_attrs, xml_error, AnimItem, NodeV, Stop,
};
use crate::error::Error;
use crate::color::{parse_color, Color};
use crate::model::{Bounding, CropEffect, Storyboard, UnknownNode};
use crate::strmap::StrMap;
use crate::text::{owned, str_eq};
use crate::xml::{read_events, xml_events, XmlEvent};

verus! {

/// A kept element whose start tag came just before `pos`: a leaf for a
/// self-closing tag, else read whole (see `read_node`).
pub open spec fn element(
    ev: Seq<XmlEvent>,
    pos: int,
    name: Seq<char>,
    m: Map<Seq<char>, String>,
    empty: bool,
) -> Result<(NodeV, int), Stop> {
    if empty {
        Ok((leaf(name, m), pos))
    } else {
        read_node(ev, pos, name, m)
    }
}

/// A kept element from its start tag's name and attribute text.
pub open spec fn kept(ev: Seq<XmlEvent>, pos: int, name: Seq<char>, raw: Seq<char>, empty: bool) -> Result<
    (NodeV, int),
    Stop,
> {
    match tag_attrs(raw) {
        None => Err(Stop::BadAttribute),
        Some(m) => element(ev, pos, name, m, empty),
    }
}

fn keep_element(ev: &Vec<XmlEvent>, pos: usize, name: &String, raw: &String, empty: bool) -> (res:
    Result<(UnknownNode, usize), Error>)
    ensures
        match kept(ev@, pos as int, name@, raw@, empty) {
            Ok((v, p)) => res matches Ok((n, q)) && q == p && node_view(n) == v,
            Err(st) => res matches Err(e) && stop_of(e) == Some(st),
        },
{
    let m = match attributes(raw.as_str()) {
        Ok(m) => m,
        Err(e) => {
            return Err(e);
        },
    };
    parse_unknown(ev, pos, name.as_str(), m, empty)
}

/// The child elements of an element whose start tag came just before
/// `pos`, each kept whole, up to the end tag named `tag`; `label` names the
/// element when the input ends first.
pub open spec fn child_nodes(
    ev: Seq<XmlEvent>,
    pos: int,
    tag: Seq<char>,
    label: Seq<char>,
    kids: Seq<NodeV>,
) -> Result<(Seq<NodeV>, int), Stop>
    decreases ev.len() - pos,
{
    if pos < 0 || pos >= ev.len() {
        Err(Stop::EndOfInput(label))
    } else {
        match ev[pos] {
            XmlEvent::Open { name, attrs, empty } => match kept(ev, pos + 1, name@, attrs@, empty) {
                Ok((c, p)) => if pos < p <= ev.len() {
                    child_nodes(ev, p, tag, label, kids.push(c))
                } else {
                    Err(Stop::EndOfInput(label))
                },
                Err(e) => Err(e),
            },
            XmlEvent::End { name } => if name@ == tag {
                Ok((kids, pos + 1))
            } else {
                child_nodes(ev, pos + 1, tag, label, kids)
            },
            XmlEvent::Eof => Err(Stop::EndOfInput(label)),
            XmlEvent::Failed(m) => Err(Stop::Malformed(m@)),
            _ => child_nodes(ev, pos + 1, tag, label, kids),
        }
    }
}

/// The child elements of an element (see `child_nodes`), and the position
/// after its end tag.
pub fn read_children(ev: &Vec<XmlEvent>, pos: usize, tag: &str, label: &str) -> (res: Result<
    (Vec<UnknownNode>, usize),
    Error,
>)
    ensures
        match child_nodes(ev@, pos as int, tag@, label@, Seq::empty()) {
            Ok((k, p)) => res matches Ok((v, q)) && q == p && nodes_view(v@) == k,
            Err(st) => res matches Err(e) && stop_of(e) == Some(st),
        },
{
    let ghost start = child_nodes(ev@, pos as int, tag@, label@, Seq::empty());
    let mut kids: Vec<UnknownNode> = Vec::new();
    let mut j: usize = pos;
    proof {
        assert(nodes_view(kids@) =~= Seq::<NodeV>::empty());
    }
    loop
        invariant
            start == child_nodes(ev@, pos as int, tag@, label@, Seq::empty()),
            child_nodes(ev@, j as int, tag@, label@, nodes_view(kids@)) == start,
        decreases ev@.len() - j,
    {
        if j >= ev.len() {
            return Err(eof_error(label));
        }
        match &ev[j] {
            XmlEvent::Open { name, attrs, empty } => {
                let (child, p) = match keep_element(ev, j + 1, name, attrs, *empty) {
                    Ok(r) => r,
                    Err(e) => {
                        return Err(e);
                    },
                };
                if !(j < p && p <= ev.len()) {
                    return Err(eof_error(label));
                }
                let ghost before = kids@;
                kids.push(child);
                proof {
                    assert(kids@.drop_last() =~= before);
                }
                j = p;
            },
            XmlEvent::End { name } => {
                if str_eq(name.as_str(), tag) {
                    return Ok((kids, j + 1));
                }
                j = j + 1;
            },
            XmlEvent::Eof => {
                return Err(eof_error(label));
            },
            XmlEvent::Failed(m) => {
                return Err(xml_error(m));
            },
            _ => {
                j = j + 1;
            },
        }
    }
}

/// The attribute maps of a list of them, in order.
pub open spec fn maps_view(v: Seq<StrMap<String>>) -> Seq<Map<Seq<char>, String>> {
    v.map_values(|m: StrMap<String>| m@)
}

/// The attributes of the child elements named `inner` of an element whose
/// start tag came just before `pos`, in order, after `maps`; other content
/// is passed over, up to the end tag named `tag`.
pub open spec fn inner_maps(
    ev: Seq<XmlEvent>,
    pos: int,
    tag: Seq<char>,
    inner: Seq<char>,
    label: Seq<char>,
    maps: Seq<Map<Seq<char>, String>>,
) -> Result<(Seq<Map<Seq<char>, String>>, int), Stop>
    decreases ev.len() - pos,
{
    if pos < 0 || pos >= ev.len() {
        Err(Stop::EndOfInput(label))
    } else {
        match ev[pos] {
            XmlEvent::Open { name, attrs, empty } => {
                let got = if name@ == inner {
                    match tag_attrs(attrs@) {
                        Some(m) => Some(maps.push(m)),
                        None => None,
                    }
                } else {
                    Some(maps)
                };
                match got {
                    None => Err(Stop::BadAttribute),
                    Some(ms) => if empty {
                        inner_maps(ev, pos + 1, tag, inner, label, ms)
                    } else {
                        match skip_from(ev, pos + 1, 1) {
                            Ok(p) => if pos < p <= ev.len() {
                                inner_maps(ev, p, tag, inner, label, ms)
                            } else {
                                Err(Stop::EndOfInput(label))
                            },
                            Err(e) => Err(e),
                        }
                    },
                }
            },
            XmlEvent::End { name } => if name@ == tag {
                Ok((maps, pos + 1))
            } else {
                inner_maps(ev, pos + 1, tag, inner, label, maps)
            },
            XmlEvent::Eof => Err(Stop::EndOfInput(label)),
            XmlEvent::Failed(m) => Err(Stop::Malformed(m@)),
            _ => inner_maps(ev, pos + 1, tag, inner, label, maps),
        }
    }
}

/// The attributes of the children named `inner` (see `inner_maps`), added
/// to `maps`, and the position after the end tag.
pub fn read_inner_maps(
    ev: &Vec<XmlEvent>,
    pos: usize,
    tag: &str,
    inner: &str,
    label: &str,
    init: Vec<StrMap<String>>,
) -> (res: Result<(Vec<StrMap<String>>, usize), Error>)
    ensures
        match inner_maps(ev@, pos as int, tag@, inner@, label@, maps_view(init@)) {
            Ok((ms, p)) => res matches Ok((v, q)) && q == p && maps_view(v@) == ms,
            Err(st) => res matches Err(e) && stop_of(e) == Some(st),
        },
{
    let ghost start = inner_maps(ev@, pos as int, tag@, inner@, label@, maps_view(init@));
    let mut maps = init;
    let mut j: usize = pos;
    loop
        invariant
            start == inner_maps(ev@, pos as int, tag@, inner@, label@, maps_view(init@)),
            inner_maps(ev@, j as int, tag@, inner@, label@, maps_view(maps@)) == start,
        decreases ev@.len() - j,
    {
        if j >= ev.len() {
            return Err(eof_error(label));
        }
        match &ev[j] {
            XmlEvent::Open { name, attrs, empty } => {
                if str_eq(name.as_str(), inner) {
                    let m = match attributes(attrs.as_str()) {
                        Ok(m) => m,
                        Err(e) => {
                            return Err(e);
                        },
                    };
                    let ghost before = maps@;
                    maps.push(m);
                    proof {
                        assert(maps_view(maps@) =~= maps_view(before).push(m@));
                    }
                }
                if *empty {
                    j = j + 1;
                } else {
                    j = match skip_to_end(ev, j + 1) {
                        Ok(p) => p,
                        Err(e) => {
                            return Err(e);
                        },
                    };
                }
            },
            XmlEvent::End { name } => {
                if str_eq(name.as_str(), tag) {
                    return Ok((maps, j + 1));
                }
                j = j + 1;
            },
            XmlEvent::Eof => {
                return Err(eof_error(label));
            },
            XmlEvent::Failed(m) => {
                return Err(xml_error(m));
            },
            _ => {
                j = j + 1;
            },
        }
    }
}


/// An element's attributes as a map from name to value.
pub type AttrMap = Map<Seq<char>, String>;

/// What a fill or stroke element describes.
#[derive(Debug)]
pub enum FillRead {
    /// Nothing: a self-closing element, or one without child elements.
    Transparent,
    /// The brush of the last child that describes one.
    Brush(BrushRead),
    /// Child elements of which none describes a brush, kept under the
    /// element's tag.
    Unsupported(UnknownNode),
}

/// A fill as a value.
pub enum FillV {
    Transparent,
    Brush(BrushSpec),
    Unsupported(NodeV),
}

pub open spec fn fill_view(f: FillRead) -> FillV {
    match f {
        FillRead::Transparent => FillV::Transparent,
        FillRead::Brush(b) => FillV::Brush(brush_view(b)),
        FillRead::Unsupported(n) => FillV::Unsupported(node_view(n)),
    }
}

/// The brush of the last element that describes one (see `fill_of`).
pub open spec fn last_brush(kids: Seq<NodeV>) -> Option<BrushSpec>
    decreases kids.len(),
{
    if kids.len() == 0 {
        None
    } else {
        match fill_of(kids.last()) {
            Some(b) => Some(b),
            None => last_brush(kids.drop_last()),
        }
    }
}

/// What a fill element with the given children describes: the brush of the
/// last child that describes one; else nothing when it has no children;
/// else its children, kept under its tag with no attributes.
pub open spec fn fill_from(tag: Seq<char>, kids: Seq<NodeV>) -> FillV {
    match last_brush(kids) {
        Some(b) => FillV::Brush(b),
        None => if kids.len() == 0 {
            FillV::Transparent
        } else {
            FillV::Unsupported(NodeV { tag, attributes: Map::empty(), children: kids, text: None })
        },
    }
}

/// What a fill element tagged `tag` with the children `kids` describes (see
/// `fill_from`).
pub fn fill_from_children(tag: &str, kids: Vec<UnknownNode>) -> (res: FillRead)
    ensures
        fill_view(res) == fill_from(tag@, nodes_view(kids@)),
{
    let ghost kv = nodes_view(kids@);
    proof {
        lemma_nodes_view(kids@);
        assert(kv.take(kids@.len() as int) =~= kv);
    }
    let mut i: usize = kids.len();
    while i > 0
        invariant
            i <= kids@.len(),
            kv == nodes_view(kids@),
            kv.len() == kids@.len(),
            forall|j: int| 0 <= j < kv.len() ==> #[trigger] kv[j] == node_view(kids@[j]),
            last_brush(kv) == last_brush(kv.take(i as int)),
        decreases i,
    {
        proof {
            assert(kv.take(i as int).drop_last() =~= kv.take(i - 1));
            assert(kv.take(i as int).last() == kv[i - 1]);
        }
        match read_fill(&kids[i - 1]) {
            Some(b) => {
                return FillRead::Brush(b);
            },
            None => {},
        }
        i = i - 1;
    }
    if kids.len() == 0 {
        FillRead::Transparent
    } else {
        let node = UnknownNode { tag: owned(tag), attributes: StrMap::new(), children: kids, text: None };
        FillRead::Unsupported(node)
    }
}

/// One part of an object element: a child element, read by what its tag
/// names.
#[derive(Debug)]
pub enum ObjectPart {
    Fill(FillRead),
    Stroke(FillRead),
    /// The sizing asked for by the element or its first `Bounding` child
    /// that names an object.
    Bounding(Option<Bounding>),
    /// The attributes to read an image source and position from, in order.
    Bitmap(Vec<StrMap<String>>),
    /// The effect elements, each kept whole.
    Effects(Vec<UnknownNode>),
    /// The attributes of the element and of its inner elements of the same
    /// name, in order; likewise for the mask, transform and stroke style.
    Crop(Vec<StrMap<String>>),
    Mask(Vec<StrMap<String>>),
    Template(Vec<TemplateItem>),
    Transform(Vec<StrMap<String>>),
    StrokeStyle(Vec<StrMap<String>>),
    /// Any other element, kept whole.
    Unknown(UnknownNode),
}

/// An element of a ticker's template.
#[derive(Debug)]
pub enum TemplateItem {
    /// An object, and whether its tag was self-closing.
    Object(ObjectRead, bool),
    /// Any other element with content, kept whole.
    Node(UnknownNode),
}

/// An object element: its tag, its attributes and its parts in order.
#[derive(Debug)]
pub struct ObjectRead {
    pub tag: String,
    pub attrs: StrMap<String>,
    pub parts: Vec<ObjectPart>,
}

/// An object part as a value.
pub enum PartV {
    Fill(FillV),
    Stroke(FillV),
    Bounding(Option<(Seq<char>, Seq<char>)>),
    Bitmap(Seq<AttrMap>),
    Effects(Seq<NodeV>),
    Crop(Seq<AttrMap>),
    Mask(Seq<AttrMap>),
    Template(Seq<ItemV>),
    Transform(Seq<AttrMap>),
    StrokeStyle(Seq<AttrMap>),
    Unknown(NodeV),
}

/// A template element as a value.
pub enum ItemV {
    Object(ObjectV, bool),
    Node(NodeV),
}

/// An object as a value.
pub struct ObjectV {
    pub tag: Seq<char>,
    pub attrs: AttrMap,
    pub parts: Seq<PartV>,
}

pub open spec fn bounding_view(b: Option<Bounding>) -> Option<(Seq<char>, Seq<char>)> {
    match b {
        Some(b) => Some((b.object@, b.padding@)),
        None => None,
    }
}

pub open spec fn object_view(o: ObjectRead) -> ObjectV
    decreases o,
{
    ObjectV { tag: o.tag@, attrs: o.attrs@, parts: parts_view(o.parts@) }
}

pub open spec fn parts_view(s: Seq<ObjectPart>) -> Seq<PartV>
    decreases s,
{
    if s.len() == 0 {
        Seq::empty()
    } else {
        parts_view(s.drop_last()).push(part_view(s.last()))
    }
}

pub open spec fn part_view(p: ObjectPart) -> PartV
    decreases p,
{
    match p {
        ObjectPart::Fill(f) => PartV::Fill(fill_view(f)),
        ObjectPart::Stroke(f) => PartV::Stroke(fill_view(f)),
        ObjectPart::Bounding(b) => PartV::Bounding(bounding_view(b)),
        ObjectPart::Bitmap(v) => PartV::Bitmap(maps_view(v@)),
        ObjectPart::Effects(v) => PartV::Effects(nodes_view(v@)),
        ObjectPart::Crop(v) => PartV::Crop(maps_view(v@)),
        ObjectPart::Mask(v) => PartV::Mask(maps_view(v@)),
        ObjectPart::Template(v) => PartV::Template(items_view(v@)),
        ObjectPart::Transform(v) => PartV::Transform(maps_view(v@)),
        ObjectPart::StrokeStyle(v) => PartV::StrokeStyle(maps_view(v@)),
        ObjectPart::Unknown(n) => PartV::Unknown(node_view(n)),
    }
}

pub open spec fn items_view(s: Seq<TemplateItem>) -> Seq<ItemV>
    decreases s,
{
    if s.len() == 0 {
        Seq::empty()
    } else {
        items_view(s.drop_last()).push(item_view(s.last()))
    }
}

pub open spec fn item_view(i: TemplateItem) -> ItemV
    decreases i,
{
    match i {
        TemplateItem::Object(o, e) => ItemV::Object(object_view(o), e),
        TemplateItem::Node(n) => ItemV::Node(node_view(n)),
    }
}


/// Whether a child's tag names the part `suffix` of an object tagged
/// `otag`: `otag.suffix`, or `suffix` alone.
pub open spec fn names_part(otag: Seq<char>, name: Seq<char>, suffix: Seq<char>) -> bool {
    name == otag + "."@ + suffix || name == suffix
}

/// The sizing asked for by the first of `maps` that names an object.
pub open spec fn first_bounding(maps: Seq<AttrMap>) -> Option<(Seq<char>, Seq<char>)>
    decreases maps.len(),
{
    if maps.len() == 0 {
        None
    } else {
        match bounding_of(maps[0]) {
            Some(b) => Some(b),
            None => first_bounding(maps.drop_first()),
        }
    }
}

/// The attributes of an element whose start tag came just before `pos`,
/// then those of its children named `inner` (see `inner_maps`).
pub open spec fn own_and_inner(
    ev: Seq<XmlEvent>,
    pos: int,
    name: Seq<char>,
    raw: Seq<char>,
    empty: bool,
    inner: Seq<char>,
) -> Result<(Seq<AttrMap>, int), Stop> {
    match tag_attrs(raw) {
        None => Err(Stop::BadAttribute),
        Some(m) => if empty {
            Ok((seq![m], pos))
        } else {
            inner_maps(ev, pos, name, inner, inner, seq![m])
        },
    }
}

/// The attributes a bitmap part reads: a `Bitmap` element's own, its
/// content passed over; else those of the `Bitmap` children.
pub open spec fn bitmap_maps(ev: Seq<XmlEvent>, pos: int, name: Seq<char>, raw: Seq<char>, empty: bool) -> Result<
    (Seq<AttrMap>, int),
    Stop,
> {
    if name == "Bitmap"@ {
        match tag_attrs(raw) {
            None => Err(Stop::BadAttribute),
            Some(m) => if empty {
                Ok((seq![m], pos))
            } else {
                match skip_from(ev, pos, 1) {
                    Ok(p) => Ok((seq![m], p)),
                    Err(e) => Err(e),
                }
            },
        }
    } else if empty {
        Ok((Seq::empty(), pos))
    } else {
        inner_maps(ev, pos, name, "Bitmap"@, "Bitmap"@, Seq::empty())
    }
}

/// A fill or stroke element: nothing when self-closing, else what its
/// children describe (see `fill_from`).
pub open spec fn fill_part(ev: Seq<XmlEvent>, pos: int, name: Seq<char>, empty: bool) -> Result<(FillV, int), Stop> {
    if empty {
        Ok((FillV::Transparent, pos))
    } else {
        match child_nodes(ev, pos, name, "Fill"@, Seq::empty()) {
            Ok((k, p)) => Ok((fill_from(name, k), p)),
            Err(e) => Err(e),
        }
    }
}

/// The effect elements of an effects element, each kept whole.
pub open spec fn effects_part(ev: Seq<XmlEvent>, pos: int, name: Seq<char>, empty: bool) -> Result<
    (Seq<NodeV>, int),
    Stop,
> {
    if empty {
        Ok((Seq::empty(), pos))
    } else {
        child_nodes(ev, pos, name, "Effects"@, Seq::empty())
    }
}

/// The attribute maps read for a part, as that part.
pub open spec fn maps_part(r: Result<(Seq<AttrMap>, int), Stop>, part: spec_fn(Seq<AttrMap>) -> PartV) -> Result<
    (PartV, int),
    Stop,
> {
    match r {
        Ok((ms, p)) => Ok((part(ms), p)),
        Err(e) => Err(e),
    }
}

/// A child of an object tagged `otag`, whose start tag (named `name`, with
/// the attribute text `raw`) came just before `pos`: the part its tag names,
/// else a kept element.
pub open spec fn object_part(
    ev: Seq<XmlEvent>,
    pos: int,
    otag: Seq<char>,
    name: Seq<char>,
    raw: Seq<char>,
    empty: bool,
) -> Result<(PartV, int), Stop>
    decreases ev.len() - pos, 3int,
{
    if names_part(otag, name, "Fill"@) {
        match fill_part(ev, pos, name, empty) {
            Ok((f, p)) => Ok((PartV::Fill(f), p)),
            Err(e) => Err(e),
        }
    } else if names_part(otag, name, "Stroke"@) {
        match fill_part(ev, pos, name, empty) {
            Ok((f, p)) => Ok((PartV::Stroke(f), p)),
            Err(e) => Err(e),
        }
    } else if names_part(otag, name, "Bounding"@) {
        match own_and_inner(ev, pos, name, raw, empty, "Bounding"@) {
            Ok((ms, p)) => Ok((PartV::Bounding(first_bounding(ms)), p)),
            Err(e) => Err(e),
        }
    } else if names_part(otag, name, "Bitmap"@) {
        maps_part(bitmap_maps(ev, pos, name, raw, empty), |ms| PartV::Bitmap(ms))
    } else if names_part(otag, name, "Effects"@) {
        match effects_part(ev, pos, name, empty) {
            Ok((k, p)) => Ok((PartV::Effects(k), p)),
            Err(e) => Err(e),
        }
    } else if names_part(otag, name, "Crop"@) {
        maps_part(own_and_inner(ev, pos, name, raw, empty, "Crop"@), |ms| PartV::Crop(ms))
    } else if names_part(otag, name, "Mask"@) {
        maps_part(own_and_inner(ev, pos, name, raw, empty, "Mask"@), |ms| PartV::Mask(ms))
    } else if names_part(otag, name, "Template"@) {
        if empty {
            Ok((PartV::Template(Seq::empty()), pos))
        } else {
            match template_content(ev, pos, name, Seq::empty()) {
                Ok((items, p)) => Ok((PartV::Template(items), p)),
                Err(e) => Err(e),
            }
        }
    } else if names_part(otag, name, "Transform"@) {
        maps_part(own_and_inner(ev, pos, name, raw, empty, "Transform"@), |ms| PartV::Transform(ms))
    } else if names_part(otag, name, "StrokeStyle"@) {
        maps_part(
            own_and_inner(ev, pos, name, raw, empty, "StrokeStyle"@),
            |ms| PartV::StrokeStyle(ms),
        )
    } else {
        match kept(ev, pos, name, raw, empty) {
            Ok((n, p)) => Ok((PartV::Unknown(n), p)),
            Err(e) => Err(e),
        }
    }
}

/// The content of a ticker's template element from `pos` on, up to the end
/// tag named `tag`: objects are read whole, other elements with content are
/// kept, and self-closing ones that are no object are passed over.
pub open spec fn template_content(ev: Seq<XmlEvent>, pos: int, tag: Seq<char>, items: Seq<ItemV>) -> Result<
    (Seq<ItemV>, int),
    Stop,
>
    decreases ev.len() - pos, 0int,
{
    if pos < 0 || pos >= ev.len() {
        Err(Stop::EndOfInput("Template"@))
    } else {
        match ev[pos] {
            XmlEvent::Open { name, attrs, empty } => if object_tag(name@) {
                match tag_attrs(attrs@) {
                    None => Err(Stop::BadAttribute),
                    Some(m) => match read_object(ev, pos + 1, name@, m, empty) {
                        Ok((o, p)) => if pos < p <= ev.len() {
                            template_content(ev, p, tag, items.push(ItemV::Object(o, empty)))
                        } else {
                            Err(Stop::EndOfInput("Template"@))
                        },
                        Err(e) => Err(e),
                    },
                }
            } else if empty {
                template_content(ev, pos + 1, tag, items)
            } else {
                match kept(ev, pos + 1, name@, attrs@, false) {
                    Ok((n, p)) => if pos < p <= ev.len() {
                        template_content(ev, p, tag, items.push(ItemV::Node(n)))
                    } else {
                        Err(Stop::EndOfInput("Template"@))
                    },
                    Err(e) => Err(e),
                }
            },
            XmlEvent::End { name } => if name@ == tag {
                Ok((items, pos + 1))
            } else {
                template_content(ev, pos + 1, tag, items)
            },
            XmlEvent::Eof => Err(Stop::EndOfInput("Template"@)),
            XmlEvent::Failed(m) => Err(Stop::Malformed(m@)),
            _ => template_content(ev, pos + 1, tag, items),
        }
    }
}

/// An object element whose start tag (named `name`, with the attributes
/// `m`) came just before `pos`: no parts when self-closing, else its parts
/// up to its end tag.
pub open spec fn read_object(ev: Seq<XmlEvent>, pos: int, name: Seq<char>, m: AttrMap, empty: bool) -> Result<
    (ObjectV, int),
    Stop,
>
    decreases ev.len() - pos, 2int,
{
    if empty {
        Ok((ObjectV { tag: name, attrs: m, parts: Seq::empty() }, pos))
    } else {
        match object_content(ev, pos, name, Seq::empty()) {
            Ok((parts, p)) => Ok((ObjectV { tag: name, attrs: m, parts }, p)),
            Err(e) => Err(e),
        }
    }
}

/// The parts of an object tagged `otag` from `pos` on, after `parts`, up to
/// the end tag with its name.
pub open spec fn object_content(ev: Seq<XmlEvent>, pos: int, otag: Seq<char>, parts: Seq<PartV>) -> Result<
    (Seq<PartV>, int),
    Stop,
>
    decreases ev.len() - pos, 1int,
{
    if pos < 0 || pos >= ev.len() {
        Err(Stop::EndOfInput("object"@))
    } else {
        match ev[pos] {
            XmlEvent::Open { name, attrs, empty } => match object_part(ev, pos + 1, otag, name@, attrs@, empty) {
                Ok((part, p)) => if pos < p <= ev.len() {
                    object_content(ev, p, otag, parts.push(part))
                } else {
                    Err(Stop::EndOfInput("object"@))
                },
                Err(e) => Err(e),
            },
            XmlEvent::End { name } => if name@ == otag {
                Ok((parts, pos + 1))
            } else {
                object_content(ev, pos + 1, otag, parts)
            },
            XmlEvent::Eof => Err(Stop::EndOfInput("object"@)),
            XmlEvent::Failed(m) => Err(Stop::Malformed(m@)),
            _ => object_content(ev, pos + 1, otag, parts),
        }
    }
}


fn names_part_at(otag: &str, name: &str, suffix: &str) -> (res: bool)
    ensures
        res == names_part(otag@, name@, suffix@),
{
    let mut full = owned(otag);
    full.append(".");
    full.append(suffix);
    str_eq(name, full.as_str()) || str_eq(name, suffix)
}

fn read_fill_part(ev: &Vec<XmlEvent>, pos: usize, name: &String, empty: bool) -> (res: Result<
    (FillRead, usize),
    Error,
>)
    ensures
        match fill_part(ev@, pos as int, name@, empty) {
            Ok((f, p)) => res matches Ok((r, q)) && q == p && fill_view(r) == f,
            Err(st) => res matches Err(e) && stop_of(e) == Some(st),
        },
{
    if empty {
        return Ok((FillRead::Transparent, pos));
    }
    match read_children(ev, pos, name.as_str(), "Fill") {
        Ok((kids, p)) => Ok((fill_from_children(name.as_str(), kids), p)),
        Err(e) => Err(e),
    }
}

fn read_effects_part(ev: &Vec<XmlEvent>, pos: usize, name: &String, empty: bool) -> (res: Result<
    (Vec<UnknownNode>, usize),
    Error,
>)
    ensures
        match effects_part(ev@, pos as int, name@, empty) {
            Ok((k, p)) => res matches Ok((v, q)) && q == p && nodes_view(v@) == k,
            Err(st) => res matches Err(e) && stop_of(e) == Some(st),
        },
{
    if empty {
        let v: Vec<UnknownNode> = Vec::new();
        proof {
            assert(nodes_view(v@) =~= Seq::<NodeV>::empty());
        }
        return Ok((v, pos));
    }
    read_children(ev, pos, name.as_str(), "Effects")
}

fn read_own_and_inner(
    ev: &Vec<XmlEvent>,
    pos: usize,
    name: &String,
    raw: &String,
    empty: bool,
    inner: &str,
) -> (res: Result<(Vec<StrMap<String>>, usize), Error>)
    ensures
        match own_and_inner(ev@, pos as int, name@, raw@, empty, inner@) {
            Ok((ms, p)) => res matches Ok((v, q)) && q == p && maps_view(v@) == ms,
            Err(st) => res matches Err(e) && stop_of(e) == Some(st),
        },
{
    let m = match attributes(raw.as_str()) {
        Ok(m) => m,
        Err(e) => {
            return Err(e);
        },
    };
    let ghost mv = m@;
    let mut v: Vec<StrMap<String>> = Vec::new();
    v.push(m);
    proof {
        assert(maps_view(v@) =~= seq![mv]);
    }
    if empty {
        return Ok((v, pos));
    }
    read_inner_maps(ev, pos, name.as_str(), inner, inner, v)
}

fn read_bitmap_maps(ev: &Vec<XmlEvent>, pos: usize, name: &String, raw: &String, empty: bool) -> (res:
    Result<(Vec<StrMap<String>>, usize), Error>)
    ensures
        match bitmap_maps(ev@, pos as int, name@, raw@, empty) {
            Ok((ms, p)) => res matches Ok((v, q)) && q == p && maps_view(v@) == ms,
            Err(st) => res matches Err(e) && stop_of(e) == Some(st),
        },
{
    let mut v: Vec<StrMap<String>> = Vec::new();
    if str_eq(name.as_str(), "Bitmap") {
        let m = match attributes(raw.as_str()) {
            Ok(m) => m,
            Err(e) => {
                return Err(e);
            },
        };
        let ghost mv = m@;
        v.push(m);
        proof {
            assert(maps_view(v@) =~= seq![mv]);
        }
        if empty {
            return Ok((v, pos));
        }
        return match skip_to_end(ev, pos) {
            Ok(p) => Ok((v, p)),
            Err(e) => Err(e),
        };
    }
    proof {
        assert(maps_view(v@) =~= Seq::<AttrMap>::empty());
    }
    if empty {
        return Ok((v, pos));
    }
    read_inner_maps(ev, pos, name.as_str(), "Bitmap", "Bitmap", v)
}

/// One child of an object element (see `object_part`), and the position
/// after it.
pub fn read_part(
    ev: &Vec<XmlEvent>,
    pos: usize,
    otag: &String,
    name: &String,
    raw: &String,
    empty: bool,
) -> (res: Result<(ObjectPart, usize), Error>)
    ensures
        match object_part(ev@, pos as int, otag@, name@, raw@, empty) {
            Ok((v, p)) => res matches Ok((part, q)) && q == p && part_view(part) == v,
            Err(st) => res matches Err(e) && stop_of(e) == Some(st),
        },
    decreases ev@.len() - pos, 3int,
{
    let o = otag.as_str();
    let n = name.as_str();
    if names_part_at(o, n, "Fill") {
        match read_fill_part(ev, pos, name, empty) {
            Ok((f, p)) => Ok((ObjectPart::Fill(f), p)),
            Err(e) => Err(e),
        }
    } else if names_part_at(o, n, "Stroke") {
        match read_fill_part(ev, pos, name, empty) {
            Ok((f, p)) => Ok((ObjectPart::Stroke(f), p)),
            Err(e) => Err(e),
        }
    } else if names_part_at(o, n, "Bounding") {
        match read_own_and_inner(ev, pos, name, raw, empty, "Bounding") {
            Ok((maps, p)) => Ok((ObjectPart::Bounding(first_bounding_of(&maps)), p)),
            Err(e) => Err(e),
        }
    } else if names_part_at(o, n, "Bitmap") {
        match read_bitmap_maps(ev, pos, name, raw, empty) {
            Ok((maps, p)) => Ok((ObjectPart::Bitmap(maps), p)),
            Err(e) => Err(e),
        }
    } else if names_part_at(o, n, "Effects") {
        match read_effects_part(ev, pos, name, empty) {
            Ok((k, p)) => Ok((ObjectPart::Effects(k), p)),
            Err(e) => Err(e),
        }
    } else if names_part_at(o, n, "Crop") {
        match read_own_and_inner(ev, pos, name, raw, empty, "Crop") {
            Ok((maps, p)) => Ok((ObjectPart::Crop(maps), p)),
            Err(e) => Err(e),
        }
    } else if names_part_at(o, n, "Mask") {
        match read_own_and_inner(ev, pos, name, raw, empty, "Mask") {
            Ok((maps, p)) => Ok((ObjectPart::Mask(maps), p)),
            Err(e) => Err(e),
        }
    } else if names_part_at(o, n, "Template") {
        if empty {
            let v: Vec<TemplateItem> = Vec::new();
            proof {
                assert(items_view(v@) =~= Seq::<ItemV>::empty());
            }
            return Ok((ObjectPart::Template(v), pos));
        }
        match read_template(ev, pos, name) {
            Ok((items, p)) => Ok((ObjectPart::Template(items), p)),
            Err(e) => Err(e),
        }
    } else if names_part_at(o, n, "Transform") {
        match read_own_and_inner(ev, pos, name, raw, empty, "Transform") {
            Ok((maps, p)) => Ok((ObjectPart::Transform(maps), p)),
            Err(e) => Err(e),
        }
    } else if names_part_at(o, n, "StrokeStyle") {
        match read_own_and_inner(ev, pos, name, raw, empty, "StrokeStyle") {
            Ok((maps, p)) => Ok((ObjectPart::StrokeStyle(maps), p)),
            Err(e) => Err(e),
        }
    } else {
        match keep_element(ev, pos, name, raw, empty) {
            Ok((node, p)) => Ok((ObjectPart::Unknown(node), p)),
            Err(e) => Err(e),
        }
    }
}

/// The sizing asked for by the first of `maps` that names an object (see
/// `first_bounding`).
pub fn first_bounding_of(maps: &Vec<StrMap<String>>) -> (res: Option<Bounding>)
    ensures
        bounding_view(res) == first_bounding(maps_view(maps@)),
{
    let ghost mv = maps_view(maps@);
    proof {
        assert(mv.skip(0) =~= mv);
    }
    let mut i: usize = 0;
    while i < maps.len()
        invariant
            mv == maps_view(maps@),
            i <= maps@.len(),
            first_bounding(mv) == first_bounding(mv.skip(i as int)),
        decreases maps@.len() - i,
    {
        proof {
            assert(mv.skip(i as int)[0] == maps@[i as int]@);
            assert(mv.skip(i as int).drop_first() =~= mv.skip(i + 1));
        }
        match bounding_from_attrs(&maps[i]) {
            Some(b) => {
                return Some(b);
            },
            None => {},
        }
        i = i + 1;
    }
    None
}

/// The content of a ticker's template element (see `template_content`),
/// and the position after its end tag.
pub fn read_template(ev: &Vec<XmlEvent>, pos: usize, tag: &String) -> (res: Result<
    (Vec<TemplateItem>, usize),
    Error,
>)
    ensures
        match template_content(ev@, pos as int, tag@, Seq::empty()) {
            Ok((items, p)) => res matches Ok((v, q)) && q == p && items_view(v@) == items,
            Err(st) => res matches Err(e) && stop_of(e) == Some(st),
        },
    decreases ev@.len() - pos, 0int,
{
    let ghost start = template_content(ev@, pos as int, tag@, Seq::empty());
    let mut items: Vec<TemplateItem> = Vec::new();
    let mut j: usize = pos;
    proof {
        assert(items_view(items@) =~= Seq::<ItemV>::empty());
    }
    loop
        invariant
            pos <= j,
            start == template_content(ev@, pos as int, tag@, Seq::empty()),
            template_content(ev@, j as int, tag@, items_view(items@)) == start,
        decreases ev@.len() - j,
    {
        if j >= ev.len() {
            return Err(eof_error("Template"));
        }
        match &ev[j] {
            XmlEvent::Open { name, attrs, empty } => {
                if is_object_tag(name.as_str()) {
                    let m = match attributes(attrs.as_str()) {
                        Ok(m) => m,
                        Err(e) => {
                            return Err(e);
                        },
                    };
                    let (o, p) = match read_object_at(ev, j + 1, name, m, *empty) {
                        Ok(r) => r,
                        Err(e) => {
                            return Err(e);
                        },
                    };
                    if !(j < p && p <= ev.len()) {
                        return Err(eof_error("Template"));
                    }
                    let ghost before = items@;
                    let ghost ov = object_view(o);
                    items.push(TemplateItem::Object(o, *empty));
                    proof {
                        assert(items@.drop_last() =~= before);
                        assert(items@.len() > 0);
                        assert(items_view(items@) == items_view(items@.drop_last()).push(item_view(items@.last())));
                        assert(item_view(items@.last()) == ItemV::Object(ov, *empty));
                        assert(items_view(items@) == items_view(before).push(ItemV::Object(ov, *empty)));
                    }
                    j = p;
                } else if *empty {
                    j = j + 1;
                } else {
                    let (node, p) = match keep_element(ev, j + 1, name, attrs, false) {
                        Ok(r) => r,
                        Err(e) => {
                            return Err(e);
                        },
                    };
                    if !(j < p && p <= ev.len()) {
                        return Err(eof_error("Template"));
                    }
                    let ghost before = items@;
                    let ghost nv = node_view(node);
                    items.push(TemplateItem::Node(node));
                    proof {
                        assert(items@.drop_last() =~= before);
                        assert(items_view(items@) == items_view(before).push(ItemV::Node(nv)));
                    }
                    j = p;
                }
            },
            XmlEvent::End { name } => {
                if str_eq(name.as_str(), tag.as_str()) {
                    return Ok((items, j + 1));
                }
                j = j + 1;
            },
            XmlEvent::Eof => {
                return Err(eof_error("Template"));
            },
            XmlEvent::Failed(m) => {
                return Err(xml_error(m));
            },
            _ => {
                j = j + 1;
            },
        }
    }
}

/// An object element (see `read_object`), and the position after it.
pub fn read_object_at(ev: &Vec<XmlEvent>, pos: usize, name: &String, attrs: StrMap<String>, empty: bool) -> (res:
    Result<(ObjectRead, usize), Error>)
    ensures
        match read_object(ev@, pos as int, name@, attrs@, empty) {
            Ok((v, p)) => res matches Ok((o, q)) && q == p && object_view(o) == v,
            Err(st) => res matches Err(e) && stop_of(e) == Some(st),
        },
    decreases ev@.len() - pos, 2int,
{
    if empty {
        let parts: Vec<ObjectPart> = Vec::new();
        proof {
            assert(parts_view(parts@) =~= Seq::<PartV>::empty());
        }
        return Ok((ObjectRead { tag: name.clone(), attrs, parts }, pos));
    }
    match read_object_content(ev, pos, name) {
        Ok((parts, p)) => Ok((ObjectRead { tag: name.clone(), attrs, parts }, p)),
        Err(e) => Err(e),
    }
}

/// The parts of an object element (see `object_content`), and the position
/// after its end tag.
pub fn read_object_content(ev: &Vec<XmlEvent>, pos: usize, otag: &String) -> (res: Result<
    (Vec<ObjectPart>, usize),
    Error,
>)
    ensures
        match object_content(ev@, pos as int, otag@, Seq::empty()) {
            Ok((ps, p)) => res matches Ok((v, q)) && q == p && parts_view(v@) == ps,
            Err(st) => res matches Err(e) && stop_of(e) == Some(st),
        },
    decreases ev@.len() - pos, 1int,
{
    let ghost start = object_content(ev@, pos as int, otag@, Seq::empty());
    let mut parts: Vec<ObjectPart> = Vec::new();
    let mut j: usize = pos;
    proof {
        assert(parts_view(parts@) =~= Seq::<PartV>::empty());
    }
    loop
        invariant
            pos <= j,
            start == object_content(ev@, pos as int, otag@, Seq::empty()),
            object_content(ev@, j as int, otag@, parts_view(parts@)) == start,
        decreases ev@.len() - j,
    {
        if j >= ev.len() {
            return Err(eof_error("object"));
        }
        match &ev[j] {
            XmlEvent::Open { name, attrs, empty } => {
                let (part, p) = match read_part(ev, j + 1, otag, name, attrs, *empty) {
                    Ok(r) => r,
                    Err(e) => {
                        return Err(e);
                    },
                };
                if !(j < p && p <= ev.len()) {
                    return Err(eof_error("object"));
                }
                let ghost before = parts@;
                parts.push(part);
                proof {
                    assert(parts@.drop_last() =~= before);
                }
                j = p;
            },
            XmlEvent::End { name } => {
                if str_eq(name.as_str(), otag.as_str()) {
                    return Ok((parts, j + 1));
                }
                j = j + 1;
            },
            XmlEvent::Eof => {
                return Err(eof_error("object"));
            },
            XmlEvent::Failed(m) => {
                return Err(xml_error(m));
            },
            _ => {
                j = j + 1;
            },
        }
    }
}


/// The attributes of a `Composition` element inside a layer, and whether
/// the sizes it gives replace those read before (`replace`) or those read
/// before stay where it gives none.
#[derive(Debug)]
pub struct InnerSize {
    pub attrs: StrMap<String>,
    pub replace: bool,
}

/// A layer's child: a nested layer, or an object of its composition.
#[derive(Debug)]
pub enum LayerChild {
    Layer(LayerRead),
    Object(ObjectRead),
}

/// A layer element: its attributes, its nested layers and objects in order,
/// the other elements it holds, kept whole, and the inner compositions'
/// sizes in order.
#[derive(Debug)]
pub struct LayerRead {
    pub attrs: StrMap<String>,
    pub children: Vec<LayerChild>,
    pub unknown_children: Vec<UnknownNode>,
    pub sizes: Vec<InnerSize>,
}

/// A layer's child as a value.
pub enum ChildV {
    Layer(LayerV),
    Object(ObjectV),
}

/// A layer as a value.
pub struct LayerV {
    pub attrs: AttrMap,
    pub children: Seq<ChildV>,
    pub unknown: Seq<NodeV>,
    pub sizes: Seq<(AttrMap, bool)>,
}

pub open spec fn sizes_view(s: Seq<InnerSize>) -> Seq<(AttrMap, bool)> {
    s.map_values(|z: InnerSize| (z.attrs@, z.replace))
}

pub open spec fn layer_view(l: LayerRead) -> LayerV
    decreases l,
{
    LayerV {
        attrs: l.attrs@,
        children: children_view(l.children@),
        unknown: nodes_view(l.unknown_children@),
        sizes: sizes_view(l.sizes@),
    }
}

pub open spec fn children_view(s: Seq<LayerChild>) -> Seq<ChildV>
    decreases s,
{
    if s.len() == 0 {
        Seq::empty()
    } else {
        children_view(s.drop_last()).push(child_view(s.last()))
    }
}

pub open spec fn child_view(c: LayerChild) -> ChildV
    decreases c,
{
    match c {
        LayerChild::Layer(l) => ChildV::Layer(layer_view(l)),
        LayerChild::Object(o) => ChildV::Object(object_view(o)),
    }
}

/// A layer with the given attributes and nothing else.
pub open spec fn bare_layer(m: AttrMap) -> LayerV {
    LayerV { attrs: m, children: Seq::empty(), unknown: Seq::empty(), sizes: Seq::empty() }
}

pub open spec fn with_size(l: LayerV, m: AttrMap, replace: bool) -> LayerV {
    LayerV { sizes: l.sizes.push((m, replace)), ..l }
}

pub open spec fn with_child(l: LayerV, c: ChildV) -> LayerV {
    LayerV { children: l.children.push(c), ..l }
}

pub open spec fn with_kept(l: LayerV, n: NodeV) -> LayerV {
    LayerV { unknown: l.unknown.push(n), ..l }
}

/// A layer element whose start tag (with the attributes `m`) came just
/// before `pos`: nothing more when self-closing, else its content.
pub open spec fn read_layer(ev: Seq<XmlEvent>, pos: int, m: AttrMap, empty: bool) -> Result<(LayerV, int), Stop>
    decreases ev.len() - pos, 2int,
{
    if empty {
        Ok((bare_layer(m), pos))
    } else {
        layer_content(ev, pos, bare_layer(m))
    }
}

/// The content of a layer from `pos` on, added to `acc`, up to the end tag
/// `Layer`: a `Layer.Composition` or `Composition` element with content is
/// the layer's composition (a `Composition`'s sizes fill in), a `Layer` is
/// a nested layer, and any other element is kept whole.
pub open spec fn layer_content(ev: Seq<XmlEvent>, pos: int, acc: LayerV) -> Result<(LayerV, int), Stop>
    decreases ev.len() - pos, 1int,
{
    if pos < 0 || pos >= ev.len() {
        Err(Stop::EndOfInput("Layer"@))
    } else {
        match ev[pos] {
            XmlEvent::Open { name, attrs, empty } => {
                let step = if !empty && (name@ == "Layer.Composition"@ || name@ == "Composition"@) {
                    if name@ == "Composition"@ {
                        match tag_attrs(attrs@) {
                            None => Err(Stop::BadAttribute),
                            Some(m) => comp_content(ev, pos + 1, name@, with_size(acc, m, false)),
                        }
                    } else {
                        comp_content(ev, pos + 1, name@, acc)
                    }
                } else if name@ == "Layer"@ {
                    match tag_attrs(attrs@) {
                        None => Err(Stop::BadAttribute),
                        Some(m) => match read_layer(ev, pos + 1, m, empty) {
                            Ok((l, p)) => Ok((with_child(acc, ChildV::Layer(l)), p)),
                            Err(e) => Err(e),
                        },
                    }
                } else {
                    match kept(ev, pos + 1, name@, attrs@, empty) {
                        Ok((n, p)) => Ok((with_kept(acc, n), p)),
                        Err(e) => Err(e),
                    }
                };
                match step {
                    Ok((a, p)) => if pos < p <= ev.len() {
                        layer_content(ev, p, a)
                    } else {
                        Err(Stop::EndOfInput("Layer"@))
                    },
                    Err(e) => Err(e),
                }
            },
            XmlEvent::End { name } => if name@ == "Layer"@ {
                Ok((acc, pos + 1))
            } else {
                layer_content(ev, pos + 1, acc)
            },
            XmlEvent::Eof => Err(Stop::EndOfInput("Layer"@)),
            XmlEvent::Failed(m) => Err(Stop::Malformed(m@)),
            _ => layer_content(ev, pos + 1, acc),
        }
    }
}

/// The content of a layer's composition element tagged `ctag` from `pos`
/// on, added to `acc`, up to its end tag: a nested `Composition` with
/// content sets the sizes and is read likewise, a `Layer` is a nested
/// layer, an object element is an object, and any other element is kept
/// whole.
pub open spec fn comp_content(ev: Seq<XmlEvent>, pos: int, ctag: Seq<char>, acc: LayerV) -> Result<
    (LayerV, int),
    Stop,
>
    decreases ev.len() - pos, 1int,
{
    if pos < 0 || pos >= ev.len() {
        Err(Stop::EndOfInput("Layer.Composition"@))
    } else {
        match ev[pos] {
            XmlEvent::Open { name, attrs, empty } => {
                let step = if !empty && name@ == "Composition"@ {
                    match tag_attrs(attrs@) {
                        None => Err(Stop::BadAttribute),
                        Some(m) => comp_content(ev, pos + 1, name@, with_size(acc, m, true)),
                    }
                } else if name@ == "Layer"@ {
                    match tag_attrs(attrs@) {
                        None => Err(Stop::BadAttribute),
                        Some(m) => match read_layer(ev, pos + 1, m, empty) {
                            Ok((l, p)) => Ok((with_child(acc, ChildV::Layer(l)), p)),
                            Err(e) => Err(e),
                        },
                    }
                } else if object_tag(name@) {
                    match tag_attrs(attrs@) {
                        None => Err(Stop::BadAttribute),
                        Some(m) => match read_object(ev, pos + 1, name@, m, empty) {
                            Ok((o, p)) => Ok((with_child(acc, ChildV::Object(o)), p)),
                            Err(e) => Err(e),
                        },
                    }
                } else {
                    match kept(ev, pos + 1, name@, attrs@, empty) {
                        Ok((n, p)) => Ok((with_kept(acc, n), p)),
                        Err(e) => Err(e),
                    }
                };
                match step {
                    Ok((a, p)) => if pos < p <= ev.len() {
                        comp_content(ev, p, ctag, a)
                    } else {
                        Err(Stop::EndOfInput("Layer.Composition"@))
                    },
                    Err(e) => Err(e),
                }
            },
            XmlEvent::End { name } => if name@ == ctag {
                Ok((acc, pos + 1))
            } else {
                comp_content(ev, pos + 1, ctag, acc)
            },
            XmlEvent::Eof => Err(Stop::EndOfInput("Layer.Composition"@)),
            XmlEvent::Failed(m) => Err(Stop::Malformed(m@)),
            _ => comp_content(ev, pos + 1, ctag, acc),
        }
    }
}


fn bare_layer_read(attrs: StrMap<String>) -> (l: LayerRead)
    ensures
        layer_view(l) == bare_layer(attrs@),
{
    let l = LayerRead { attrs, children: Vec::new(), unknown_children: Vec::new(), sizes: Vec::new() };
    proof {
        assert(children_view(l.children@) =~= Seq::<ChildV>::empty());
        assert(nodes_view(l.unknown_children@) =~= Seq::<NodeV>::empty());
        assert(sizes_view(l.sizes@) =~= Seq::<(AttrMap, bool)>::empty());
    }
    l
}

fn add_size(l: &mut LayerRead, m: StrMap<String>, replace: bool)
    ensures
        layer_view(*final(l)) == with_size(layer_view(*old(l)), m@, replace),
{
    let ghost before = l.sizes@;
    let ghost mv = m@;
    l.sizes.push(InnerSize { attrs: m, replace });
    proof {
        assert(sizes_view(l.sizes@) =~= sizes_view(before).push((mv, replace)));
    }
}

fn add_child(l: &mut LayerRead, c: LayerChild)
    ensures
        layer_view(*final(l)) == with_child(layer_view(*old(l)), child_view(c)),
{
    let ghost before = l.children@;
    let ghost cv = child_view(c);
    l.children.push(c);
    proof {
        assert(l.children@.drop_last() =~= before);
        assert(children_view(l.children@) == children_view(l.children@.drop_last()).push(
            child_view(l.children@.last()),
        ));
        assert(children_view(l.children@) == children_view(before).push(cv));
    }
}

fn add_kept(l: &mut LayerRead, n: UnknownNode)
    ensures
        layer_view(*final(l)) == with_kept(layer_view(*old(l)), node_view(n)),
{
    let ghost before = l.unknown_children@;
    let ghost nv = node_view(n);
    l.unknown_children.push(n);
    proof {
        assert(l.unknown_children@.drop_last() =~= before);
        assert(nodes_view(l.unknown_children@) == nodes_view(before).push(nv));
    }
}

/// A layer element (see `read_layer`), and the position after it.
pub fn read_layer_at(ev: &Vec<XmlEvent>, pos: usize, attrs: StrMap<String>, empty: bool) -> (res: Result<
    (LayerRead, usize),
    Error,
>)
    ensures
        match read_layer(ev@, pos as int, attrs@, empty) {
            Ok((v, p)) => res matches Ok((l, q)) && q == p && layer_view(l) == v,
            Err(st) => res matches Err(e) && stop_of(e) == Some(st),
        },
    decreases ev@.len() - pos, 2int,
{
    let layer = bare_layer_read(attrs);
    if empty {
        return Ok((layer, pos));
    }
    read_layer_content(ev, pos, layer)
}

fn read_layer_content(ev: &Vec<XmlEvent>, pos: usize, acc: LayerRead) -> (res: Result<
    (LayerRead, usize),
    Error,
>)
    ensures
        match layer_content(ev@, pos as int, layer_view(acc)) {
            Ok((v, p)) => res matches Ok((l, q)) && q == p && layer_view(l) == v,
            Err(st) => res matches Err(e) && stop_of(e) == Some(st),
        },
    decreases ev@.len() - pos, 1int,
{
    let ghost start = layer_content(ev@, pos as int, layer_view(acc));
    let mut layer = acc;
    let mut j: usize = pos;
    loop
        invariant
            pos <= j,
            start == layer_content(ev@, pos as int, layer_view(acc)),
            layer_content(ev@, j as int, layer_view(layer)) == start,
        decreases ev@.len() - j,
    {
        if j >= ev.len() {
            return Err(eof_error("Layer"));
        }
        match &ev[j] {
            XmlEvent::Open { name, attrs, empty } => {
                let n = name.as_str();
                if !*empty && (str_eq(n, "Layer.Composition") || str_eq(n, "Composition")) {
                    if str_eq(n, "Composition") {
                        let m = match attributes(attrs.as_str()) {
                            Ok(m) => m,
                            Err(e) => {
                                return Err(e);
                            },
                        };
                        add_size(&mut layer, m, false);
                    }
                    let (next, p) = match read_comp_content(ev, j + 1, name, layer) {
                        Ok(r) => r,
                        Err(e) => {
                            return Err(e);
                        },
                    };
                    if !(j < p && p <= ev.len()) {
                        return Err(eof_error("Layer"));
                    }
                    layer = next;
                    j = p;
                } else if str_eq(n, "Layer") {
                    let m = match attributes(attrs.as_str()) {
                        Ok(m) => m,
                        Err(e) => {
                            return Err(e);
                        },
                    };
                    let (nested, p) = match read_layer_at(ev, j + 1, m, *empty) {
                        Ok(r) => r,
                        Err(e) => {
                            return Err(e);
                        },
                    };
                    if !(j < p && p <= ev.len()) {
                        return Err(eof_error("Layer"));
                    }
                    add_child(&mut layer, LayerChild::Layer(nested));
                    j = p;
                } else {
                    let (node, p) = match keep_element(ev, j + 1, name, attrs, *empty) {
                        Ok(r) => r,
                        Err(e) => {
                            return Err(e);
                        },
                    };
                    if !(j < p && p <= ev.len()) {
                        return Err(eof_error("Layer"));
                    }
                    add_kept(&mut layer, node);
                    j = p;
                }
            },
            XmlEvent::End { name } => {
                if str_eq(name.as_str(), "Layer") {
                    return Ok((layer, j + 1));
                }
                j = j + 1;
            },
            XmlEvent::Eof => {
                return Err(eof_error("Layer"));
            },
            XmlEvent::Failed(m) => {
                return Err(xml_error(m));
            },
            _ => {
                j = j + 1;
            },
        }
    }
}

fn read_comp_content(ev: &Vec<XmlEvent>, pos: usize, ctag: &String, acc: LayerRead) -> (res: Result<
    (LayerRead, usize),
    Error,
>)
    ensures
        match comp_content(ev@, pos as int, ctag@, layer_view(acc)) {
            Ok((v, p)) => res matches Ok((l, q)) && q == p && layer_view(l) == v,
            Err(st) => res matches Err(e) && stop_of(e) == Some(st),
        },
    decreases ev@.len() - pos, 1int,
{
    let ghost start = comp_content(ev@, pos as int, ctag@, layer_view(acc));
    let mut layer = acc;
    let mut j: usize = pos;
    loop
        invariant
            pos <= j,
            start == comp_content(ev@, pos as int, ctag@, layer_view(acc)),
            comp_content(ev@, j as int, ctag@, layer_view(layer)) == start,
        decreases ev@.len() - j,
    {
        if j >= ev.len() {
            return Err(eof_error("Layer.Composition"));
        }
        match &ev[j] {
            XmlEvent::Open { name, attrs, empty } => {
                let n = name.as_str();
                if !*empty && str_eq(n, "Composition") {
                    let m = match attributes(attrs.as_str()) {
                        Ok(m) => m,
                        Err(e) => {
                            return Err(e);
                        },
                    };
                    add_size(&mut layer, m, true);
                    let (next, p) = match read_comp_content(ev, j + 1, name, layer) {
                        Ok(r) => r,
                        Err(e) => {
                            return Err(e);
                        },
                    };
                    if !(j < p && p <= ev.len()) {
                        return Err(eof_error("Layer.Composition"));
                    }
                    layer = next;
                    j = p;
                } else if str_eq(n, "Layer") {
                    let m = match attributes(attrs.as_str()) {
                        Ok(m) => m,
                        Err(e) => {
                            return Err(e);
                        },
                    };
                    let (nested, p) = match read_layer_at(ev, j + 1, m, *empty) {
                        Ok(r) => r,
                        Err(e) => {
                            return Err(e);
                        },
                    };
                    if !(j < p && p <= ev.len()) {
                        return Err(eof_error("Layer.Composition"));
                    }
                    add_child(&mut layer, LayerChild::Layer(nested));
                    j = p;
                } else if is_object_tag(n) {
                    let m = match attributes(attrs.as_str()) {
                        Ok(m) => m,
                        Err(e) => {
                            return Err(e);
                        },
                    };
                    let (object, p) = match read_object_at(ev, j + 1, name, m, *empty) {
                        Ok(r) => r,
                        Err(e) => {
                            return Err(e);
                        },
                    };
                    if !(j < p && p <= ev.len()) {
                        return Err(eof_error("Layer.Composition"));
                    }
                    add_child(&mut layer, LayerChild::Object(object));
                    j = p;
                } else {
                    let (node, p) = match keep_element(ev, j + 1, name, attrs, *empty) {
                        Ok(r) => r,
                        Err(e) => {
                            return Err(e);
                        },
                    };
                    if !(j < p && p <= ev.len()) {
                        return Err(eof_error("Layer.Composition"));
                    }
                    add_kept(&mut layer, node);
                    j = p;
                }
            },
            XmlEvent::End { name } => {
                if str_eq(name.as_str(), ctag.as_str()) {
                    return Ok((layer, j + 1));
                }
                j = j + 1;
            },
            XmlEvent::Eof => {
                return Err(eof_error("Layer.Composition"));
            },
            XmlEvent::Failed(m) => {
                return Err(xml_error(m));
            },
            _ => {
                j = j + 1;
            },
        }
    }
}


/// A title document's structure: the root composition's attributes, its
/// layers, storyboards and other elements, each in order.
#[derive(Debug)]
pub struct DocumentRead {
    pub attrs: StrMap<String>,
    pub layers: Vec<LayerRead>,
    pub storyboards: Vec<Storyboard>,
    pub unknown_children: Vec<UnknownNode>,
}

/// A storyboard as its attributes, its animations and its kept elements.
pub type BoardV = (AttrMap, Seq<AnimItem>, Seq<NodeV>);

/// A document's structure as a value.
pub struct DocV {
    pub attrs: AttrMap,
    pub layers: Seq<LayerV>,
    pub boards: Seq<BoardV>,
    pub unknown: Seq<NodeV>,
}

pub open spec fn bare_doc(m: AttrMap) -> DocV {
    DocV { attrs: m, layers: Seq::empty(), boards: Seq::empty(), unknown: Seq::empty() }
}

/// A `Storyboard` element whose start tag (with the attributes `m`) came
/// just before `pos`: nothing more when self-closing, else its content (see
/// `read_board`).
pub open spec fn board_at(ev: Seq<XmlEvent>, pos: int, m: AttrMap, empty: bool) -> Result<(BoardV, int), Stop> {
    if empty {
        Ok(((m, Seq::empty(), Seq::empty()), pos))
    } else {
        match read_board(ev, pos, Seq::empty(), Seq::empty()) {
            Ok((a, k, p)) => Ok(((m, a, k), p)),
            Err(e) => Err(e),
        }
    }
}

/// The content of the root composition from `pos` on, added to `acc`, up
/// to the end tag `Composition`: layers, storyboards, and any other element
/// kept whole.
pub open spec fn doc_content(ev: Seq<XmlEvent>, pos: int, acc: DocV) -> Result<DocV, Stop>
    decreases ev.len() - pos,
{
    if pos < 0 || pos >= ev.len() {
        Err(Stop::EndOfInput("Composition"@))
    } else {
        match ev[pos] {
            XmlEvent::Open { name, attrs, empty } => match tag_attrs(attrs@) {
                None => Err(Stop::BadAttribute),
                Some(m) => {
                    let step = if name@ == "Layer"@ {
                        match read_layer(ev, pos + 1, m, empty) {
                            Ok((l, p)) => Ok((DocV { layers: acc.layers.push(l), ..acc }, p)),
                            Err(e) => Err(e),
                        }
                    } else if name@ == "Storyboard"@ {
                        match board_at(ev, pos + 1, m, empty) {
                            Ok((b, p)) => Ok((DocV { boards: acc.boards.push(b), ..acc }, p)),
                            Err(e) => Err(e),
                        }
                    } else {
                        match element(ev, pos + 1, name@, m, empty) {
                            Ok((n, p)) => Ok((DocV { unknown: acc.unknown.push(n), ..acc }, p)),
                            Err(e) => Err(e),
                        }
                    };
                    match step {
                        Ok((a, p)) => if pos < p <= ev.len() {
                            doc_content(ev, p, a)
                        } else {
                            Err(Stop::EndOfInput("Composition"@))
                        },
                        Err(e) => Err(e),
                    }
                },
            },
            XmlEvent::End { name } => if name@ == "Composition"@ {
                Ok(acc)
            } else {
                doc_content(ev, pos + 1, acc)
            },
            XmlEvent::Eof => Err(Stop::EndOfInput("Composition"@)),
            XmlEvent::Failed(m) => Err(Stop::Malformed(m@)),
            _ => doc_content(ev, pos + 1, acc),
        }
    }
}

/// A document from `pos` on: the first `Composition` element is the root,
/// and what comes before it is passed over.
pub open spec fn find_root(ev: Seq<XmlEvent>, pos: int) -> Result<DocV, Stop>
    decreases ev.len() - pos,
{
    if pos < 0 || pos >= ev.len() {
        Err(Stop::NoComposition)
    } else {
        match ev[pos] {
            XmlEvent::Open { name, attrs, empty } => if name@ == "Composition"@ {
                match tag_attrs(attrs@) {
                    None => Err(Stop::BadAttribute),
                    Some(m) => if empty {
                        Ok(bare_doc(m))
                    } else {
                        doc_content(ev, pos + 1, bare_doc(m))
                    },
                }
            } else {
                find_root(ev, pos + 1)
            },
            XmlEvent::Eof => Err(Stop::NoComposition),
            XmlEvent::Failed(m) => Err(Stop::Malformed(m@)),
            _ => find_root(ev, pos + 1),
        }
    }
}

pub open spec fn layers_view(s: Seq<LayerRead>) -> Seq<LayerV> {
    s.map_values(|l: LayerRead| layer_view(l))
}

/// Each storyboard was read from the attributes, animations and kept
/// elements of the one at its place.
pub open spec fn boards_fit(sbs: Seq<Storyboard>, bv: Seq<BoardV>) -> bool {
    &&& sbs.len() == bv.len()
    &&& forall|i: int| 0 <= i < sbs.len() ==> storyboard_fits(#[trigger] sbs[i], bv[i].0, bv[i].1, bv[i].2)
}

/// A document read as the value `v` says.
pub open spec fn document_fits(d: DocumentRead, v: DocV) -> bool {
    &&& d.attrs@ == v.attrs
    &&& layers_view(d.layers@) == v.layers
    &&& boards_fit(d.storyboards@, v.boards)
    &&& nodes_view(d.unknown_children@) == v.unknown
}

/// Where the root composition's start tag is, with its attributes and
/// whether it is self-closing.
fn find_composition(ev: &Vec<XmlEvent>) -> (res: Result<(usize, StrMap<String>, bool), Error>)
    ensures
        match res {
            Ok((j, m, empty)) => j < ev@.len() && find_root(ev@, 0) == (if empty {
                Ok(bare_doc(m@))
            } else {
                doc_content(ev@, j + 1, bare_doc(m@))
            }),
            Err(e) => find_root(ev@, 0) matches Err(st) && stop_of(e) == Some(st),
        },
{
    let ghost whole = find_root(ev@, 0);
    let mut j: usize = 0;
    loop
        invariant
            whole == find_root(ev@, 0),
            find_root(ev@, j as int) == whole,
        decreases ev@.len() - j,
    {
        if j >= ev.len() {
            return Err(Error::MissingComposition);
        }
        match &ev[j] {
            XmlEvent::Open { name, attrs, empty } => {
                if str_eq(name.as_str(), "Composition") {
                    return match attributes(attrs.as_str()) {
                        Ok(m) => Ok((j, m, *empty)),
                        Err(e) => Err(e),
                    };
                }
            },
            XmlEvent::Eof => {
                return Err(Error::MissingComposition);
            },
            XmlEvent::Failed(m) => {
                return Err(xml_error(m));
            },
            _ => {},
        }
        j = j + 1;
    }
}

/// A title document's structure from its event stream (see `find_root`):
/// the missing root, a malformed attribute, a tokeniser error or an early
/// end of input is the error that stopped it.
pub fn read_document(ev: &Vec<XmlEvent>) -> (res: Result<DocumentRead, Error>)
    ensures
        match find_root(ev@, 0) {
            Ok(v) => res matches Ok(d) && document_fits(d, v),
            Err(st) => res matches Err(e) && stop_of(e) == Some(st),
        },
{
    let ghost whole = find_root(ev@, 0);
    let (j, attrs, empty) = match find_composition(ev) {
        Ok(r) => r,
        Err(e) => {
            return Err(e);
        },
    };
    let ghost root = bare_doc(attrs@);
    let mut doc = DocumentRead {
        attrs,
        layers: Vec::new(),
        storyboards: Vec::new(),
        unknown_children: Vec::new(),
    };
    proof {
        assert(layers_view(doc.layers@) =~= Seq::<LayerV>::empty());
        assert(nodes_view(doc.unknown_children@) =~= Seq::<NodeV>::empty());
    }
    if empty {
        return Ok(doc);
    }
    let ghost mut acc = root;
    let total = ev.len();
    assert(j < total);
    let mut k: usize = j + 1;
    assert(doc_content(ev@, k as int, acc) == whole);
    loop
        invariant
            whole == find_root(ev@, 0),
            doc_content(ev@, k as int, acc) == whole,
            document_fits(doc, acc),
        decreases ev@.len() - k,
    {
        if k >= ev.len() {
            return Err(eof_error("Composition"));
        }
        match &ev[k] {
            XmlEvent::Open { name, attrs, empty } => {
                let m = match attributes(attrs.as_str()) {
                    Ok(m) => m,
                    Err(e) => {
                        return Err(e);
                    },
                };
                let n = name.as_str();
                if str_eq(n, "Layer") {
                    let (layer, p) = match read_layer_at(ev, k + 1, m, *empty) {
                        Ok(r) => r,
                        Err(e) => {
                            return Err(e);
                        },
                    };
                    if !(k < p && p <= ev.len()) {
                        return Err(eof_error("Composition"));
                    }
                    let ghost lv = layer_view(layer);
                    let ghost before = doc.layers@;
                    doc.layers.push(layer);
                    proof {
                        assert(layers_view(doc.layers@) =~= layers_view(before).push(lv));
                        acc = DocV { layers: acc.layers.push(lv), ..acc };
                    }
                    k = p;
                } else if str_eq(n, "Storyboard") {
                    let ghost mv = m@;
                    let (sb, p) = match parse_storyboard(ev, k + 1, &m, *empty) {
                        Ok(r) => r,
                        Err(e) => {
                            return Err(e);
                        },
                    };
                    if !(k < p && p <= ev.len()) {
                        return Err(eof_error("Composition"));
                    }
                    let ghost b: BoardV = match board_at(ev@, k + 1, mv, *empty) {
                        Ok((b, _)) => b,
                        Err(_) => (mv, Seq::empty(), Seq::empty()),
                    };
                    let ghost before = doc.storyboards@;
                    doc.storyboards.push(sb);
                    proof {
                        acc = DocV { boards: acc.boards.push(b), ..acc };
                        assert(doc.storyboards@.len() == acc.boards.len());
                        assert forall|i: int| 0 <= i < doc.storyboards@.len() implies storyboard_fits(
                            #[trigger] doc.storyboards@[i],
                            acc.boards[i].0,
                            acc.boards[i].1,
                            acc.boards[i].2,
                        ) by {
                            if i < before.len() {
                                assert(doc.storyboards@[i] == before[i]);
                            }
                        }
                    }
                    k = p;
                } else {
                    let (node, p) = match parse_unknown(ev, k + 1, n, m, *empty) {
                        Ok(r) => r,
                        Err(e) => {
                            return Err(e);
                        },
                    };
                    if !(k < p && p <= ev.len()) {
                        return Err(eof_error("Composition"));
                    }
                    let ghost nv = node_view(node);
                    let ghost before = doc.unknown_children@;
                    doc.unknown_children.push(node);
                    proof {
                        assert(doc.unknown_children@.drop_last() =~= before);
                        acc = DocV { unknown: acc.unknown.push(nv), ..acc };
                    }
                    k = p;
                }
            },
            XmlEvent::End { name } => {
                if str_eq(name.as_str(), "Composition") {
                    return Ok(doc);
                }
                k = k + 1;
            },
            XmlEvent::Eof => {
                return Err(eof_error("Composition"));
            },
            XmlEvent::Failed(m) => {
                return Err(xml_error(m));
            },
            _ => {
                k = k + 1;
            },
        }
    }
}

/// A title document's structure from its text (see `read_document`), read
/// with quick-xml.
pub fn document_structure(xml: &str) -> (res: Result<DocumentRead, Error>)
    ensures
        match find_root(xml_events(xml@), 0) {
            Ok(v) => res matches Ok(d) && document_fits(d, v),
            Err(st) => res matches Err(e) && stop_of(e) == Some(st),
        },
{
    let events = read_events(xml);
    read_document(&events)
}


/// The attributes a layer element reads itself; the others are kept.
pub open spec fn layer_keys() -> Seq<&'static str> {
    seq!["Name", "Location", "Dimensions", "Locked", "Visible"]
}

/// What a layer element's attributes say, its location and dimensions as
/// written.
#[derive(Debug)]
pub struct LayerAttrs {
    pub name: String,
    pub location: Option<String>,
    pub dimensions: Option<String>,
    pub locked: bool,
    pub visible: bool,
    pub extra_attrs: StrMap<String>,
}

/// What a layer reads from the attributes `m`: its `Name` (empty when
/// absent), `Location` and `Dimensions` as written, the flags `Locked` and
/// `Visible` (true when absent), and the attributes no name claims.
pub open spec fn layer_attrs_fit(a: LayerAttrs, m: AttrMap) -> bool {
    &&& a.name@ == (match attr_get(m, "Name"@) {
        Some(n) => n@,
        None => Seq::empty(),
    })
    &&& a.location == attr_get(m, "Location"@)
    &&& a.dimensions == attr_get(m, "Dimensions"@)
    &&& a.locked == flag_attr(m, "Locked"@)
    &&& a.visible == (!m.contains_key("Visible"@) || flag_attr(m, "Visible"@))
    &&& a.extra_attrs@ == leftover(m, layer_keys())
}

/// What a layer element's attributes say (see `layer_attrs_fit`).
pub fn layer_attrs(attrs: &StrMap<String>) -> (a: LayerAttrs)
    ensures
        layer_attrs_fit(a, attrs@),
{
    let known: [&str; 5] = ["Name", "Location", "Dimensions", "Locked", "Visible"];
    assert(known@ =~= layer_keys());
    let name = match attrs.get("Name") {
        Some(n) => n.clone(),
        None => String::new(),
    };
    let visible = match attrs.get("Visible") {
        Some(_) => flag(attrs, "Visible"),
        None => true,
    };
    LayerAttrs {
        name,
        location: opt_attr(attrs, "Location"),
        dimensions: opt_attr(attrs, "Dimensions"),
        locked: flag(attrs, "Locked"),
        visible,
        extra_attrs: leftover_attrs(attrs, &known),
    }
}


/// What an effect element says, by its `Type`, else its tag.
#[derive(Debug)]
pub enum EffectRead {
    /// `Shadow` or `Glow`: its mode, its blur as written (`BlurAmount`, else
    /// `Blur`) and its colour.
    Shadow { mode: Option<String>, blur: Option<String>, color: Option<Color> },
    /// `Skew`: its angles as written.
    Skew(Option<String>),
    Reflection,
    /// `TextureFlip` or `Flip`: whether it flips across x and across y (see
    /// `flips_of`).
    Flip(bool, bool),
    /// Any other effect, which the object keeps as it is.
    Other,
}

/// What the effect element `n` says (see `EffectRead`).
pub open spec fn effect_kind(n: NodeV) -> EffectRead {
    let m = n.attributes;
    let t = match attr_get(m, "Type"@) {
        Some(t) => t@,
        None => n.tag,
    };
    if t == "Shadow"@ || t == "Glow"@ {
        EffectRead::Shadow {
            mode: attr_get(m, "Mode"@),
            blur: either(m, "BlurAmount"@, "Blur"@),
            color: match attr_get(m, "Color"@) {
                Some(c) => parse_color(c@),
                None => None,
            },
        }
    } else if t == "Skew"@ {
        EffectRead::Skew(attr_get(m, "Angle"@))
    } else if t == "Reflection"@ {
        EffectRead::Reflection
    } else if t == "TextureFlip"@ || t == "Flip"@ {
        EffectRead::Flip(flips_of(m).0, flips_of(m).1)
    } else {
        EffectRead::Other
    }
}

/// What an effect element says (see `effect_kind`).
pub fn effect_of(node: &UnknownNode) -> (e: EffectRead)
    ensures
        e == effect_kind(node_view(*node)),
{
    let attrs = &node.attributes;
    let t: &str = match attrs.get("Type") {
        Some(t) => t.as_str(),
        None => node.tag.as_str(),
    };
    if str_eq(t, "Shadow") || str_eq(t, "Glow") {
        let color = match attrs.get("Color") {
            Some(c) => Color::parse(c.as_str()),
            None => None,
        };
        EffectRead::Shadow { mode: opt_attr(attrs, "Mode"), blur: opt_either(attrs, "BlurAmount", "Blur"), color }
    } else if str_eq(t, "Skew") {
        EffectRead::Skew(opt_attr(attrs, "Angle"))
    } else if str_eq(t, "Reflection") {
        EffectRead::Reflection
    } else if str_eq(t, "TextureFlip") || str_eq(t, "Flip") {
        let (x, y) = flip_axes(attrs);
        EffectRead::Flip(x, y)
    } else {
        EffectRead::Other
    }
}

/// The crop a crop element's attributes ask for: none when it has no
/// attributes, else its `Range` and `Feather` as written.
pub open spec fn crop_from(m: AttrMap) -> Option<CropEffect> {
    if m.dom() == Set::<Seq<char>>::empty() {
        None
    } else {
        Some(CropEffect { range: attr_get(m, "Range"@), feather: attr_get(m, "Feather"@) })
    }
}

/// The crop a crop element's attributes ask for (see `crop_from`).
pub fn crop_of(attrs: &StrMap<String>) -> (res: Option<CropEffect>)
    ensures
        res == crop_from(attrs@),
{
    let n = attrs.len();
    proof {
        attrs.lemma_listing();
        if n > 0 {
            assert(attrs@.dom().contains(attrs.spec_entries()[0].0));
        } else {
            assert(attrs@.dom() =~= Set::<Seq<char>>::empty());
        }
    }
    if n == 0 {
        None
    } else {
        Some(CropEffect { range: opt_attr(attrs, "Range"), feather: opt_attr(attrs, "Feather") })
    }
}

} // verus!

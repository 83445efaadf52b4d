//! Reading fills and strokes: which brush an element describes, its
//! colours, gradient stops and picture, with the numbers (points, angles,
//! offsets) kept as the text they were written in.
use vstd::prelude::*;

use crate::color::{parse_color, Color};
use crate::elements::{
    bitmap_source, bitmap_source_from_node, leftover, leftover_attrs, lemma_nodes_view, node_view,
    nodes_view, NodeV,
};
use crate::model::UnknownNode;
use crate::strmap::StrMap;
use crate::text::str_eq;

verus! {

/// A gradient stop: its colour and its offset as written, if any.
#[derive(Debug, Clone)]
pub struct StopRead {
    pub color: Color,
    pub offset: Option<String>,
}

/// What a brush element describes.
#[derive(Debug)]
pub enum BrushRead {
    /// A solid colour; none when the colour is missing or unreadable.
    Solid(Option<Color>),
    /// A linear gradient given by an angle (the older gradient tags).
    AngleGradient { angle: Option<String>, wrap: Option<String>, stops: Vec<StopRead> },
    /// A linear gradient given by its start and end points.
    PointGradient {
        start: Option<String>,
        end: Option<String>,
        wrap: Option<String>,
        stops: Vec<StopRead>,
    },
    RadialGradient { wrap: Option<String>, stops: Vec<StopRead> },
    Picture { source: String, size_mode: Option<String>, extra: StrMap<String> },
}

pub open spec fn get(n: NodeV, key: Seq<char>) -> Option<String> {
    if n.attributes.contains_key(key) {
        Some(n.attributes[key])
    } else {
        None
    }
}

pub open spec fn first_of(n: NodeV, a: Seq<char>, b: Seq<char>) -> Option<String> {
    match get(n, a) {
        Some(v) => Some(v),
        None => get(n, b),
    }
}

/// A stop as a colour and an offset text.
pub type StopView = (Color, Option<Seq<char>>);

pub open spec fn stop_view(s: StopRead) -> StopView {
    (s.color, crate::elements::text_view(s.offset))
}

pub open spec fn stops_view(v: Seq<StopRead>) -> Seq<StopView> {
    v.map_values(|s: StopRead| stop_view(s))
}

/// The stops of a gradient element, depth first: every `GradientStop` or
/// `Stop` with a readable `Color`, its offset from `Offset` or else
/// `Position`.
pub open spec fn stops_of(n: NodeV) -> Seq<StopView>
    decreases n,
{
    own_stop(n) + stops_in(n.children)
}

pub open spec fn stops_in(nodes: Seq<NodeV>) -> Seq<StopView>
    decreases nodes,
{
    if nodes.len() == 0 {
        Seq::empty()
    } else {
        stops_in(nodes.drop_last()) + stops_of(nodes.last())
    }
}

fn opt_get(n: &UnknownNode, key: &str) -> (res: Option<String>)
    ensures
        res == get(node_view(*n), key@),
{
    match n.attributes.get(key) {
        Some(v) => Some(v.clone()),
        None => None,
    }
}

fn opt_first(n: &UnknownNode, a: &str, b: &str) -> (res: Option<String>)
    ensures
        res == first_of(node_view(*n), a@, b@),
{
    match opt_get(n, a) {
        Some(v) => Some(v),
        None => opt_get(n, b),
    }
}

/// The stop an element is itself, if any.
pub open spec fn own_stop(n: NodeV) -> Seq<StopView> {
    if (n.tag == "GradientStop"@ || n.tag == "Stop"@) && (get(n, "Color"@) matches Some(c)
        && parse_color(c@) is Some) {
        seq![(parse_color(get(n, "Color"@)->0@)->0, crate::elements::text_view(first_of(n, "Offset"@, "Position"@)))]
    } else {
        Seq::empty()
    }
}

fn collect_stops(n: &UnknownNode, out: &mut Vec<StopRead>)
    ensures
        stops_view(final(out)@) == stops_view(old(out)@) + stops_of(node_view(*n)),
    decreases n,
{
    let ghost start = stops_view(out@);
    let ghost v = node_view(*n);
    if str_eq(n.tag.as_str(), "GradientStop") || str_eq(n.tag.as_str(), "Stop") {
        if let Some(raw) = n.attributes.get("Color") {
            if let Some(color) = Color::parse(raw.as_str()) {
                out.push(StopRead { color, offset: opt_first(n, "Offset", "Position") });
            }
        }
    }
    let ghost here = own_stop(v);
    let ghost kids = v.children;
    proof {
        assert(stops_view(out@) =~= start + here);
        assert(kids.take(0) =~= Seq::<NodeV>::empty());
        lemma_nodes_view(n.children@);
    }
    let len = n.children.len();
    let mut i: usize = 0;
    while i < len
        invariant
            len == n.children@.len(),
            kids == nodes_view(n.children@),
            kids.len() == len,
            forall|j: int| 0 <= j < len ==> #[trigger] kids[j] == node_view(n.children@[j]),
            i <= len,
            here == own_stop(v),
            stops_view(out@) == start + here + stops_in(kids.take(i as int)),
        decreases len - i,
    {
        collect_stops(&n.children[i], out);
        proof {
            assert(kids.take(i + 1).drop_last() =~= kids.take(i as int));
            assert(kids.take(i + 1).last() == kids[i as int]);
            assert(stops_view(out@) =~= start + here + stops_in(kids.take(i + 1)));
        }
        i = i + 1;
    }
    proof {
        assert(kids.take(len as int) =~= kids);
        assert(start + here + stops_in(kids) =~= start + stops_of(v));
    }
}

/// The stops of a gradient element (see `stops_of`).
pub fn gradient_stops(n: &UnknownNode) -> (res: Vec<StopRead>)
    ensures
        stops_view(res@) == stops_of(node_view(*n)),
{
    let mut out: Vec<StopRead> = Vec::new();
    proof {
        assert(stops_view(out@) =~= Seq::<StopView>::empty());
    }
    collect_stops(n, &mut out);
    proof {
        assert(Seq::<StopView>::empty() + stops_of(node_view(*n)) =~= stops_of(node_view(*n)));
    }
    out
}

/// What a `Brush` element describes, by its `Type` (`Solid` when none):
/// a gradient by its points, a radial gradient, a picture from its bitmap
/// child, or else a solid colour.
pub open spec fn brush_of(n: NodeV) -> BrushSpec {
    let ty = match get(n, "Type"@) {
        Some(t) => t@,
        None => "Solid"@,
    };
    if ty == "LinearGradient"@ {
        BrushSpec::PointGradient {
            start: get(n, "StartPoint"@),
            end: get(n, "EndPoint"@),
            wrap: first_of(n, "WrapX"@, "Wrap"@),
            stops: stops_of(n),
        }
    } else if ty == "RadialGradient"@ {
        BrushSpec::RadialGradient { wrap: first_of(n, "WrapX"@, "Wrap"@), stops: stops_of(n) }
    } else if ty == "Bitmap"@ {
        BrushSpec::Picture {
            source: match bitmap_source(n) {
                Some(s) => s@,
                None => Seq::empty(),
            },
            size_mode: get(n, "SizeMode"@),
            extra: Map::empty(),
        }
    } else {
        BrushSpec::Solid(
            match get(n, "Color"@) {
                Some(c) => parse_color(c@),
                None => None,
            },
        )
    }
}

/// What an element inside a fill describes, by its tag: a `Brush` (see
/// `brush_of`), one of the older gradient tags, or a picture tag with a
/// `Source` (or `ImageSource`); none for any other element.
pub open spec fn fill_of(n: NodeV) -> Option<BrushSpec> {
    let t = n.tag;
    if t == "Brush"@ {
        Some(brush_of(n))
    } else if t == "LinearGradientBrush"@ || t == "LinearGradient"@ {
        Some(
            BrushSpec::AngleGradient {
                angle: get(n, "Angle"@),
                wrap: first_of(n, "Wrap"@, "WrapX"@),
                stops: stops_of(n),
            },
        )
    } else if t == "RadialGradientBrush"@ || t == "RadialGradient"@ {
        Some(BrushSpec::RadialGradient { wrap: first_of(n, "Wrap"@, "WrapX"@), stops: stops_of(n) })
    } else if t == "Picture"@ || t == "PictureFill"@ || t == "ImageBrush"@ {
        match first_of(n, "Source"@, "ImageSource"@) {
            Some(s) => Some(
                BrushSpec::Picture {
                    source: s@,
                    size_mode: first_of(n, "SizeMode"@, "Stretch"@),
                    extra: leftover(n.attributes, picture_keys()),
                },
            ),
            None => None,
        }
    } else {
        None
    }
}

/// The attributes a picture element reads itself.
pub open spec fn picture_keys() -> Seq<&'static str> {
    seq!["Source", "ImageSource", "SizeMode", "Stretch"]
}

/// A brush as values.
pub enum BrushSpec {
    Solid(Option<Color>),
    AngleGradient { angle: Option<String>, wrap: Option<String>, stops: Seq<StopView> },
    PointGradient {
        start: Option<String>,
        end: Option<String>,
        wrap: Option<String>,
        stops: Seq<StopView>,
    },
    RadialGradient { wrap: Option<String>, stops: Seq<StopView> },
    Picture { source: Seq<char>, size_mode: Option<String>, extra: Map<Seq<char>, String> },
}

pub open spec fn brush_view(b: BrushRead) -> BrushSpec {
    match b {
        BrushRead::Solid(c) => BrushSpec::Solid(c),
        BrushRead::AngleGradient { angle, wrap, stops } => BrushSpec::AngleGradient {
            angle,
            wrap,
            stops: stops_view(stops@),
        },
        BrushRead::PointGradient { start, end, wrap, stops } => BrushSpec::PointGradient {
            start,
            end,
            wrap,
            stops: stops_view(stops@),
        },
        BrushRead::RadialGradient { wrap, stops } => BrushSpec::RadialGradient {
            wrap,
            stops: stops_view(stops@),
        },
        BrushRead::Picture { source, size_mode, extra } => BrushSpec::Picture {
            source: source@,
            size_mode,
            extra: extra@,
        },
    }
}

/// What a `Brush` element describes (see `brush_of`).
pub fn read_brush(n: &UnknownNode) -> (res: BrushRead)
    ensures
        brush_view(res) == brush_of(node_view(*n)),
{
    proof {
        reveal_strlit("");
    }
    let ty = opt_get(n, "Type");
    let t: &str = match &ty {
        Some(t) => t.as_str(),
        None => "Solid",
    };
    if str_eq(t, "LinearGradient") {
        BrushRead::PointGradient {
            start: opt_get(n, "StartPoint"),
            end: opt_get(n, "EndPoint"),
            wrap: opt_first(n, "WrapX", "Wrap"),
            stops: gradient_stops(n),
        }
    } else if str_eq(t, "RadialGradient") {
        BrushRead::RadialGradient { wrap: opt_first(n, "WrapX", "Wrap"), stops: gradient_stops(n) }
    } else if str_eq(t, "Bitmap") {
        let source = match bitmap_source_from_node(n) {
            Some(s) => s,
            None => String::new(),
        };
        let extra = StrMap::new();
        BrushRead::Picture { source, size_mode: opt_get(n, "SizeMode"), extra }
    } else {
        BrushRead::Solid(
            match n.attributes.get("Color") {
                Some(c) => Color::parse(c.as_str()),
                None => None,
            },
        )
    }
}

/// What an element inside a fill describes (see `fill_of`).
pub fn read_fill(n: &UnknownNode) -> (res: Option<BrushRead>)
    ensures
        match res {
            Some(b) => fill_of(node_view(*n)) == Some(brush_view(b)),
            None => fill_of(node_view(*n)) is None,
        },
{
    let t = n.tag.as_str();
    if str_eq(t, "Brush") {
        Some(read_brush(n))
    } else if str_eq(t, "LinearGradientBrush") || str_eq(t, "LinearGradient") {
        Some(
            BrushRead::AngleGradient {
                angle: opt_get(n, "Angle"),
                wrap: opt_first(n, "Wrap", "WrapX"),
                stops: gradient_stops(n),
            },
        )
    } else if str_eq(t, "RadialGradientBrush") || str_eq(t, "RadialGradient") {
        Some(BrushRead::RadialGradient { wrap: opt_first(n, "Wrap", "WrapX"), stops: gradient_stops(n) })
    } else if str_eq(t, "Picture") || str_eq(t, "PictureFill") || str_eq(t, "ImageBrush") {
        match opt_first(n, "Source", "ImageSource") {
            Some(source) => {
                let known: [&str; 4] = ["Source", "ImageSource", "SizeMode", "Stretch"];
                assert(known@ =~= picture_keys());
                Some(
                    BrushRead::Picture {
                        source,
                        size_mode: opt_first(n, "SizeMode", "Stretch"),
                        extra: leftover_attrs(&n.attributes, &known),
                    },
                )
            },
            None => None,
        }
    } else {
        None
    }
}

} // verus!

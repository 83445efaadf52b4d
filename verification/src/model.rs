//! The parts of the title document that hold no geometry: object kinds,
//! preserved XML, storyboards and their animations, and summaries.
use vstd::prelude::*;

pub use crate::color::Color;
use crate::strmap::StrMap;
use crate::text::{eq_ignore_ascii_case, same_ignoring_case, str_eq};

verus! {

/// The most animations one object may have in one storyboard (`None` animations
/// are not counted).
pub const MAX_ANIMATIONS_PER_OBJECT: usize = 3;

/// An XML element kept as it was read, for elements the model does not know.
#[derive(Debug)]
pub struct UnknownNode {
    pub tag: String,
    pub attributes: StrMap<String>,
    pub children: Vec<UnknownNode>,
    pub text: Option<String>,
}

/// A deep copy of an element.
pub fn clone_node(n: &UnknownNode) -> (res: UnknownNode)
    ensures
        res.tag@ == n.tag@,
        res.attributes.keys_view() == n.attributes.keys_view(),
        res.children@.len() == n.children@.len(),
    decreases n,
{
    let mut children: Vec<UnknownNode> = Vec::new();
    let len = n.children.len();
    let mut i: usize = 0;
    while i < len
        invariant
            len == n.children@.len(),
            i <= len,
            children@.len() == i,
        decreases len - i,
    {
        children.push(clone_node(&n.children[i]));
        i = i + 1;
    }
    UnknownNode {
        tag: n.tag.clone(),
        attributes: n.attributes.clone(),
        children,
        text: n.text.clone(),
    }
}

impl Clone for UnknownNode {
    fn clone(&self) -> (res: Self)
        ensures
            res.tag@ == self.tag@,
    {
        clone_node(self)
    }
}

impl UnknownNode {
    /// An element with the given tag and nothing else.
    pub fn new(tag: String) -> (n: UnknownNode)
        ensures
            n.tag@ == tag@,
            n.attributes@ == Map::<Seq<char>, String>::empty(),
            n.children@.len() == 0,
            n.text.is_none(),
    {
        UnknownNode { tag, attributes: StrMap::new(), children: Vec::new(), text: None }
    }
}

/// An object sized to another object of the same layer, with padding.
#[derive(Clone, Debug, PartialEq, Eq)]
pub struct Bounding {
    pub object: String,
    pub padding: String,
}

#[derive(Clone, Debug, PartialEq, Eq)]
pub struct CropEffect {
    pub range: Option<String>,
    pub feather: Option<String>,
}

/// The kind of a title object, from its XML tag.
#[derive(Clone, Copy, Debug, PartialEq, Eq, Structural)]
pub enum ObjectKind {
    TextBlock,
    Rectangle,
    Ellipse,
    Triangle,
    Image,
    Ticker,
    Text3D,
    QrCode,
    ImageSequence,
    Unknown,
}

/// The kind that a tag names; `TextBlock3D`, `QRCode` and `QR` are read as
/// their usual names, and any other unlisted tag is `Unknown`.
pub open spec fn kind_of_tag(t: Seq<char>) -> ObjectKind {
    if t == "TextBlock"@ {
        ObjectKind::TextBlock
    } else if t == "Rectangle"@ {
        ObjectKind::Rectangle
    } else if t == "Ellipse"@ {
        ObjectKind::Ellipse
    } else if t == "Triangle"@ {
        ObjectKind::Triangle
    } else if t == "Image"@ {
        ObjectKind::Image
    } else if t == "Ticker"@ {
        ObjectKind::Ticker
    } else if t == "Text3D"@ || t == "TextBlock3D"@ {
        ObjectKind::Text3D
    } else if t == "QrCode"@ || t == "QRCode"@ || t == "QR"@ {
        ObjectKind::QrCode
    } else if t == "ImageSequence"@ {
        ObjectKind::ImageSequence
    } else {
        ObjectKind::Unknown
    }
}

/// The name of each kind.
pub open spec fn kind_name(k: ObjectKind) -> Seq<char> {
    match k {
        ObjectKind::TextBlock => "TextBlock"@,
        ObjectKind::Rectangle => "Rectangle"@,
        ObjectKind::Ellipse => "Ellipse"@,
        ObjectKind::Triangle => "Triangle"@,
        ObjectKind::Image => "Image"@,
        ObjectKind::Ticker => "Ticker"@,
        ObjectKind::Text3D => "Text3D"@,
        ObjectKind::QrCode => "QrCode"@,
        ObjectKind::ImageSequence => "ImageSequence"@,
        ObjectKind::Unknown => "Unknown"@,
    }
}

impl Default for ObjectKind {
    fn default() -> (k: ObjectKind)
        ensures
            k == ObjectKind::Unknown,
    {
        ObjectKind::Unknown
    }
}

impl ObjectKind {
    pub fn from_tag(tag: &str) -> (k: ObjectKind)
        ensures
            k == kind_of_tag(tag@),
    {
        if str_eq(tag, "TextBlock") {
            ObjectKind::TextBlock
        } else if str_eq(tag, "Rectangle") {
            ObjectKind::Rectangle
        } else if str_eq(tag, "Ellipse") {
            ObjectKind::Ellipse
        } else if str_eq(tag, "Triangle") {
            ObjectKind::Triangle
        } else if str_eq(tag, "Image") {
            ObjectKind::Image
        } else if str_eq(tag, "Ticker") {
            ObjectKind::Ticker
        } else if str_eq(tag, "Text3D") || str_eq(tag, "TextBlock3D") {
            ObjectKind::Text3D
        } else if str_eq(tag, "QrCode") || str_eq(tag, "QRCode") || str_eq(tag, "QR") {
            ObjectKind::QrCode
        } else if str_eq(tag, "ImageSequence") {
            ObjectKind::ImageSequence
        } else {
            ObjectKind::Unknown
        }
    }

    pub fn as_str(self) -> (s: &'static str)
        ensures
            s@ == kind_name(self),
    {
        match self {
            ObjectKind::TextBlock => "TextBlock",
            ObjectKind::Rectangle => "Rectangle",
            ObjectKind::Ellipse => "Ellipse",
            ObjectKind::Triangle => "Triangle",
            ObjectKind::Image => "Image",
            ObjectKind::Ticker => "Ticker",
            ObjectKind::Text3D => "Text3D",
            ObjectKind::QrCode => "QrCode",
            ObjectKind::ImageSequence => "ImageSequence",
            ObjectKind::Unknown => "Unknown",
        }
    }

    /// Rectangles, ellipses and triangles.
    pub fn is_shape(self) -> (res: bool)
        ensures
            res == (self == ObjectKind::Rectangle || self == ObjectKind::Ellipse || self
                == ObjectKind::Triangle),
    {
        match self {
            ObjectKind::Rectangle | ObjectKind::Ellipse | ObjectKind::Triangle => true,
            _ => false,
        }
    }

    /// Every known kind is converted to HTML.
    pub fn phase1_renderable(self) -> (res: bool)
        ensures
            res == (self != ObjectKind::Unknown),
    {
        self.renders_html()
    }

    /// Every known kind is converted to HTML.
    pub fn renders_html(self) -> (res: bool)
        ensures
            res == (self != ObjectKind::Unknown),
    {
        match self {
            ObjectKind::Unknown => false,
            _ => true,
        }
    }
}

/// Reading back the name of a kind gives the kind.
pub proof fn lemma_kind_name_round_trip(k: ObjectKind)
    ensures
        kind_of_tag(kind_name(k)) == k,
{
    reveal_strlit("TextBlock");
    reveal_strlit("Rectangle");
    reveal_strlit("Ellipse");
    reveal_strlit("Triangle");
    reveal_strlit("Image");
    reveal_strlit("Ticker");
    reveal_strlit("Text3D");
    reveal_strlit("TextBlock3D");
    reveal_strlit("QrCode");
    reveal_strlit("QRCode");
    reveal_strlit("QR");
    reveal_strlit("ImageSequence");
    reveal_strlit("Unknown");
    let t = kind_name(k);
    match k {
        ObjectKind::TextBlock => {},
        ObjectKind::Rectangle => { assert(t[0] != "TextBlock"@[0]); },
        ObjectKind::Ellipse => {
            assert(t.len() != "TextBlock"@.len());
            assert(t.len() != "Rectangle"@.len());
        },
        ObjectKind::Triangle => {
            assert(t.len() != "TextBlock"@.len());
            assert(t[0] != "Rectangle"@[0]);
            assert(t.len() != "Ellipse"@.len());
        },
        ObjectKind::Image => {
            assert(t.len() != "TextBlock"@.len());
            assert(t.len() != "Rectangle"@.len());
            assert(t.len() != "Ellipse"@.len());
            assert(t.len() != "Triangle"@.len());
        },
        ObjectKind::Ticker => {
            assert(t.len() != "TextBlock"@.len());
            assert(t.len() != "Rectangle"@.len());
            assert(t.len() != "Ellipse"@.len());
            assert(t.len() != "Triangle"@.len());
            assert(t.len() != "Image"@.len());
        },
        ObjectKind::Text3D => {
            assert(t.len() != "TextBlock"@.len());
            assert(t.len() != "Rectangle"@.len());
            assert(t.len() != "Ellipse"@.len());
            assert(t.len() != "Triangle"@.len());
            assert(t.len() != "Image"@.len());
            assert(t[1] != "Ticker"@[1]);
        },
        ObjectKind::QrCode => {
            assert(t.len() != "TextBlock"@.len());
            assert(t.len() != "Rectangle"@.len());
            assert(t[0] != "Ellipse"@[0]);
            assert(t.len() != "Triangle"@.len());
            assert(t.len() != "Image"@.len());
            assert(t[0] != "Ticker"@[0]);
            assert(t[0] != "Text3D"@[0]);
            assert(t.len() != "TextBlock3D"@.len());
        },
        ObjectKind::ImageSequence => {
            assert(t.len() != "TextBlock"@.len());
            assert(t.len() != "Rectangle"@.len());
            assert(t.len() != "Ellipse"@.len());
            assert(t.len() != "Triangle"@.len());
            assert(t.len() != "Image"@.len());
            assert(t.len() != "Ticker"@.len());
            assert(t.len() != "Text3D"@.len());
            assert(t.len() != "TextBlock3D"@.len());
            assert(t.len() != "QrCode"@.len());
            assert(t.len() != "QRCode"@.len());
            assert(t.len() != "QR"@.len());
        },
        ObjectKind::Unknown => {
            assert(t.len() != "TextBlock"@.len());
            assert(t.len() != "Rectangle"@.len());
            assert(t[0] != "Ellipse"@[0]);
            assert(t.len() != "Triangle"@.len());
            assert(t.len() != "Image"@.len());
            assert(t.len() != "Ticker"@.len());
            assert(t.len() != "Text3D"@.len());
            assert(t.len() != "TextBlock3D"@.len());
            assert(t.len() != "QrCode"@.len());
            assert(t.len() != "QRCode"@.len());
            assert(t.len() != "QR"@.len());
            assert(t.len() != "ImageSequence"@.len());
        },
    }
}

/// One animation of a storyboard. Its kind is open: unknown kinds are kept.
#[derive(Clone, Debug)]
pub struct Animation {
    pub kind: String,
    pub object: Option<String>,
    pub duration: Option<String>,
    pub delay: Option<String>,
    pub interpolation: Option<String>,
    pub direction: Option<String>,
    pub reversed: bool,
    pub center_axis: Option<String>,
    pub speed: Option<String>,
    pub muted: bool,
    pub extra_attrs: StrMap<String>,
}

/// A `None` animation holds a place and does not count toward the limit.
pub open spec fn is_placeholder_kind(kind: Seq<char>) -> bool {
    same_ignoring_case(kind, "None"@)
}

/// Continuous kinds run by speed, not by duration.
pub open spec fn is_continuous_kind(kind: Seq<char>) -> bool {
    ||| kind == "RotateContinuous"@
    ||| kind == "FillOffset"@
    ||| kind == "StrokeOffset"@
    ||| kind == "Blink"@
    ||| kind == "ImageSequenceLoop"@
}

/// Whether an animation counts toward the limit of the named object.
pub open spec fn counts_for(a: Animation, object: Seq<char>) -> bool {
    &&& !is_placeholder_kind(a.kind@)
    &&& a.object matches Some(name) && same_ignoring_case(name@, object)
}

/// How many animations of a list count toward the limit of the named object.
pub open spec fn count_for(anims: Seq<Animation>, object: Seq<char>) -> nat
    decreases anims.len(),
{
    if anims.len() == 0 {
        0
    } else {
        count_for(anims.drop_last(), object) + if counts_for(anims.last(), object) {
            1nat
        } else {
            0nat
        }
    }
}

impl Animation {
    pub fn is_placeholder(&self) -> (res: bool)
        ensures
            res == is_placeholder_kind(self.kind@),
    {
        eq_ignore_ascii_case(self.kind.as_str(), "None")
    }

    pub fn is_continuous_type(&self) -> (res: bool)
        ensures
            res == is_continuous_kind(self.kind@),
    {
        let k = self.kind.as_str();
        str_eq(k, "RotateContinuous") || str_eq(k, "FillOffset") || str_eq(k, "StrokeOffset")
            || str_eq(k, "Blink") || str_eq(k, "ImageSequenceLoop")
    }
}

/// A storyboard's type as the designer reads it: a missing or empty type is
/// `TransitionIn`.
pub open spec fn effective_type_of(t: Option<String>) -> Seq<char> {
    match t {
        None => "TransitionIn"@,
        Some(s) => if s@.len() == 0 {
            "TransitionIn"@
        } else {
            s@
        },
    }
}

/// A named timeline of animations.
#[derive(Clone, Debug)]
pub struct Storyboard {
    pub storyboard_type: Option<String>,
    pub reversed: bool,
    pub data_name: Option<String>,
    pub animations: Vec<Animation>,
    pub extra_attrs: StrMap<String>,
    pub unknown_children: Vec<UnknownNode>,
}

impl Storyboard {
    pub fn effective_type(&self) -> (res: &str)
        ensures
            res@ == effective_type_of(self.storyboard_type),
    {
        match &self.storyboard_type {
            None => "TransitionIn",
            Some(value) => if value.as_str().is_empty() {
                "TransitionIn"
            } else {
                value.as_str()
            },
        }
    }

    /// `TransitionOut` and `DataChangeIn` play their animations backwards.
    pub fn plays_rewound(&self) -> (res: bool)
        ensures
            res == (effective_type_of(self.storyboard_type) == "TransitionOut"@
                || effective_type_of(self.storyboard_type) == "DataChangeIn"@),
    {
        let t = self.effective_type();
        str_eq(t, "TransitionOut") || str_eq(t, "DataChangeIn")
    }

    pub fn is_continuous(&self) -> (res: bool)
        ensures
            res == same_ignoring_case(effective_type_of(self.storyboard_type), "Continuous"@),
    {
        eq_ignore_ascii_case(self.effective_type(), "Continuous")
    }

    /// A storyboard scoped to one data field carries a non-empty data name.
    pub fn is_scoped(&self) -> (res: bool)
        ensures
            res == (self.data_name matches Some(n) && n@.len() > 0),
    {
        match &self.data_name {
            Some(value) => !value.as_str().is_empty(),
            None => false,
        }
    }

    /// How many of this storyboard's animations count toward the limit of the
    /// named object.
    pub fn counted_animations_for(&self, object: &str) -> (n: usize)
        ensures
            n == count_for(self.animations@, object@),
    {
        let len = self.animations.len();
        let mut n: usize = 0;
        let mut i: usize = 0;
        while i < len
            invariant
                len == self.animations@.len(),
                i <= len,
                n == count_for(self.animations@.take(i as int), object@),
                n <= i,
            decreases len - i,
        {
            let a = &self.animations[i];
            let counted = !a.is_placeholder() && match &a.object {
                Some(name) => eq_ignore_ascii_case(name.as_str(), object),
                None => false,
            };
            proof {
                assert(self.animations@.take(i + 1).drop_last() =~= self.animations@.take(i as int));
            }
            if counted {
                n = n + 1;
            }
            i = i + 1;
        }
        proof {
            assert(self.animations@.take(len as int) =~= self.animations@);
        }
        n
    }
}

/// The number of objects of a layer, per object, for reports.
#[derive(Clone, Debug, PartialEq, Eq)]
pub struct ObjectSummary {
    pub name: String,
    pub kind: String,
    pub text: Option<String>,
}

#[derive(Clone, Debug, PartialEq, Eq)]
pub struct LayerSummary {
    pub name: String,
    pub objects: Vec<ObjectSummary>,
}

#[derive(Clone, Debug, PartialEq, Eq)]
pub struct StoryboardSummary {
    pub storyboard_type: Option<String>,
    pub animation_count: usize,
}

} // verus!

//! The warnings of a conversion: what the HTML leaves out or approximates.
//!
//! The warnings are worked out from what the document says of each object;
//! the geometry plays no part in them.
use vstd::prelude::*;

use crate::model::{effective_type_of, kind_name, ObjectKind, Storyboard};
use crate::text::{eq_ignore_ascii_case, lower_seq, owned, same_ignoring_case, str_eq, to_ascii_lowercase, trim, trim_seq};
use crate::warn::{push_warning, warning_view, warnings_view, WarnView, Warning};

verus! {

/// What a fill holds that bears on warnings.
#[derive(Debug, Clone)]
pub enum FillFacts {
    /// A brush the model does not know, described.
    Unsupported { detail: String },
    /// A picture fill, with the names of its attributes that are not applied.
    Picture { extra_keys: Vec<String> },
    /// Any other fill.
    Other,
}

/// What an object holds that bears on warnings.
#[derive(Debug, Clone)]
pub struct ObjectFacts {
    pub kind: ObjectKind,
    pub tag: String,
    pub name: String,
    pub has_image_source: bool,
    pub geometry: Option<String>,
    pub fill: FillFacts,
    pub stroke_fill: FillFacts,
    pub reflection: bool,
    pub compositing: Option<String>,
    pub auto_size: Option<String>,
    /// Tags of the child elements that were kept unread.
    pub unknown_children: Vec<String>,
    /// Names of the attributes that were kept unread, in ascending order.
    pub extra_attr_keys: Vec<String>,
}

/// A layer as warnings see it.
#[derive(Debug)]
pub struct LayerFacts {
    pub name: String,
    /// Tags of the child elements that were kept unread.
    pub unknown_children: Vec<String>,
    pub children: Vec<LayerItem>,
}

/// A child of a layer.
#[derive(Debug)]
pub enum LayerItem {
    Layer(LayerFacts),
    Object(ObjectFacts),
}

/// What a document holds that bears on warnings.
#[derive(Debug)]
pub struct DocumentFacts {
    /// Warnings found while reading the document.
    pub warnings: Vec<Warning>,
    /// Tags of the root's child elements that were kept unread.
    pub unknown_children: Vec<String>,
    pub storyboards: Vec<Storyboard>,
    pub layers: Vec<LayerFacts>,
}

/// A storyboard type when none is given, or an empty one.
pub fn effective_storyboard_type(raw: Option<&str>) -> (res: &str)
    ensures
        res@ == match raw {
            None => "TransitionIn"@,
            Some(v) => if v@.len() == 0 {
                "TransitionIn"@
            } else {
                v@
            },
        },
{
    match raw {
        None => "TransitionIn",
        Some(value) => if value.is_empty() {
            "TransitionIn"
        } else {
            value
        },
    }
}

/// Text with outer white space removed and ASCII letters lowered.
pub open spec fn normal(s: Seq<char>) -> Seq<char> {
    lower_seq(trim_seq(s))
}

fn normalize(value: &str) -> (res: String)
    ensures
        res@ == normal(value@),
{
    to_ascii_lowercase(trim(value))
}

/// The animation kinds that have a CSS mapping of their own.
pub open spec fn is_supported_animation(kind: Seq<char>) -> bool {
    ||| kind == "Reveal"@
    ||| kind == "Fade"@
    ||| kind == "Fly"@
    ||| kind == "ZoomFade"@
    ||| kind == "Move"@
    ||| kind == "Scale"@
    ||| kind == "Rotate"@
    ||| kind == "Zoom"@
    ||| kind == "Wipe"@
    ||| kind == "Spin"@
    ||| kind == "Flip"@
    ||| kind == "ImageSequence"@
    ||| kind == "None"@
}

fn supported_animation(kind: &str) -> (res: bool)
    ensures
        res == is_supported_animation(kind@),
{
    str_eq(kind, "Reveal") || str_eq(kind, "Fade") || str_eq(kind, "Fly") || str_eq(kind, "ZoomFade")
        || str_eq(kind, "Move") || str_eq(kind, "Scale") || str_eq(kind, "Rotate") || str_eq(
        kind,
        "Zoom",
    ) || str_eq(kind, "Wipe") || str_eq(kind, "Spin") || str_eq(kind, "Flip") || str_eq(
        kind,
        "ImageSequence",
    ) || str_eq(kind, "None")
}

/// A warning about the named object.
pub open spec fn about(name: Seq<char>, code: Seq<char>, message: Seq<char>) -> WarnView {
    (code, message, Some(name))
}

/// One warning when `c` holds, none otherwise.
pub open spec fn when(c: bool, w: WarnView) -> Seq<WarnView> {
    if c {
        seq![w]
    } else {
        Seq::empty()
    }
}

pub open spec fn fill_warnings(f: FillFacts, name: Seq<char>) -> Seq<WarnView> {
    match f {
        FillFacts::Unsupported { detail } => seq![about(name, "unsupported.fill"@, detail@)],
        FillFacts::Picture { extra_keys } => each_about(
            extra_keys@,
            name,
            "unsupported.picture_fill.attribute"@,
            "picture fill attribute "@,
            " is not applied"@,
        ),
        FillFacts::Other => Seq::empty(),
    }
}

pub open spec fn stroke_warnings(f: FillFacts, name: Seq<char>) -> Seq<WarnView> {
    match f {
        FillFacts::Unsupported { detail } => seq![about(name, "unsupported.stroke"@, detail@)],
        _ => Seq::empty(),
    }
}

/// One warning about the named object for each key, its message the key
/// between `prefix` and `suffix`.
pub open spec fn each_about(
    keys: Seq<String>,
    name: Seq<char>,
    code: Seq<char>,
    prefix: Seq<char>,
    suffix: Seq<char>,
) -> Seq<WarnView> {
    keys.map_values(|k: String| about(name, code, prefix + k@ + suffix))
}

pub open spec fn child_warnings(tags: Seq<String>, name: Seq<char>) -> Seq<WarnView> {
    each_about(tags, name, "unsupported.object_child"@, "object child <"@, "> is not converted"@)
}

pub open spec fn attr_warnings(keys: Seq<String>, name: Seq<char>) -> Seq<WarnView> {
    each_about(keys, name, "unsupported.attribute"@, "attribute "@, " is preserved but not rendered"@)
}

/// The first warnings about an object: not converted, Text3D, QR without
/// image, cube.
pub open spec fn kind_warnings(o: ObjectFacts) -> Seq<WarnView> {
    let n = o.name@;
    when(
        o.kind == ObjectKind::Unknown,
        about(
            n,
            "unsupported.object."@ + lower_seq(kind_name(o.kind)),
            "<"@ + o.tag@ + "> '"@ + n + "' is not converted to HTML"@,
        ),
    ) + when(
        o.kind == ObjectKind::Text3D,
        about(n, "approximate.text3d"@, "Text3D is approximated as 2D text; pixel match is not a goal"@),
    ) + when(
        o.kind == ObjectKind::QrCode && !o.has_image_source,
        about(
            n,
            "unsupported.qr.generation"@,
            "QR object has no embedded image; a generator crate was not added"@,
        ),
    ) + when(
        o.geometry matches Some(g) && same_ignoring_case(g@, "Cube"@),
        about(
            n,
            "approximate.cube"@,
            "Cube geometry is approximated in CSS 3D; pixel match is not a goal"@,
        ),
    )
}

/// Then: fill, stroke, image without source, reflection.
pub open spec fn paint_warnings(o: ObjectFacts) -> Seq<WarnView> {
    let n = o.name@;
    fill_warnings(o.fill, n) + stroke_warnings(o.stroke_fill, n) + when(
        o.kind == ObjectKind::Image && !o.has_image_source,
        about(n, "unsupported.image.source"@, "Image has no Bitmap Source"@),
    ) + when(
        o.reflection,
        about(n, "approximate.reflection"@, "Reflection is approximated with -webkit-box-reflect"@),
    )
}

/// Then: compositing, auto size, unread children, unread attributes.
pub open spec fn layout_warnings(o: ObjectFacts) -> Seq<WarnView> {
    let n = o.name@;
    when(
        o.compositing matches Some(m) && (normal(m@) == "replace"@ || normal(m@) == "additive"@),
        about(
            n,
            "approximate.compositing"@,
            "Compositing "@ + o.compositing->0@ + " is approximated with mix-blend-mode"@,
        ),
    ) + when(
        o.auto_size matches Some(a) && !same_ignoring_case(a@, "Fixed"@),
        about(
            n,
            "unsupported.auto_size"@,
            "AutoSize="@ + o.auto_size->0@ + " is not applied as live layout"@,
        ),
    ) + child_warnings(o.unknown_children@, n) + attr_warnings(o.extra_attr_keys@, n)
}

/// The warnings about one object, in this order: not converted, Text3D,
/// QR without image, cube, fill, stroke, image without source, reflection,
/// compositing, auto size, unread children, unread attributes.
pub open spec fn object_warnings(o: ObjectFacts) -> Seq<WarnView> {
    kind_warnings(o) + paint_warnings(o) + layout_warnings(o)
}

fn push_about(ws: &mut Vec<Warning>, name: &str, code: &str, message: String)
    ensures
        warnings_view(final(ws)@) == warnings_view(old(ws)@).push(about(name@, code@, message@)),
{
    push_warning(ws, Warning::new(owned(code), message).with_object(name));
}

fn push_when(ws: &mut Vec<Warning>, c: bool, name: &str, code: &str, message: String)
    ensures
        warnings_view(final(ws)@) == warnings_view(old(ws)@) + when(c, about(name@, code@, message@)),
{
    if c {
        push_about(ws, name, code, message);
        proof {
            assert(warnings_view(ws@) =~= warnings_view(old(ws)@) + when(c, about(name@, code@, message@)));
        }
    } else {
        proof {
            assert(warnings_view(ws@) =~= warnings_view(old(ws)@) + when(c, about(name@, code@, message@)));
        }
    }
}

fn push_each(ws: &mut Vec<Warning>, keys: &Vec<String>, name: &str, code: &str, prefix: &str, suffix: &str)
    ensures
        warnings_view(final(ws)@) == warnings_view(old(ws)@) + each_about(
            keys@,
            name@,
            code@,
            prefix@,
            suffix@,
        ),
{
    let ghost all = each_about(keys@, name@, code@, prefix@, suffix@);
    let n = keys.len();
    let mut i: usize = 0;
    proof {
        assert(warnings_view(ws@) =~= warnings_view(old(ws)@) + all.take(0));
    }
    while i < n
        invariant
            n == keys@.len(),
            i <= n,
            all == each_about(keys@, name@, code@, prefix@, suffix@),
            warnings_view(ws@) == warnings_view(old(ws)@) + all.take(i as int),
        decreases n - i,
    {
        let message = owned(prefix).concat(keys[i].as_str()).concat(suffix);
        push_about(ws, name, code, message);
        proof {
            assert(all[i as int] == about(name@, code@, message@));
            assert(warnings_view(ws@) =~= warnings_view(old(ws)@) + all.take(i + 1));
        }
        i = i + 1;
    }
    proof {
        assert(all.take(n as int) =~= all);
    }
}

fn push_fill(ws: &mut Vec<Warning>, f: &FillFacts, name: &str)
    ensures
        warnings_view(final(ws)@) == warnings_view(old(ws)@) + fill_warnings(*f, name@),
{
    match f {
        FillFacts::Unsupported { detail } => {
            push_about(ws, name, "unsupported.fill", detail.clone());
            proof {
                assert(warnings_view(ws@) =~= warnings_view(old(ws)@) + fill_warnings(*f, name@));
            }
        },
        FillFacts::Picture { extra_keys } => {
            push_each(
                ws,
                extra_keys,
                name,
                "unsupported.picture_fill.attribute",
                "picture fill attribute ",
                " is not applied",
            );
        },
        FillFacts::Other => {
            proof {
                assert(warnings_view(ws@) =~= warnings_view(old(ws)@) + fill_warnings(*f, name@));
            }
        },
    }
}

fn push_stroke(ws: &mut Vec<Warning>, f: &FillFacts, name: &str)
    ensures
        warnings_view(final(ws)@) == warnings_view(old(ws)@) + stroke_warnings(*f, name@),
{
    match f {
        FillFacts::Unsupported { detail } => {
            push_about(ws, name, "unsupported.stroke", detail.clone());
        },
        _ => {},
    }
    proof {
        assert(warnings_view(ws@) =~= warnings_view(old(ws)@) + stroke_warnings(*f, name@));
    }
}

fn warn_kind(o: &ObjectFacts, ws: &mut Vec<Warning>)
    ensures
        warnings_view(final(ws)@) == warnings_view(old(ws)@) + kind_warnings(*o),
{
    let ghost w0 = warnings_view(ws@);
    let name = o.name.as_str();
    let code = owned("unsupported.object.").concat(to_ascii_lowercase(o.kind.as_str()).as_str());
    push_when(
        ws,
        !o.kind.renders_html(),
        name,
        code.as_str(),
        owned("<").concat(o.tag.as_str()).concat("> '").concat(name).concat("' is not converted to HTML"),
    );
    push_when(
        ws,
        o.kind == ObjectKind::Text3D,
        name,
        "approximate.text3d",
        owned("Text3D is approximated as 2D text; pixel match is not a goal"),
    );
    push_when(
        ws,
        o.kind == ObjectKind::QrCode && !o.has_image_source,
        name,
        "unsupported.qr.generation",
        owned("QR object has no embedded image; a generator crate was not added"),
    );
    let cube = match &o.geometry {
        Some(g) => eq_ignore_ascii_case(g.as_str(), "Cube"),
        None => false,
    };
    push_when(
        ws,
        cube,
        name,
        "approximate.cube",
        owned("Cube geometry is approximated in CSS 3D; pixel match is not a goal"),
    );
    proof {
        assert(warnings_view(ws@) =~= w0 + kind_warnings(*o));
    }
}

fn warn_paint(o: &ObjectFacts, ws: &mut Vec<Warning>)
    ensures
        warnings_view(final(ws)@) == warnings_view(old(ws)@) + paint_warnings(*o),
{
    let ghost w0 = warnings_view(ws@);
    let name = o.name.as_str();
    push_fill(ws, &o.fill, name);
    push_stroke(ws, &o.stroke_fill, name);
    push_when(
        ws,
        o.kind == ObjectKind::Image && !o.has_image_source,
        name,
        "unsupported.image.source",
        owned("Image has no Bitmap Source"),
    );
    push_when(
        ws,
        o.reflection,
        name,
        "approximate.reflection",
        owned("Reflection is approximated with -webkit-box-reflect"),
    );
    proof {
        assert(warnings_view(ws@) =~= w0 + paint_warnings(*o));
    }
}

fn warn_layout(o: &ObjectFacts, ws: &mut Vec<Warning>)
    ensures
        warnings_view(final(ws)@) == warnings_view(old(ws)@) + layout_warnings(*o),
{
    let ghost w0 = warnings_view(ws@);
    let ghost n = o.name@;
    let name = o.name.as_str();
    match &o.compositing {
        Some(mode) => {
            let lower = normalize(mode.as_str());
            push_when(
                ws,
                str_eq(lower.as_str(), "replace") || str_eq(lower.as_str(), "additive"),
                name,
                "approximate.compositing",
                owned("Compositing ").concat(mode.as_str()).concat(" is approximated with mix-blend-mode"),
            );
        },
        None => {},
    }
    let ghost w1 = warnings_view(ws@);
    proof {
        assert(w1 =~= w0 + when(
            o.compositing matches Some(m) && (normal(m@) == "replace"@ || normal(m@) == "additive"@),
            about(n, "approximate.compositing"@, "Compositing "@ + o.compositing->0@ + " is approximated with mix-blend-mode"@),
        ));
    }
    match &o.auto_size {
        Some(a) => {
            push_when(
                ws,
                !eq_ignore_ascii_case(a.as_str(), "Fixed"),
                name,
                "unsupported.auto_size",
                owned("AutoSize=").concat(a.as_str()).concat(" is not applied as live layout"),
            );
        },
        None => {},
    }
    let ghost w2 = warnings_view(ws@);
    proof {
        assert(w2 =~= w1 + when(
            o.auto_size matches Some(a) && !same_ignoring_case(a@, "Fixed"@),
            about(n, "unsupported.auto_size"@, "AutoSize="@ + o.auto_size->0@ + " is not applied as live layout"@),
        ));
    }
    push_each(ws, &o.unknown_children, name, "unsupported.object_child", "object child <", "> is not converted");
    push_each(
        ws,
        &o.extra_attr_keys,
        name,
        "unsupported.attribute",
        "attribute ",
        " is preserved but not rendered",
    );
    proof {
        assert(warnings_view(ws@) =~= w0 + layout_warnings(*o));
    }
}

/// Appends the warnings about one object (see `object_warnings`).
pub fn warn_object(o: &ObjectFacts, ws: &mut Vec<Warning>)
    ensures
        warnings_view(final(ws)@) == warnings_view(old(ws)@) + object_warnings(*o),
{
    let ghost w0 = warnings_view(ws@);
    warn_kind(o, ws);
    warn_paint(o, ws);
    warn_layout(o, ws);
    proof {
        assert(warnings_view(ws@) =~= w0 + object_warnings(*o));
    }
}

/// The warnings of a layer: its unread children, then each child in order.
pub open spec fn layer_warnings(l: LayerFacts) -> Seq<WarnView>
    decreases l,
{
    each_about(
        l.unknown_children@,
        l.name@,
        "unsupported.layer_child"@,
        "layer child <"@,
        "> is not converted"@,
    ) + items_warnings(l.children@)
}

/// The warnings of a layer's children, in order.
pub open spec fn items_warnings(items: Seq<LayerItem>) -> Seq<WarnView>
    decreases items,
{
    if items.len() == 0 {
        Seq::empty()
    } else {
        items_warnings(items.drop_last()) + match items.last() {
            LayerItem::Layer(l) => layer_warnings(l),
            LayerItem::Object(o) => object_warnings(o),
        }
    }
}

/// Appends the warnings of a layer and everything in it (see
/// `layer_warnings`).
pub fn walk_layer(layer: &LayerFacts, ws: &mut Vec<Warning>)
    ensures
        warnings_view(final(ws)@) == warnings_view(old(ws)@) + layer_warnings(*layer),
    decreases layer,
{
    let ghost w0 = warnings_view(ws@);
    push_each(
        ws,
        &layer.unknown_children,
        layer.name.as_str(),
        "unsupported.layer_child",
        "layer child <",
        "> is not converted",
    );
    let ghost w1 = warnings_view(ws@);
    let ghost items = layer.children@;
    let n = layer.children.len();
    let mut i: usize = 0;
    proof {
        assert(items.take(0) =~= Seq::<LayerItem>::empty());
        assert(w1 =~= w1 + items_warnings(items.take(0)));
    }
    while i < n
        invariant
            items == layer.children@,
            n == items.len(),
            i <= n,
            warnings_view(ws@) == w1 + items_warnings(items.take(i as int)),
        decreases n - i,
    {
        let ghost before = warnings_view(ws@);
        match &layer.children[i] {
            LayerItem::Layer(nested) => {
                walk_layer(nested, ws);
            },
            LayerItem::Object(o) => {
                warn_object(o, ws);
            },
        }
        proof {
            assert(items.take(i + 1).drop_last() =~= items.take(i as int));
            assert(items.take(i + 1).last() == items[i as int]);
            assert(warnings_view(ws@) =~= w1 + items_warnings(items.take(i + 1)));
        }
        i = i + 1;
    }
    proof {
        assert(items.take(n as int) =~= items);
        assert(warnings_view(ws@) =~= w0 + layer_warnings(*layer));
    }
}

/// A warning about no object in particular.
pub open spec fn general(code: Seq<char>, message: Seq<char>) -> WarnView {
    (code, message, None)
}

/// The warnings of the animations that have no CSS mapping, in order.
pub open spec fn animation_warnings(anims: Seq<crate::model::Animation>) -> Seq<WarnView>
    decreases anims.len(),
{
    if anims.len() == 0 {
        Seq::empty()
    } else {
        let k = anims.last().kind@;
        animation_warnings(anims.drop_last()) + if is_supported_animation(k) {
            Seq::empty()
        } else {
            seq![
                general(
                    "unsupported.animation."@ + lower_seq(k),
                    "animation <"@ + k + "> is recorded but has no dedicated CSS mapping"@,
                ),
            ]
        }
    }
}

/// The warnings of one storyboard: its type, when HTML does not play it,
/// then its animations.
pub open spec fn storyboard_warnings(sb: Storyboard) -> Seq<WarnView> {
    let ty = effective_type_of(sb.storyboard_type);
    let t = normal(ty);
    (if t == "transitionin"@ || t == "transitionout"@ || t == "continuous"@ {
        Seq::empty()
    } else if t == "datachangein"@ || t == "datachangeout"@ {
        seq![
            general(
                "unsupported.storyboard.datachange"@,
                "storyboard "@ + ty + " is kept in IR for Wasm runtime (stage 6)"@,
            ),
        ]
    } else {
        seq![
            general(
                "unsupported.storyboard"@,
                "storyboard "@ + t + " is parsed but not selected for HTML"@,
            ),
        ]
    }) + animation_warnings(sb.animations@)
}

pub open spec fn storyboards_warnings(sbs: Seq<Storyboard>) -> Seq<WarnView>
    decreases sbs.len(),
{
    if sbs.len() == 0 {
        Seq::empty()
    } else {
        storyboards_warnings(sbs.drop_last()) + storyboard_warnings(sbs.last())
    }
}

/// Whether some storyboard has the selected type.
pub open spec fn selects_some(sbs: Seq<Storyboard>, selected: Seq<char>) -> bool {
    exists|i: int| 0 <= i < sbs.len() && normal(effective_type_of((#[trigger] sbs[i]).storyboard_type)) == selected
}

pub open spec fn layers_warnings(layers: Seq<LayerFacts>) -> Seq<WarnView>
    decreases layers.len(),
{
    if layers.len() == 0 {
        Seq::empty()
    } else {
        layers_warnings(layers.drop_last()) + layer_warnings(layers.last())
    }
}

/// All warnings of a document, in this order: those found while reading it,
/// unread root children, storyboards, a missing selected storyboard, then
/// the layers.
pub open spec fn document_warnings(d: DocumentFacts, storyboard: Seq<char>) -> Seq<WarnView> {
    warnings_view(d.warnings@) + d.unknown_children@.map_values(
        |t: String| general("unsupported.root_child"@, "root child <"@ + t@ + "> is not converted"@),
    ) + storyboards_warnings(d.storyboards@) + if d.storyboards@.len() > 0 && !selects_some(
        d.storyboards@,
        normal(storyboard),
    ) {
        seq![
            general(
                "unsupported.storyboard.missing"@,
                "no storyboard named '"@ + storyboard + "' was found; static layout is used"@,
            ),
        ]
    } else {
        Seq::empty()
    } + layers_warnings(d.layers@)
}

fn copy_warning(w: &Warning) -> (c: Warning)
    ensures
        warning_view(c) == warning_view(*w),
{
    Warning {
        code: w.code.clone(),
        message: w.message.clone(),
        object: match &w.object {
            Some(o) => Some(o.clone()),
            None => None,
        },
    }
}

fn push_storyboard(ws: &mut Vec<Warning>, sb: &Storyboard)
    ensures
        warnings_view(final(ws)@) == warnings_view(old(ws)@) + storyboard_warnings(*sb),
{
    let ghost w0 = warnings_view(ws@);
    let ty = sb.effective_type();
    let t = normalize(ty);
    let ts = t.as_str();
    if str_eq(ts, "transitionin") || str_eq(ts, "transitionout") || str_eq(ts, "continuous") {
    } else if str_eq(ts, "datachangein") || str_eq(ts, "datachangeout") {
        push_warning(
            ws,
            Warning::new(
                owned("unsupported.storyboard.datachange"),
                owned("storyboard ").concat(ty).concat(" is kept in IR for Wasm runtime (stage 6)"),
            ),
        );
    } else {
        push_warning(
            ws,
            Warning::new(
                owned("unsupported.storyboard"),
                owned("storyboard ").concat(ts).concat(" is parsed but not selected for HTML"),
            ),
        );
    }
    let ghost w1 = warnings_view(ws@);
    let ghost anims = sb.animations@;
    let n = sb.animations.len();
    let mut i: usize = 0;
    proof {
        assert(anims.take(0) =~= Seq::<crate::model::Animation>::empty());
        assert(w1 =~= w1 + animation_warnings(anims.take(0)));
    }
    while i < n
        invariant
            anims == sb.animations@,
            n == anims.len(),
            i <= n,
            warnings_view(ws@) == w1 + animation_warnings(anims.take(i as int)),
        decreases n - i,
    {
        let kind = sb.animations[i].kind.as_str();
        if !supported_animation(kind) {
            push_warning(
                ws,
                Warning::new(
                    owned("unsupported.animation.").concat(to_ascii_lowercase(kind).as_str()),
                    owned("animation <").concat(kind).concat("> is recorded but has no dedicated CSS mapping"),
                ),
            );
        }
        proof {
            assert(anims.take(i + 1).drop_last() =~= anims.take(i as int));
            assert(anims.take(i + 1).last() == anims[i as int]);
            assert(warnings_view(ws@) =~= w1 + animation_warnings(anims.take(i + 1)));
        }
        i = i + 1;
    }
    proof {
        assert(anims.take(n as int) =~= anims);
        assert(warnings_view(ws@) =~= w0 + storyboard_warnings(*sb));
    }
}

/// The warnings of a conversion (see `document_warnings`).
pub fn collect_warnings(document: &DocumentFacts, options: &crate::ConvertOptions) -> (ws: Vec<Warning>)
    ensures
        warnings_view(ws@) == document_warnings(*document, options.storyboard@),
{
    let mut ws: Vec<Warning> = Vec::new();
    let n0 = document.warnings.len();
    let mut i: usize = 0;
    while i < n0
        invariant
            n0 == document.warnings@.len(),
            i <= n0,
            warnings_view(ws@) == warnings_view(document.warnings@.take(i as int)),
        decreases n0 - i,
    {
        push_warning(&mut ws, copy_warning(&document.warnings[i]));
        proof {
            assert(warnings_view(ws@) =~= warnings_view(document.warnings@.take(i + 1)));
        }
        i = i + 1;
    }
    proof {
        assert(document.warnings@.take(n0 as int) =~= document.warnings@);
    }
    let ghost w1 = warnings_view(ws@);
    let ghost roots = document.unknown_children@.map_values(
        |t: String| general("unsupported.root_child"@, "root child <"@ + t@ + "> is not converted"@),
    );
    let n1 = document.unknown_children.len();
    let mut j: usize = 0;
    proof {
        assert(w1 =~= w1 + roots.take(0));
    }
    while j < n1
        invariant
            n1 == document.unknown_children@.len(),
            j <= n1,
            roots == document.unknown_children@.map_values(
                |t: String| general("unsupported.root_child"@, "root child <"@ + t@ + "> is not converted"@),
            ),
            warnings_view(ws@) == w1 + roots.take(j as int),
        decreases n1 - j,
    {
        push_warning(
            &mut ws,
            Warning::new(
                owned("unsupported.root_child"),
                owned("root child <").concat(document.unknown_children[j].as_str()).concat("> is not converted"),
            ),
        );
        proof {
            assert(warnings_view(ws@) =~= w1 + roots.take(j + 1));
        }
        j = j + 1;
    }
    proof {
        assert(roots.take(n1 as int) =~= roots);
    }
    let ghost w2 = warnings_view(ws@);
    let selected = normalize(options.storyboard.as_str());
    let ghost sbs = document.storyboards@;
    let n2 = document.storyboards.len();
    let mut matched = false;
    let mut k: usize = 0;
    proof {
        assert(sbs.take(0) =~= Seq::<Storyboard>::empty());
        assert(w2 =~= w2 + storyboards_warnings(sbs.take(0)));
    }
    while k < n2
        invariant
            sbs == document.storyboards@,
            n2 == sbs.len(),
            k <= n2,
            selected@ == normal(options.storyboard@),
            matched == exists|m: int| 0 <= m < k && normal(effective_type_of((#[trigger] sbs[m]).storyboard_type)) == selected@,
            warnings_view(ws@) == w2 + storyboards_warnings(sbs.take(k as int)),
        decreases n2 - k,
    {
        let sb = &document.storyboards[k];
        let t = normalize(sb.effective_type());
        if str_eq(t.as_str(), selected.as_str()) {
            matched = true;
        }
        push_storyboard(&mut ws, sb);
        proof {
            assert(sbs.take(k + 1).drop_last() =~= sbs.take(k as int));
            assert(sbs.take(k + 1).last() == sbs[k as int]);
            assert(warnings_view(ws@) =~= w2 + storyboards_warnings(sbs.take(k + 1)));
        }
        k = k + 1;
    }
    proof {
        assert(sbs.take(n2 as int) =~= sbs);
    }
    let ghost w3 = warnings_view(ws@);
    if n2 > 0 && !matched {
        push_warning(
            &mut ws,
            Warning::new(
                owned("unsupported.storyboard.missing"),
                owned("no storyboard named '").concat(options.storyboard.as_str()).concat(
                    "' was found; static layout is used",
                ),
            ),
        );
    }
    let ghost w4 = warnings_view(ws@);
    let ghost layers = document.layers@;
    let n3 = document.layers.len();
    let mut l: usize = 0;
    proof {
        assert(layers.take(0) =~= Seq::<LayerFacts>::empty());
        assert(w4 =~= w4 + layers_warnings(layers.take(0)));
    }
    while l < n3
        invariant
            layers == document.layers@,
            n3 == layers.len(),
            l <= n3,
            warnings_view(ws@) == w4 + layers_warnings(layers.take(l as int)),
        decreases n3 - l,
    {
        walk_layer(&document.layers[l], &mut ws);
        proof {
            assert(layers.take(l + 1).drop_last() =~= layers.take(l as int));
            assert(layers.take(l + 1).last() == layers[l as int]);
            assert(warnings_view(ws@) =~= w4 + layers_warnings(layers.take(l + 1)));
        }
        l = l + 1;
    }
    proof {
        assert(layers.take(n3 as int) =~= layers);
        let missing = if sbs.len() > 0 && !selects_some(sbs, normal(options.storyboard@)) {
            seq![
                general(
                    "unsupported.storyboard.missing"@,
                    "no storyboard named '"@ + options.storyboard@ + "' was found; static layout is used"@,
                ),
            ]
        } else {
            Seq::empty()
        };
        assert(w4 =~= w3 + missing);
        assert(warnings_view(ws@) =~= document_warnings(*document, options.storyboard@));
    }
    ws
}

/// An object of a layer as the sizing of bound objects sees it: its name,
/// whether it is itself bound to another, whether it is shown, and whether
/// it is fully transparent.
#[derive(Debug)]
pub struct BoundingCandidate {
    pub name: String,
    pub bounded: bool,
    pub visible: bool,
    pub transparent: bool,
}

/// The position of the first candidate named `name` at or after `from`.
pub open spec fn first_named(cs: Seq<BoundingCandidate>, name: Seq<char>, from: int) -> Option<int>
    decreases cs.len() - from,
{
    if from < 0 || from >= cs.len() {
        None
    } else if cs[from].name@ == name {
        Some(from)
    } else {
        first_named(cs, name, from + 1)
    }
}

/// The object of the same layer that a bound object takes its size from:
/// the first one with the bound name, unless that one is itself bound,
/// hidden or transparent, in which case nothing is sized.
pub open spec fn bounding_source_of(cs: Seq<BoundingCandidate>, name: Seq<char>) -> Option<int> {
    match first_named(cs, name, 0) {
        Some(i) => if cs[i].bounded || !cs[i].visible || cs[i].transparent {
            None
        } else {
            Some(i)
        },
        None => None,
    }
}

/// The object of the same layer that a bound object takes its size from
/// (see `bounding_source_of`).
pub fn bounding_source(cs: &Vec<BoundingCandidate>, name: &str) -> (res: Option<usize>)
    ensures
        match bounding_source_of(cs@, name@) {
            Some(i) => res == Some(i as usize),
            None => res is None,
        },
{
    let mut i: usize = 0;
    while i < cs.len()
        invariant
            i <= cs@.len(),
            first_named(cs@, name@, 0) == first_named(cs@, name@, i as int),
        decreases cs@.len() - i,
    {
        if str_eq(cs[i].name.as_str(), name) {
            let c = &cs[i];
            if c.bounded || !c.visible || c.transparent {
                return None;
            }
            return Some(i);
        }
        i = i + 1;
    }
    None
}

} // verus!

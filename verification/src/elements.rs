//! Reading the parts of a title's XML that hold no geometry from its event
//! stream: attributes, kept elements, storyboards and their animations.
//!
//! Each reader starts just after a start tag and returns the position just
//! after the end tag that closes it. What each one reads is stated as a
//! function over the event sequence, the grammar of that part of the file.
use vstd::prelude::*;

use crate::error::Error;
use crate::model::{Animation, Bounding, ObjectKind, Storyboard, UnknownNode};
use crate::strmap::{keys_sorted, StrMap};
use crate::text::{
    eq_ignore_ascii_case, lower_seq, owned, same_ignoring_case, str_eq, to_ascii_lowercase, trim,
    trim_seq,
};
use crate::xml::{read_attributes, xml_attributes, XmlAttr, XmlEvent};

verus! {

/// Why reading stopped before the end tag it was looking for.
pub enum Stop {
    /// The input ended inside the named element.
    EndOfInput(Seq<char>),
    /// The tokeniser failed; the text is its message.
    Malformed(Seq<char>),
    /// An attribute of a start tag could not be read.
    BadAttribute,
    /// The input ended before any `Composition` element began.
    NoComposition,
}

/// The reason that an error of the library reports, for the errors that
/// reading can give.
pub open spec fn stop_of(e: Error) -> Option<Stop> {
    match e {
        Error::UnexpectedEof(s) => Some(Stop::EndOfInput(s@)),
        Error::Xml(s) => Some(Stop::Malformed(s@)),
        Error::XmlAttr(_) => Some(Stop::BadAttribute),
        Error::MissingComposition => Some(Stop::NoComposition),
        _ => None,
    }
}

/// The attributes of a start tag: later ones replace earlier ones of the
/// same name; `None` when one of them cannot be read.
pub open spec fn attr_map(a: Seq<Option<XmlAttr>>) -> Option<Map<Seq<char>, String>>
    decreases a.len(),
{
    if a.len() == 0 {
        Some(Map::empty())
    } else {
        match attr_map(a.drop_last()) {
            Some(m) => match a.last() {
                Some(x) => match x.value {
                    Some(v) => Some(m.insert(x.key@, v)),
                    None => None,
                },
                None => None,
            },
            None => None,
        }
    }
}

/// The attributes of a tag's attribute text, as `attr_map` reads them.
pub open spec fn tag_attrs(raw: Seq<char>) -> Option<Map<Seq<char>, String>> {
    attr_map(xml_attributes(raw))
}

proof fn lemma_attr_map_stuck(a: Seq<Option<XmlAttr>>, k: int)
    requires
        0 <= k <= a.len(),
        attr_map(a.take(k)) is None,
    ensures
        attr_map(a) is None,
    decreases a.len() - k,
{
    if k < a.len() {
        assert(a.take(k + 1).drop_last() =~= a.take(k));
        lemma_attr_map_stuck(a, k + 1);
    } else {
        assert(a.take(k) =~= a);
    }
}

fn bad_attribute() -> (e: Error)
    ensures
        stop_of(e) == Some(Stop::BadAttribute),
        e matches Error::XmlAttr(m) && m@ == "malformed attribute"@,
{
    Error::XmlAttr(owned("malformed attribute"))
}

/// The attributes of a start tag from its attribute text.
pub fn attributes(raw: &str) -> (res: Result<StrMap<String>, Error>)
    ensures
        match tag_attrs(raw@) {
            Some(m) => res matches Ok(map) && map@ == m,
            None => res matches Err(e) && stop_of(e) == Some(Stop::BadAttribute),
        },
{
    let attrs = read_attributes(raw);
    let mut map: StrMap<String> = StrMap::new();
    let n = attrs.len();
    let mut i: usize = 0;
    proof {
        assert(attrs@.take(0) =~= Seq::<Option<XmlAttr>>::empty());
        assert(map@ =~= Map::<Seq<char>, String>::empty());
    }
    while i < n
        invariant
            attrs@ == xml_attributes(raw@),
            n == attrs@.len(),
            i <= n,
            attr_map(attrs@.take(i as int)) == Some(map@),
        decreases n - i,
    {
        proof {
            assert(attrs@.take(i + 1).drop_last() =~= attrs@.take(i as int));
            assert(attrs@.take(i + 1).last() == attrs@[i as int]);
        }
        match &attrs[i] {
            Some(a) => match &a.value {
                Some(v) => {
                    map.insert(a.key.clone(), v.clone());
                },
                None => {
                    proof {
                        lemma_attr_map_stuck(attrs@, i + 1);
                    }
                    return Err(bad_attribute());
                },
            },
            None => {
                proof {
                    lemma_attr_map_stuck(attrs@, i + 1);
                }
                return Err(bad_attribute());
            },
        }
        i = i + 1;
    }
    proof {
        assert(attrs@.take(n as int) =~= attrs@);
    }
    Ok(map)
}

/// The value stored under `key`, if any.
pub open spec fn attr_get(m: Map<Seq<char>, String>, key: Seq<char>) -> Option<String> {
    if m.contains_key(key) {
        Some(m[key])
    } else {
        None
    }
}

/// A flag attribute: `true`, `1` or `yes`, ignoring ASCII case and the white
/// space around it.
pub open spec fn flag_value(value: Option<String>) -> bool {
    match value {
        Some(s) => {
            let t = lower_seq(trim_seq(s@));
            t == "true"@ || t == "1"@ || t == "yes"@
        },
        None => false,
    }
}

/// Whether a flag attribute is set (see `flag_value`).
pub fn parse_bool(value: Option<&String>) -> (res: bool)
    ensures
        res == flag_value(
            match value {
                Some(s) => Some(*s),
                None => None,
            },
        ),
{
    match value {
        Some(s) => {
            let t = to_ascii_lowercase(trim(s.as_str()));
            str_eq(t.as_str(), "true") || str_eq(t.as_str(), "1") || str_eq(t.as_str(), "yes")
        },
        None => false,
    }
}

/// The first of two attributes that is present.
pub open spec fn either(m: Map<Seq<char>, String>, a: Seq<char>, b: Seq<char>) -> Option<String> {
    match attr_get(m, a) {
        Some(v) => Some(v),
        None => attr_get(m, b),
    }
}

fn get_either<'a>(attrs: &'a StrMap<String>, a: &str, b: &str) -> (res: Option<&'a String>)
    ensures
        match res {
            Some(s) => either(attrs@, a@, b@) == Some(*s),
            None => either(attrs@, a@, b@) is None,
        },
{
    match attrs.get(a) {
        Some(v) => Some(v),
        None => attrs.get(b),
    }
}

fn has_char(s: &str, c: char) -> (res: bool)
    ensures
        res == s@.contains(c),
{
    let cs = crate::text::chars_of(s);
    let n = cs.len();
    let mut i: usize = 0;
    while i < n
        invariant
            cs@ == s@,
            n == cs@.len(),
            i <= n,
            forall|j: int| 0 <= j < i ==> cs@[j] != c,
        decreases n - i,
    {
        if cs[i] == c {
            assert(s@[i as int] == c);
            return true;
        }
        i = i + 1;
    }
    false
}

/// Tags that name an object: no `.`, and none of the structural tags.
pub open spec fn object_tag(tag: Seq<char>) -> bool {
    &&& !tag.contains('.')
    &&& tag != "Composition"@
    &&& tag != "Layer"@
    &&& tag != "Storyboard"@
    &&& tag != "Brush"@
    &&& tag != "Bounding"@
    &&& tag != "Fill"@
    &&& tag != "Stroke"@
}

/// Tags that name an animation: no `.`, and none of the structural tags.
pub open spec fn animation_tag(tag: Seq<char>) -> bool {
    &&& !tag.contains('.')
    &&& tag != "Composition"@
    &&& tag != "Layer"@
    &&& tag != "Storyboard"@
    &&& tag != "Storyboard.Animations"@
    &&& tag != "Animations"@
}

/// Whether an element with this tag is read as an object.
pub fn is_object_tag(tag: &str) -> (res: bool)
    ensures
        res == object_tag(tag@),
{
    !has_char(tag, '.') && !str_eq(tag, "Composition") && !str_eq(tag, "Layer") && !str_eq(
        tag,
        "Storyboard",
    ) && !str_eq(tag, "Brush") && !str_eq(tag, "Bounding") && !str_eq(tag, "Fill") && !str_eq(
        tag,
        "Stroke",
    )
}

/// Whether an element inside a storyboard is read as an animation.
pub fn is_animation_tag(tag: &str) -> (res: bool)
    ensures
        res == animation_tag(tag@),
{
    !has_char(tag, '.') && !str_eq(tag, "Composition") && !str_eq(tag, "Layer") && !str_eq(
        tag,
        "Storyboard",
    ) && !str_eq(tag, "Storyboard.Animations") && !str_eq(tag, "Animations")
}

/// Whether `key` is one of the `known` names, ignoring ASCII case.
pub open spec fn is_known(known: Seq<&str>, key: Seq<char>) -> bool {
    exists|i: int| 0 <= i < known.len() && same_ignoring_case(#[trigger] known[i]@, key)
}

/// The attributes that none of the `known` names claims.
pub open spec fn leftover(m: Map<Seq<char>, String>, known: Seq<&str>) -> Map<Seq<char>, String> {
    m.restrict(m.dom().filter(|k: Seq<char>| !is_known(known, k)))
}

fn known_key(known: &[&str], key: &str) -> (res: bool)
    ensures
        res == is_known(known@, key@),
{
    let n = known.len();
    let mut i: usize = 0;
    while i < n
        invariant
            n == known@.len(),
            i <= n,
            forall|j: int| 0 <= j < i ==> !same_ignoring_case(#[trigger] known@[j]@, key@),
        decreases n - i,
    {
        if eq_ignore_ascii_case(known[i], key) {
            return true;
        }
        i = i + 1;
    }
    false
}

/// The attributes left once the `known` ones are taken.
pub fn leftover_attrs(attrs: &StrMap<String>, known: &[&str]) -> (res: StrMap<String>)
    ensures
        res@ == leftover(attrs@, known@),
{
    let n = attrs.len();
    let ghost es = attrs.spec_entries();
    proof {
        attrs.lemma_listing();
    }
    let mut out: StrMap<String> = StrMap::new();
    let mut i: usize = 0;
    while i < n
        invariant
            es == attrs.spec_entries(),
            keys_sorted(es),
            attrs@ == crate::strmap::map_of(es),
            n == es.len(),
            i <= n,
            forall|j: int|
                0 <= j < es.len() ==> attrs@.contains_key(#[trigger] es[j].0) && attrs@[es[j].0]
                    == es[j].1,
            forall|k: Seq<char>|
                #[trigger] out@.contains_key(k) <==> (exists|j: int|
                    0 <= j < i && #[trigger] es[j].0 == k) && !is_known(known@, k),
            forall|k: Seq<char>| #[trigger] out@.contains_key(k) ==> out@[k] == attrs@[k],
        decreases n - i,
    {
        let key = attrs.key_at(i);
        if !known_key(known, key.as_str()) {
            out.insert(key.clone(), attrs.value_at(i).clone());
        }
        proof {
            assert forall|k: Seq<char>|
                #[trigger] out@.contains_key(k) <==> (exists|j: int|
                    0 <= j < i + 1 && #[trigger] es[j].0 == k) && !is_known(known@, k) by {
                if exists|j: int| 0 <= j < i + 1 && #[trigger] es[j].0 == k {
                    let j = choose|j: int| 0 <= j < i + 1 && #[trigger] es[j].0 == k;
                    if j < i {
                        assert(exists|j: int| 0 <= j < i && #[trigger] es[j].0 == k);
                    }
                }
                if exists|j: int| 0 <= j < i && #[trigger] es[j].0 == k {
                    assert(exists|j: int| 0 <= j < i + 1 && #[trigger] es[j].0 == k);
                }
            }
        }
        i = i + 1;
    }
    proof {
        assert forall|k: Seq<char>| #[trigger]
            out@.contains_key(k) <==> leftover(attrs@, known@).contains_key(k) by {
            if attrs@.contains_key(k) {
                let j = choose|j: int| 0 <= j < es.len() && #[trigger] es[j].0 == k;
                assert(es[j].0 == k);
            }
        }
        assert(out@ =~= leftover(attrs@, known@));
    }
    out
}

/// An object sized to another: its `Object`, with `Padding` or no padding.
pub open spec fn bounding_of(m: Map<Seq<char>, String>) -> Option<(Seq<char>, Seq<char>)> {
    match attr_get(m, "Object"@) {
        Some(o) => Some(
            (
                o@,
                match attr_get(m, "Padding"@) {
                    Some(p) => p@,
                    None => "0,0,0,0"@,
                },
            ),
        ),
        None => None,
    }
}

/// The sizing an object's `Bounding` element asks for, if it names an
/// object.
pub fn bounding_from_attrs(attrs: &StrMap<String>) -> (res: Option<Bounding>)
    ensures
        match bounding_of(attrs@) {
            Some((o, p)) => res matches Some(b) && b.object@ == o && b.padding@ == p,
            None => res is None,
        },
{
    match attrs.get("Object") {
        Some(object) => {
            let padding = match attrs.get("Padding") {
                Some(p) => p.clone(),
                None => owned("0,0,0,0"),
            };
            Some(Bounding { object: object.clone(), padding })
        },
        None => None,
    }
}

/// The image a brush element points at: its own `Source`, else the first
/// `Brush.Bitmap` or `Bitmap` child that has one, searched depth first.
pub open spec fn bitmap_source(node: NodeV) -> Option<String>
    decreases node,
{
    if node.attributes.contains_key("Source"@) {
        Some(node.attributes["Source"@])
    } else {
        bitmap_source_in(node.children)
    }
}

/// The first source found among bitmap children, in order.
pub open spec fn bitmap_source_in(children: Seq<NodeV>) -> Option<String>
    decreases children,
{
    if children.len() == 0 {
        None
    } else {
        let c = children[0];
        let here = if c.tag == "Brush.Bitmap"@ || c.tag == "Bitmap"@ {
            bitmap_source(c)
        } else {
            None
        };
        match here {
            Some(s) => Some(s),
            None => bitmap_source_in(children.drop_first()),
        }
    }
}

/// The views of kept elements are the elements' views, one for one.
pub proof fn lemma_nodes_view(s: Seq<UnknownNode>)
    ensures
        nodes_view(s).len() == s.len(),
        forall|i: int| 0 <= i < s.len() ==> #[trigger] nodes_view(s)[i] == node_view(s[i]),
    decreases s.len(),
{
    if s.len() > 0 {
        lemma_nodes_view(s.drop_last());
    }
}

/// The image source of a brush element (see `bitmap_source`).
pub fn bitmap_source_from_node(node: &UnknownNode) -> (res: Option<String>)
    ensures
        res == bitmap_source(node_view(*node)),
    decreases node,
{
    if let Some(source) = node.attributes.get("Source") {
        return Some(source.clone());
    }
    let ghost kids = nodes_view(node.children@);
    proof {
        lemma_nodes_view(node.children@);
        assert(kids.skip(0) =~= kids);
    }
    let n = node.children.len();
    let mut i: usize = 0;
    while i < n
        invariant
            n == node.children@.len(),
            kids == nodes_view(node.children@),
            kids.len() == n,
            forall|j: int| 0 <= j < n ==> #[trigger] kids[j] == node_view(node.children@[j]),
            i <= n,
            !node.attributes@.contains_key("Source"@),
            bitmap_source(node_view(*node)) == bitmap_source_in(kids.skip(i as int)),
        decreases n - i,
    {
        let child = &node.children[i];
        let ghost rest = kids.skip(i as int);
        assert(rest[0] == node_view(*child));
        assert(rest.drop_first() =~= kids.skip(i + 1));
        if str_eq(child.tag.as_str(), "Brush.Bitmap") || str_eq(child.tag.as_str(), "Bitmap") {
            if let Some(source) = bitmap_source_from_node(child) {
                return Some(source);
            }
        }
        i = i + 1;
    }
    None
}

pub(crate) fn eof_error(label: &str) -> (e: Error)
    ensures
        stop_of(e) == Some(Stop::EndOfInput(label@)),
{
    Error::UnexpectedEof(owned(label))
}

pub(crate) fn xml_error(message: &String) -> (e: Error)
    ensures
        stop_of(e) == Some(Stop::Malformed(message@)),
{
    Error::Xml(message.clone())
}

/// Where the content of an element ends: the position just after the end
/// tag that closes it, counting nested start and end tags from `depth`.
pub open spec fn skip_from(ev: Seq<XmlEvent>, pos: int, depth: int) -> Result<int, Stop>
    decreases ev.len() - pos,
{
    if pos < 0 || pos >= ev.len() {
        Err(Stop::EndOfInput("skip"@))
    } else {
        match ev[pos] {
            XmlEvent::Open { empty, .. } => if empty {
                skip_from(ev, pos + 1, depth)
            } else {
                skip_from(ev, pos + 1, depth + 1)
            },
            XmlEvent::End { .. } => if depth <= 1 {
                Ok(pos + 1)
            } else {
                skip_from(ev, pos + 1, depth - 1)
            },
            XmlEvent::Eof => Err(Stop::EndOfInput("skip"@)),
            XmlEvent::Failed(m) => Err(Stop::Malformed(m@)),
            _ => skip_from(ev, pos + 1, depth),
        }
    }
}

/// Passes over the content of an element whose start tag came just before
/// `pos` (see `skip_from`).
pub fn skip_to_end(ev: &Vec<XmlEvent>, pos: usize) -> (res: Result<usize, Error>)
    ensures
        match skip_from(ev@, pos as int, 1) {
            Ok(p) => res matches Ok(q) && q == p,
            Err(st) => res matches Err(e) && stop_of(e) == Some(st),
        },
        res matches Ok(q) ==> pos < q <= ev@.len(),
{
    let mut nested: usize = 0;
    let mut j: usize = pos;
    loop
        invariant
            pos <= j,
            nested <= j - pos,
            skip_from(ev@, j as int, nested + 1) == skip_from(ev@, pos as int, 1),
        decreases ev@.len() - j,
    {
        if j >= ev.len() {
            return Err(eof_error("skip"));
        }
        match &ev[j] {
            XmlEvent::Open { empty, .. } => {
                if !*empty {
                    nested = nested + 1;
                }
            },
            XmlEvent::End { .. } => {
                if nested == 0 {
                    return Ok(j + 1);
                }
                nested = nested - 1;
            },
            XmlEvent::Eof => {
                return Err(eof_error("skip"));
            },
            XmlEvent::Failed(m) => {
                return Err(xml_error(m));
            },
            _ => {},
        }
        j = j + 1;
    }
}

/// A kept element as a value: its tag, its attributes, its kept children in
/// order and its text.
pub struct NodeV {
    pub tag: Seq<char>,
    pub attributes: Map<Seq<char>, String>,
    pub children: Seq<NodeV>,
    pub text: Option<Seq<char>>,
}

pub open spec fn text_view(t: Option<String>) -> Option<Seq<char>> {
    match t {
        Some(s) => Some(s@),
        None => None,
    }
}

/// A kept element as a value (see `NodeV`).
pub open spec fn node_view(n: UnknownNode) -> NodeV
    decreases n,
{
    NodeV {
        tag: n.tag@,
        attributes: n.attributes@,
        children: nodes_view(n.children@),
        text: text_view(n.text),
    }
}

/// Kept elements as values, in order.
pub open spec fn nodes_view(s: Seq<UnknownNode>) -> Seq<NodeV>
    decreases s,
{
    if s.len() == 0 {
        Seq::empty()
    } else {
        nodes_view(s.drop_last()).push(node_view(s.last()))
    }
}

/// Text that is only white space is dropped.
pub open spec fn kept_text(t: Seq<char>) -> Option<Seq<char>> {
    if trim_seq(t).len() == 0 {
        None
    } else {
        Some(t)
    }
}

/// An element without content.
pub open spec fn leaf(tag: Seq<char>, attrs: Map<Seq<char>, String>) -> NodeV {
    NodeV { tag, attributes: attrs, children: Seq::empty(), text: None }
}

/// A kept element whose start tag came just before `pos`: its content up to
/// the end tag with its own name, and the position just after that end tag.
pub open spec fn read_node(
    ev: Seq<XmlEvent>,
    pos: int,
    tag: Seq<char>,
    attrs: Map<Seq<char>, String>,
) -> Result<(NodeV, int), Stop>
    decreases ev.len() - pos, 1int,
{
    match read_content(ev, pos, tag, Seq::empty(), Seq::empty()) {
        Ok((kids, text, p)) => Ok(
            (NodeV { tag, attributes: attrs, children: kids, text: kept_text(text) }, p),
        ),
        Err(e) => Err(e),
    }
}

/// The content of a kept element from `pos` on, given the children and text
/// read before `pos`: every start tag is a child, read whole; text and CDATA
/// are joined; an end tag with the element's own name closes it.
pub open spec fn read_content(
    ev: Seq<XmlEvent>,
    pos: int,
    tag: Seq<char>,
    kids: Seq<NodeV>,
    text: Seq<char>,
) -> Result<(Seq<NodeV>, Seq<char>, int), Stop>
    decreases ev.len() - pos, 0int,
{
    if pos < 0 || pos >= ev.len() {
        Err(Stop::EndOfInput("unknown"@))
    } else {
        match ev[pos] {
            XmlEvent::Open { name, attrs, empty } => match tag_attrs(attrs@) {
                None => Err(Stop::BadAttribute),
                Some(m) => if empty {
                    read_content(ev, pos + 1, tag, kids.push(leaf(name@, m)), text)
                } else {
                    match read_node(ev, pos + 1, name@, m) {
                        Ok((child, p)) => if pos < p <= ev.len() {
                            read_content(ev, p, tag, kids.push(child), text)
                        } else {
                            Err(Stop::EndOfInput("unknown"@))
                        },
                        Err(e) => Err(e),
                    }
                },
            },
            XmlEvent::Text(t) => read_content(ev, pos + 1, tag, kids, text + t@),
            XmlEvent::CData(t) => read_content(ev, pos + 1, tag, kids, text + t@),
            XmlEvent::End { name } => if name@ == tag {
                Ok((kids, text, pos + 1))
            } else {
                read_content(ev, pos + 1, tag, kids, text)
            },
            XmlEvent::Eof => Err(Stop::EndOfInput("unknown"@)),
            XmlEvent::Failed(m) => Err(Stop::Malformed(m@)),
            XmlEvent::Other => read_content(ev, pos + 1, tag, kids, text),
        }
    }
}

/// A kept element: `empty` for a self-closing tag, else its content from
/// `pos` on (see `read_node`). Returns the element and the position after it.
pub fn parse_unknown(
    ev: &Vec<XmlEvent>,
    pos: usize,
    tag: &str,
    attributes: StrMap<String>,
    empty: bool,
) -> (res: Result<(UnknownNode, usize), Error>)
    ensures
        empty ==> (res matches Ok((n, p)) && p == pos && node_view(n) == leaf(tag@, attributes@)),
        !empty ==> match read_node(ev@, pos as int, tag@, attributes@) {
            Ok((v, p)) => res matches Ok((n, q)) && q == p && node_view(n) == v,
            Err(st) => res matches Err(e) && stop_of(e) == Some(st),
        },
        !empty ==> (res matches Ok((n, q)) ==> pos < q <= ev@.len()),
    decreases ev@.len() - pos,
{
    if empty {
        let n = UnknownNode { tag: owned(tag), attributes, children: Vec::new(), text: None };
        proof {
            assert(nodes_view(n.children@) =~= Seq::<NodeV>::empty());
        }
        return Ok((n, pos));
    }
    let ghost start = read_content(ev@, pos as int, tag@, Seq::empty(), Seq::empty());
    let mut children: Vec<UnknownNode> = Vec::new();
    let mut text = String::new();
    let mut j: usize = pos;
    proof {
        reveal_strlit("");
        assert(nodes_view(children@) =~= Seq::<NodeV>::empty());
    }
    loop
        invariant
            !empty,
            pos <= j,
            start == read_content(ev@, pos as int, tag@, Seq::empty(), Seq::empty()),
            read_content(ev@, j as int, tag@, nodes_view(children@), text@) == start,
        decreases ev@.len() - j,
    {
        if j >= ev.len() {
            return Err(eof_error("unknown"));
        }
        match &ev[j] {
            XmlEvent::Open { name, attrs, empty: e } => {
                let m = match self::attributes(attrs.as_str()) {
                    Ok(m) => m,
                    Err(err) => {
                        return Err(err);
                    },
                };
                let ghost before = children@;
                if *e {
                    let child = UnknownNode {
                        tag: name.clone(),
                        attributes: m,
                        children: Vec::new(),
                        text: None,
                    };
                    proof {
                        assert(nodes_view(child.children@) =~= Seq::<NodeV>::empty());
                    }
                    children.push(child);
                    proof {
                        assert(children@.drop_last() =~= before);
                        assert(nodes_view(children@) == nodes_view(before).push(node_view(child)));
                    }
                    j = j + 1;
                    assert(read_content(ev@, j as int, tag@, nodes_view(children@), text@) == start);
                } else {
                    let (child, p) = match parse_unknown(ev, j + 1, name.as_str(), m, false) {
                        Ok(r) => r,
                        Err(err) => {
                            return Err(err);
                        },
                    };
                    children.push(child);
                    proof {
                        assert(children@.drop_last() =~= before);
                        assert(nodes_view(children@) == nodes_view(before).push(node_view(child)));
                    }
                    j = p;
                    assert(read_content(ev@, j as int, tag@, nodes_view(children@), text@) == start);
                }
            },
            XmlEvent::Text(t) => {
                let ghost before = text@;
                text.append(t.as_str());
                assert(text@ == before + t@);
                j = j + 1;
            },
            XmlEvent::CData(t) => {
                let ghost before = text@;
                text.append(t.as_str());
                assert(text@ == before + t@);
                j = j + 1;
            },
            XmlEvent::End { name } => {
                if str_eq(name.as_str(), tag) {
                    let kept = if trim(text.as_str()).is_empty() {
                        None
                    } else {
                        Some(text)
                    };
                    let n = UnknownNode { tag: owned(tag), attributes, children, text: kept };
                    return Ok((n, j + 1));
                }
                j = j + 1;
            },
            XmlEvent::Eof => {
                return Err(eof_error("unknown"));
            },
            XmlEvent::Failed(m) => {
                return Err(xml_error(m));
            },
            XmlEvent::Other => {
                j = j + 1;
            },
        }
    }
}

/// The attributes an animation reads itself; the others are kept as they
/// are.
pub open spec fn animation_keys() -> Seq<&'static str> {
    seq!["Object", "Duration", "Delay", "Interpolation", "Direction", "Reverse", "Reversed", "CenterAxis", "Speed"]
}

/// The attributes a storyboard reads itself.
pub open spec fn storyboard_keys() -> Seq<&'static str> {
    seq!["Type", "Reverse", "Reversed", "DataName"]
}

/// An animation of the given kind read from the given attributes.
pub open spec fn animation_fits(a: Animation, kind: Seq<char>, m: Map<Seq<char>, String>) -> bool {
    &&& a.kind@ == kind
    &&& a.object == attr_get(m, "Object"@)
    &&& a.duration == attr_get(m, "Duration"@)
    &&& a.delay == attr_get(m, "Delay"@)
    &&& a.interpolation == attr_get(m, "Interpolation"@)
    &&& a.direction == attr_get(m, "Direction"@)
    &&& a.reversed == flag_value(either(m, "Reverse"@, "Reversed"@))
    &&& a.center_axis == attr_get(m, "CenterAxis"@)
    &&& a.speed == attr_get(m, "Speed"@)
    &&& !a.muted
    &&& a.extra_attrs@ == leftover(m, animation_keys())
}

pub(crate) fn opt_attr(attrs: &StrMap<String>, key: &str) -> (res: Option<String>)
    ensures
        res == attr_get(attrs@, key@),
{
    match attrs.get(key) {
        Some(v) => Some(v.clone()),
        None => None,
    }
}

/// The animation of the given kind that the given attributes describe.
pub fn animation_from(kind: &str, attrs: &StrMap<String>) -> (a: Animation)
    ensures
        animation_fits(a, kind@, attrs@),
{
    let known: [&str; 9] = [
        "Object",
        "Duration",
        "Delay",
        "Interpolation",
        "Direction",
        "Reverse",
        "Reversed",
        "CenterAxis",
        "Speed",
    ];
    assert(known@ =~= animation_keys());
    Animation {
        kind: owned(kind),
        object: opt_attr(attrs, "Object"),
        duration: opt_attr(attrs, "Duration"),
        delay: opt_attr(attrs, "Delay"),
        interpolation: opt_attr(attrs, "Interpolation"),
        direction: opt_attr(attrs, "Direction"),
        reversed: parse_bool(get_either(attrs, "Reverse", "Reversed")),
        center_axis: opt_attr(attrs, "CenterAxis"),
        speed: opt_attr(attrs, "Speed"),
        muted: false,
        extra_attrs: leftover_attrs(attrs, &known),
    }
}

/// An animation element whose start tag came just before `pos`: read from its
/// attributes; its content, if any, is passed over.
pub fn parse_animation(
    ev: &Vec<XmlEvent>,
    pos: usize,
    tag: &str,
    attributes: &StrMap<String>,
    empty: bool,
) -> (res: Result<(Animation, usize), Error>)
    ensures
        empty ==> (res matches Ok((a, p)) && p == pos && animation_fits(a, tag@, attributes@)),
        !empty ==> match skip_from(ev@, pos as int, 1) {
            Ok(p) => res matches Ok((a, q)) && q == p && animation_fits(a, tag@, attributes@),
            Err(st) => res matches Err(e) && stop_of(e) == Some(st),
        },
        !empty ==> (res matches Ok((a, q)) ==> pos < q <= ev@.len()),
{
    let next = if empty {
        pos
    } else {
        match skip_to_end(ev, pos) {
            Ok(p) => p,
            Err(e) => {
                return Err(e);
            },
        }
    };
    Ok((animation_from(tag, attributes), next))
}

/// An animation as its kind and attributes.
pub type AnimItem = (Seq<char>, Map<Seq<char>, String>);

/// Animations read as items.
pub open spec fn anims_fit(anims: Seq<Animation>, items: Seq<AnimItem>) -> bool {
    &&& anims.len() == items.len()
    &&& forall|i: int| 0 <= i < anims.len() ==> animation_fits(#[trigger] anims[i], items[i].0, items[i].1)
}

/// One element inside a storyboard, whose start tag is at `pos`: an animation
/// when its tag names one, else a kept element. Returns the lists with it
/// added and the position after it.
pub open spec fn read_item(
    ev: Seq<XmlEvent>,
    pos: int,
    name: Seq<char>,
    m: Map<Seq<char>, String>,
    empty: bool,
    anims: Seq<AnimItem>,
    kids: Seq<NodeV>,
) -> Result<(Seq<AnimItem>, Seq<NodeV>, int), Stop> {
    if animation_tag(name) {
        if empty {
            Ok((anims.push((name, m)), kids, pos + 1))
        } else {
            match skip_from(ev, pos + 1, 1) {
                Ok(p) => Ok((anims.push((name, m)), kids, p)),
                Err(e) => Err(e),
            }
        }
    } else {
        if empty {
            Ok((anims, kids.push(leaf(name, m)), pos + 1))
        } else {
            match read_node(ev, pos + 1, name, m) {
                Ok((c, p)) => Ok((anims, kids.push(c), p)),
                Err(e) => Err(e),
            }
        }
    }
}

/// The content of a `Storyboard.Animations` (or `Animations`) element from
/// `pos` on, up to the end tag with its own name.
pub open spec fn read_anims(
    ev: Seq<XmlEvent>,
    pos: int,
    tag: Seq<char>,
    anims: Seq<AnimItem>,
    kids: Seq<NodeV>,
) -> Result<(Seq<AnimItem>, Seq<NodeV>, int), Stop>
    decreases ev.len() - pos,
{
    if pos < 0 || pos >= ev.len() {
        Err(Stop::EndOfInput("Storyboard.Animations"@))
    } else {
        match ev[pos] {
            XmlEvent::Open { name, attrs, empty } => match tag_attrs(attrs@) {
                None => Err(Stop::BadAttribute),
                Some(m) => match read_item(ev, pos, name@, m, empty, anims, kids) {
                    Ok((a, k, p)) => if pos < p <= ev.len() {
                        read_anims(ev, p, tag, a, k)
                    } else {
                        Err(Stop::EndOfInput("Storyboard.Animations"@))
                    },
                    Err(e) => Err(e),
                },
            },
            XmlEvent::End { name } => if name@ == tag {
                Ok((anims, kids, pos + 1))
            } else {
                read_anims(ev, pos + 1, tag, anims, kids)
            },
            XmlEvent::Eof => Err(Stop::EndOfInput("Storyboard.Animations"@)),
            XmlEvent::Failed(m) => Err(Stop::Malformed(m@)),
            _ => read_anims(ev, pos + 1, tag, anims, kids),
        }
    }
}

/// Whether a start tag opens a list of animations.
pub open spec fn opens_animations(name: Seq<char>, empty: bool) -> bool {
    !empty && (name == "Storyboard.Animations"@ || name == "Animations"@)
}

/// The content of a `Storyboard` element from `pos` on, up to the end tag
/// `Storyboard`.
pub open spec fn read_board(
    ev: Seq<XmlEvent>,
    pos: int,
    anims: Seq<AnimItem>,
    kids: Seq<NodeV>,
) -> Result<(Seq<AnimItem>, Seq<NodeV>, int), Stop>
    decreases ev.len() - pos,
{
    if pos < 0 || pos >= ev.len() {
        Err(Stop::EndOfInput("Storyboard"@))
    } else {
        match ev[pos] {
            XmlEvent::Open { name, attrs, empty } => {
                let step = if opens_animations(name@, empty) {
                    read_anims(ev, pos + 1, name@, anims, kids)
                } else {
                    match tag_attrs(attrs@) {
                        None => Err(Stop::BadAttribute),
                        Some(m) => read_item(ev, pos, name@, m, empty, anims, kids),
                    }
                };
                match step {
                    Ok((a, k, p)) => if pos < p <= ev.len() {
                        read_board(ev, p, a, k)
                    } else {
                        Err(Stop::EndOfInput("Storyboard"@))
                    },
                    Err(e) => Err(e),
                }
            },
            XmlEvent::End { name } => if name@ == "Storyboard"@ {
                Ok((anims, kids, pos + 1))
            } else {
                read_board(ev, pos + 1, anims, kids)
            },
            XmlEvent::Eof => Err(Stop::EndOfInput("Storyboard"@)),
            XmlEvent::Failed(m) => Err(Stop::Malformed(m@)),
            _ => read_board(ev, pos + 1, anims, kids),
        }
    }
}

fn push_item(
    ev: &Vec<XmlEvent>,
    j: usize,
    name: &String,
    m: StrMap<String>,
    empty: bool,
    anims: &mut Vec<Animation>,
    kids: &mut Vec<UnknownNode>,
    Ghost(items): Ghost<Seq<AnimItem>>,
) -> (res: Result<usize, Error>)
    requires
        j < ev@.len(),
        anims_fit(old(anims)@, items),
    ensures
        match read_item(ev@, j as int, name@, m@, empty, items, nodes_view(old(kids)@)) {
            Ok((a, k, p)) => res matches Ok(q) && q == p && anims_fit(final(anims)@, a)
                && nodes_view(final(kids)@) == k,
            Err(st) => res matches Err(e) && stop_of(e) == Some(st),
        },
        res matches Ok(q) ==> j < q <= ev@.len(),
{
    let ghost old_kids = kids@;
    let n = ev.len();
    assert(j + 1 <= n);
    if is_animation_tag(name.as_str()) {
        let (a, p) = match parse_animation(ev, j + 1, name.as_str(), &m, empty) {
            Ok(r) => r,
            Err(e) => {
                return Err(e);
            },
        };
        let ghost before = anims@;
        anims.push(a);
        proof {
            assert forall|i: int| 0 <= i < anims@.len() implies animation_fits(
                #[trigger] anims@[i],
                items.push((name@, m@))[i].0,
                items.push((name@, m@))[i].1,
            ) by {
                if i < before.len() {
                    assert(anims@[i] == before[i]);
                }
            }
        }
        Ok(if empty {
            j + 1
        } else {
            p
        })
    } else {
        let (c, p) = match parse_unknown(ev, j + 1, name.as_str(), m, empty) {
            Ok(r) => r,
            Err(e) => {
                return Err(e);
            },
        };
        kids.push(c);
        proof {
            assert(kids@.drop_last() =~= old_kids);
        }
        Ok(if empty {
            j + 1
        } else {
            p
        })
    }
}

/// The content of a list of animations whose start tag came just before
/// `pos` (see `read_anims`), added to the storyboard's lists.
pub fn parse_animations(
    ev: &Vec<XmlEvent>,
    pos: usize,
    tag: &str,
    anims: &mut Vec<Animation>,
    kids: &mut Vec<UnknownNode>,
    Ghost(items): Ghost<Seq<AnimItem>>,
) -> (res: Result<usize, Error>)
    requires
        anims_fit(old(anims)@, items),
    ensures
        match read_anims(ev@, pos as int, tag@, items, nodes_view(old(kids)@)) {
            Ok((a, k, p)) => res matches Ok(q) && q == p && anims_fit(final(anims)@, a)
                && nodes_view(final(kids)@) == k,
            Err(st) => res matches Err(e) && stop_of(e) == Some(st),
        },
        res matches Ok(q) ==> pos < q <= ev@.len(),
{
    let ghost start = read_anims(ev@, pos as int, tag@, items, nodes_view(kids@));
    let ghost mut cur: Seq<AnimItem> = items;
    let mut j: usize = pos;
    loop
        invariant
            pos <= j,
            start == read_anims(ev@, pos as int, tag@, items, nodes_view(old(kids)@)),
            read_anims(ev@, j as int, tag@, cur, nodes_view(kids@)) == start,
            anims_fit(anims@, cur),
        decreases ev@.len() - j,
    {
        if j >= ev.len() {
            return Err(eof_error("Storyboard.Animations"));
        }
        match &ev[j] {
            XmlEvent::Open { name, attrs, empty } => {
                let m = match self::attributes(attrs.as_str()) {
                    Ok(m) => m,
                    Err(e) => {
                        return Err(e);
                    },
                };
                let ghost step = read_item(ev@, j as int, name@, m@, *empty, cur, nodes_view(kids@));
                let p = match push_item(ev, j, name, m, *empty, anims, kids, Ghost(cur)) {
                    Ok(p) => p,
                    Err(e) => {
                        return Err(e);
                    },
                };
                proof {
                    cur = step->Ok_0.0;
                }
                j = p;
            },
            XmlEvent::End { name } => {
                if str_eq(name.as_str(), tag) {
                    return Ok(j + 1);
                }
                j = j + 1;
            },
            XmlEvent::Eof => {
                return Err(eof_error("Storyboard.Animations"));
            },
            XmlEvent::Failed(m) => {
                return Err(xml_error(m));
            },
            _ => {
                j = j + 1;
            },
        }
    }
}

/// A storyboard read from its attributes and the given lists.
pub open spec fn storyboard_fits(
    sb: Storyboard,
    m: Map<Seq<char>, String>,
    anims: Seq<AnimItem>,
    kids: Seq<NodeV>,
) -> bool {
    &&& sb.storyboard_type == attr_get(m, "Type"@)
    &&& sb.reversed == flag_value(either(m, "Reverse"@, "Reversed"@))
    &&& sb.data_name == attr_get(m, "DataName"@)
    &&& sb.extra_attrs@ == leftover(m, storyboard_keys())
    &&& anims_fit(sb.animations@, anims)
    &&& nodes_view(sb.unknown_children@) == kids
}

/// A `Storyboard` element whose start tag came just before `pos`, with the
/// given attributes: `empty` for a self-closing tag, else its content (see
/// `read_board`). Returns the storyboard and the position after it.
pub fn parse_storyboard(
    ev: &Vec<XmlEvent>,
    pos: usize,
    attributes: &StrMap<String>,
    empty: bool,
) -> (res: Result<(Storyboard, usize), Error>)
    ensures
        empty ==> (res matches Ok((sb, p)) && p == pos && storyboard_fits(
            sb,
            attributes@,
            Seq::empty(),
            Seq::empty(),
        )),
        !empty ==> match read_board(ev@, pos as int, Seq::empty(), Seq::empty()) {
            Ok((a, k, p)) => res matches Ok((sb, q)) && q == p && storyboard_fits(
                sb,
                attributes@,
                a,
                k,
            ),
            Err(st) => res matches Err(e) && stop_of(e) == Some(st),
        },
{
    let known: [&str; 4] = ["Type", "Reverse", "Reversed", "DataName"];
    assert(known@ =~= storyboard_keys());
    let mut sb = Storyboard {
        storyboard_type: opt_attr(attributes, "Type"),
        reversed: parse_bool(get_either(attributes, "Reverse", "Reversed")),
        data_name: opt_attr(attributes, "DataName"),
        animations: Vec::new(),
        extra_attrs: leftover_attrs(attributes, &known),
        unknown_children: Vec::new(),
    };
    proof {
        assert(nodes_view(sb.unknown_children@) =~= Seq::<NodeV>::empty());
    }
    if empty {
        return Ok((sb, pos));
    }
    let ghost start = read_board(ev@, pos as int, Seq::empty(), Seq::empty());
    let ghost mut cur: Seq<AnimItem> = Seq::empty();
    let mut j: usize = pos;
    loop
        invariant
            !empty,
            pos <= j,
            start == read_board(ev@, pos as int, Seq::empty(), Seq::empty()),
            read_board(ev@, j as int, cur, nodes_view(sb.unknown_children@)) == start,
            anims_fit(sb.animations@, cur),
            sb.storyboard_type == attr_get(attributes@, "Type"@),
            sb.reversed == flag_value(either(attributes@, "Reverse"@, "Reversed"@)),
            sb.data_name == attr_get(attributes@, "DataName"@),
            sb.extra_attrs@ == leftover(attributes@, storyboard_keys()),
        decreases ev@.len() - j,
    {
        if j >= ev.len() {
            return Err(eof_error("Storyboard"));
        }
        match &ev[j] {
            XmlEvent::Open { name, attrs, empty: e } => {
                let opens = !*e && (str_eq(name.as_str(), "Storyboard.Animations") || str_eq(
                    name.as_str(),
                    "Animations",
                ));
                if opens {
                    let ghost step = read_anims(ev@, j + 1, name@, cur, nodes_view(sb.unknown_children@));
                    let p = match parse_animations(
                        ev,
                        j + 1,
                        name.as_str(),
                        &mut sb.animations,
                        &mut sb.unknown_children,
                        Ghost(cur),
                    ) {
                        Ok(p) => p,
                        Err(err) => {
                            return Err(err);
                        },
                    };
                    proof {
                        cur = step->Ok_0.0;
                    }
                    j = p;
                } else {
                    let m = match self::attributes(attrs.as_str()) {
                        Ok(m) => m,
                        Err(err) => {
                            return Err(err);
                        },
                    };
                    let ghost step = read_item(ev@, j as int, name@, m@, *e, cur, nodes_view(sb.unknown_children@));
                    let p = match push_item(
                        ev,
                        j,
                        name,
                        m,
                        *e,
                        &mut sb.animations,
                        &mut sb.unknown_children,
                        Ghost(cur),
                    ) {
                        Ok(p) => p,
                        Err(err) => {
                            return Err(err);
                        },
                    };
                    proof {
                        cur = step->Ok_0.0;
                    }
                    j = p;
                }
            },
            XmlEvent::End { name } => {
                if str_eq(name.as_str(), "Storyboard") {
                    return Ok((sb, j + 1));
                }
                j = j + 1;
            },
            XmlEvent::Eof => {
                return Err(eof_error("Storyboard"));
            },
            XmlEvent::Failed(m) => {
                return Err(xml_error(m));
            },
            _ => {
                j = j + 1;
            },
        }
    }
}

/// The attributes an object element reads itself; the others are kept.
pub open spec fn object_keys() -> Seq<&'static str> {
    seq![
        "Name", "Dimensions", "Location", "Text", "FontFamily", "FontSize", "FontWeight",
        "FontStyle", "TextAlign", "VerticalAlign", "WordWrapping", "IgnoreOverhang", "LineSpacing",
        "AutoSize", "DataFlags", "Anchor", "TextEffect", "StrokeThickness", "Style", "Italic",
        "Underline", "Strikethrough", "AutoUpperCase", "RTL", "Locked", "Rotate", "Rotation",
        "Radius", "Opacity", "Thickness", "Visible", "SizeMode", "Geometry", "Speed", "Direction",
        "Type", "CompositingMode", "Compositing", "Source", "FontStretch", "TextWordWrapping",
        "FlipX", "FlipY", "TextureFlip"
    ]
}

/// What an object element's attributes say, apart from its numbers
/// (location, dimensions, sizes, angles, opacity and speeds).
#[derive(Debug, Clone)]
pub struct ObjectAttrs {
    pub name: Option<String>,
    pub text: Option<String>,
    pub font_family: Option<String>,
    pub font_weight: Option<String>,
    pub font_style: Option<String>,
    pub text_align: Option<String>,
    pub vertical_align: Option<String>,
    pub word_wrapping: Option<String>,
    pub ignore_overhang: Option<String>,
    pub auto_size: Option<String>,
    pub font_stretch: Option<String>,
    pub italic: bool,
    pub underline: bool,
    pub strikethrough: bool,
    pub text_effect: Option<String>,
    pub auto_upper_case: bool,
    pub rtl: bool,
    pub anchor: Option<String>,
    pub data_flags: Option<String>,
    pub locked: bool,
    pub rect_style: Option<String>,
    pub visible: bool,
    pub size_mode: Option<String>,
    pub geometry: Option<String>,
    pub ticker_direction: Option<String>,
    pub ticker_kind: Option<String>,
    pub compositing: Option<String>,
    pub flip_x: bool,
    pub flip_y: bool,
    pub image_source: Option<String>,
    pub extra_attrs: StrMap<String>,
}

/// The flag attribute `key`.
pub open spec fn flag_attr(m: Map<Seq<char>, String>, key: Seq<char>) -> bool {
    flag_value(attr_get(m, key))
}

/// What an object of the given kind reads from its attributes: each text
/// attribute as written (`WordWrapping` before `TextWordWrapping`,
/// `CompositingMode` before `Compositing`), flags as `flag_value` reads
/// them, `Visible` true when absent, upper case also from `TextEffect`
/// `Uppercase`, a ticker's `Type`, and the attributes no name claims.
pub open spec fn object_attrs_fit(o: ObjectAttrs, kind: ObjectKind, m: Map<Seq<char>, String>) -> bool {
    &&& o.name == attr_get(m, "Name"@)
    &&& o.text == attr_get(m, "Text"@)
    &&& o.font_family == attr_get(m, "FontFamily"@)
    &&& o.font_weight == attr_get(m, "FontWeight"@)
    &&& o.font_style == attr_get(m, "FontStyle"@)
    &&& o.text_align == attr_get(m, "TextAlign"@)
    &&& o.vertical_align == attr_get(m, "VerticalAlign"@)
    &&& o.word_wrapping == either(m, "WordWrapping"@, "TextWordWrapping"@)
    &&& o.ignore_overhang == attr_get(m, "IgnoreOverhang"@)
    &&& o.auto_size == attr_get(m, "AutoSize"@)
    &&& o.font_stretch == attr_get(m, "FontStretch"@)
    &&& o.italic == flag_attr(m, "Italic"@)
    &&& o.underline == flag_attr(m, "Underline"@)
    &&& o.strikethrough == flag_attr(m, "Strikethrough"@)
    &&& o.text_effect == attr_get(m, "TextEffect"@)
    &&& o.auto_upper_case == (flag_attr(m, "AutoUpperCase"@) || (attr_get(m, "TextEffect"@) matches Some(e)
        && same_ignoring_case(e@, "Uppercase"@)))
    &&& o.rtl == flag_attr(m, "RTL"@)
    &&& o.anchor == attr_get(m, "Anchor"@)
    &&& o.data_flags == attr_get(m, "DataFlags"@)
    &&& o.locked == flag_attr(m, "Locked"@)
    &&& o.rect_style == attr_get(m, "Style"@)
    &&& o.visible == (!m.contains_key("Visible"@) || flag_attr(m, "Visible"@))
    &&& o.size_mode == attr_get(m, "SizeMode"@)
    &&& o.geometry == attr_get(m, "Geometry"@)
    &&& o.ticker_direction == attr_get(m, "Direction"@)
    &&& o.ticker_kind == (if kind == ObjectKind::Ticker { attr_get(m, "Type"@) } else { None })
    &&& o.compositing == either(m, "CompositingMode"@, "Compositing"@)
    &&& o.flip_x == flag_attr(m, "FlipX"@)
    &&& o.flip_y == flag_attr(m, "FlipY"@)
    &&& o.image_source == attr_get(m, "Source"@)
    &&& o.extra_attrs@ == leftover(m, object_keys())
}

pub(crate) fn flag(attrs: &StrMap<String>, key: &str) -> (res: bool)
    ensures
        res == flag_attr(attrs@, key@),
{
    parse_bool(attrs.get(key))
}

pub(crate) fn opt_either(attrs: &StrMap<String>, a: &str, b: &str) -> (res: Option<String>)
    ensures
        res == either(attrs@, a@, b@),
{
    match get_either(attrs, a, b) {
        Some(v) => Some(v.clone()),
        None => None,
    }
}

/// What an object element's attributes say, apart from its numbers (see
/// `object_attrs_fit`).
pub fn object_attrs(kind: ObjectKind, attrs: &StrMap<String>) -> (o: ObjectAttrs)
    ensures
        object_attrs_fit(o, kind, attrs@),
{
    let known: [&str; 44] = [
        "Name", "Dimensions", "Location", "Text", "FontFamily", "FontSize", "FontWeight",
        "FontStyle", "TextAlign", "VerticalAlign", "WordWrapping", "IgnoreOverhang", "LineSpacing",
        "AutoSize", "DataFlags", "Anchor", "TextEffect", "StrokeThickness", "Style", "Italic",
        "Underline", "Strikethrough", "AutoUpperCase", "RTL", "Locked", "Rotate", "Rotation",
        "Radius", "Opacity", "Thickness", "Visible", "SizeMode", "Geometry", "Speed", "Direction",
        "Type", "CompositingMode", "Compositing", "Source", "FontStretch", "TextWordWrapping",
        "FlipX", "FlipY", "TextureFlip",
    ];
    assert(known@ =~= object_keys());
    let text_effect = opt_attr(attrs, "TextEffect");
    let upper_effect = match &text_effect {
        Some(e) => eq_ignore_ascii_case(e.as_str(), "Uppercase"),
        None => false,
    };
    let visible = match attrs.get("Visible") {
        Some(v) => parse_bool(Some(v)),
        None => true,
    };
    let ticker_kind = if kind == ObjectKind::Ticker {
        opt_attr(attrs, "Type")
    } else {
        None
    };
    ObjectAttrs {
        name: opt_attr(attrs, "Name"),
        text: opt_attr(attrs, "Text"),
        font_family: opt_attr(attrs, "FontFamily"),
        font_weight: opt_attr(attrs, "FontWeight"),
        font_style: opt_attr(attrs, "FontStyle"),
        text_align: opt_attr(attrs, "TextAlign"),
        vertical_align: opt_attr(attrs, "VerticalAlign"),
        word_wrapping: opt_either(attrs, "WordWrapping", "TextWordWrapping"),
        ignore_overhang: opt_attr(attrs, "IgnoreOverhang"),
        auto_size: opt_attr(attrs, "AutoSize"),
        font_stretch: opt_attr(attrs, "FontStretch"),
        italic: flag(attrs, "Italic"),
        underline: flag(attrs, "Underline"),
        strikethrough: flag(attrs, "Strikethrough"),
        auto_upper_case: flag(attrs, "AutoUpperCase") || upper_effect,
        text_effect,
        rtl: flag(attrs, "RTL"),
        anchor: opt_attr(attrs, "Anchor"),
        data_flags: opt_attr(attrs, "DataFlags"),
        locked: flag(attrs, "Locked"),
        rect_style: opt_attr(attrs, "Style"),
        visible,
        size_mode: opt_attr(attrs, "SizeMode"),
        geometry: opt_attr(attrs, "Geometry"),
        ticker_direction: opt_attr(attrs, "Direction"),
        ticker_kind,
        compositing: opt_either(attrs, "CompositingMode", "Compositing"),
        flip_x: flag(attrs, "FlipX"),
        flip_y: flag(attrs, "FlipY"),
        image_source: opt_attr(attrs, "Source"),
        extra_attrs: leftover_attrs(attrs, &known),
    }
}

/// Whether `pat` occurs in `s`.
pub open spec fn has_part(s: Seq<char>, pat: Seq<char>) -> bool {
    exists|i: int| 0 <= i <= s.len() - pat.len() && #[trigger] s.subrange(i, i + pat.len()) == pat
}

fn contains_part(s: &str, pat: &str) -> (res: bool)
    ensures
        res == has_part(s@, pat@),
{
    let cs = crate::text::chars_of(s);
    let ps = crate::text::chars_of(pat);
    let n = cs.len();
    let k = ps.len();
    if k > n {
        proof {
            assert forall|i: int| 0 <= i <= s@.len() - pat@.len() implies #[trigger] s@.subrange(i, i + pat@.len()) != pat@ by {}
        }
        return false;
    }
    let mut i: usize = 0;
    while i <= n - k
        invariant
            cs@ == s@,
            ps@ == pat@,
            n == cs@.len(),
            k == ps@.len(),
            k <= n,
            i <= n - k + 1,
            forall|j: int| 0 <= j < i ==> #[trigger] s@.subrange(j, j + k) != pat@,
        decreases n - i,
    {
        let mut j: usize = 0;
        let mut same = true;
        while j < k
            invariant
                cs@ == s@,
                ps@ == pat@,
                n == cs@.len(),
                k == ps@.len(),
                i + k <= n,
                j <= k,
                same == forall|q: int| 0 <= q < j ==> cs@[i + q] == ps@[q],
            decreases k - j,
        {
            if cs[i + j] != ps[j] {
                same = false;
            }
            j = j + 1;
        }
        if same {
            proof {
                assert(s@.subrange(i as int, i + k) =~= pat@);
            }
            return true;
        }
        proof {
            let q = choose|q: int| 0 <= q < k && cs@[i + q] != ps@[q];
            assert(s@.subrange(i as int, i + k)[q] != pat@[q]);
        }
        i = i + 1;
    }
    false
}

/// How a flip effect flips: horizontally when its `Value` (or `Axis`)
/// holds `horizontal` or is `x` or `h`, or its `FlipX` is set; vertically
/// alike with `vertical`, `y`, `v` and `FlipY`. ASCII case is ignored.
pub open spec fn flips_of(m: Map<Seq<char>, String>) -> (bool, bool) {
    let v = lower_seq(
        match either(m, "Value"@, "Axis"@) {
            Some(s) => s@,
            None => Seq::empty(),
        },
    );
    (
        has_part(v, "horizontal"@) || v == "x"@ || v == "h"@ || flag_attr(m, "FlipX"@),
        has_part(v, "vertical"@) || v == "y"@ || v == "v"@ || flag_attr(m, "FlipY"@),
    )
}

/// The axes a flip effect element flips (see `flips_of`).
pub fn flip_axes(attrs: &StrMap<String>) -> (res: (bool, bool))
    ensures
        res == flips_of(attrs@),
{
    proof {
        reveal_strlit("");
        assert(""@ =~= Seq::<char>::empty());
    }
    let value = match get_either(attrs, "Value", "Axis") {
        Some(s) => s.clone(),
        None => String::new(),
    };
    let lower = to_ascii_lowercase(value.as_str());
    let l = lower.as_str();
    let x = contains_part(l, "horizontal") || str_eq(l, "x") || str_eq(l, "h") || flag(attrs, "FlipX");
    let y = contains_part(l, "vertical") || str_eq(l, "y") || str_eq(l, "v") || flag(attrs, "FlipY");
    (x, y)
}

/// Each thing an object element's attributes say is read from its own
/// attribute: every text as written, every flag as `flag_value` reads its
/// attribute (`Visible` true when absent; upper case also from a
/// `TextEffect` of `Uppercase`), with the older names read when the newer
/// ones are absent, and a `Type` only for a ticker.
pub proof fn lemma_object_attrs_read_own(o: ObjectAttrs, kind: ObjectKind, m: Map<Seq<char>, String>)
    requires
        object_attrs_fit(o, kind, m),
    ensures
        o.italic == flag_value(attr_get(m, "Italic"@)),
        o.underline == flag_value(attr_get(m, "Underline"@)),
        o.strikethrough == flag_value(attr_get(m, "Strikethrough"@)),
        o.rtl == flag_value(attr_get(m, "RTL"@)),
        o.locked == flag_value(attr_get(m, "Locked"@)),
        o.flip_x == flag_value(attr_get(m, "FlipX"@)),
        o.flip_y == flag_value(attr_get(m, "FlipY"@)),
        o.visible == (match attr_get(m, "Visible"@) {
            Some(v) => flag_value(Some(v)),
            None => true,
        }),
        o.auto_upper_case == (flag_value(attr_get(m, "AutoUpperCase"@)) || (attr_get(m, "TextEffect"@)
            matches Some(e) && lower_seq(e@) == "uppercase"@)),
        o.name == attr_get(m, "Name"@),
        o.text == attr_get(m, "Text"@),
        o.font_family == attr_get(m, "FontFamily"@),
        o.font_weight == attr_get(m, "FontWeight"@),
        o.font_style == attr_get(m, "FontStyle"@),
        o.text_align == attr_get(m, "TextAlign"@),
        o.vertical_align == attr_get(m, "VerticalAlign"@),
        o.ignore_overhang == attr_get(m, "IgnoreOverhang"@),
        o.auto_size == attr_get(m, "AutoSize"@),
        o.font_stretch == attr_get(m, "FontStretch"@),
        o.text_effect == attr_get(m, "TextEffect"@),
        o.anchor == attr_get(m, "Anchor"@),
        o.data_flags == attr_get(m, "DataFlags"@),
        o.rect_style == attr_get(m, "Style"@),
        o.size_mode == attr_get(m, "SizeMode"@),
        o.geometry == attr_get(m, "Geometry"@),
        o.ticker_direction == attr_get(m, "Direction"@),
        o.image_source == attr_get(m, "Source"@),
        o.word_wrapping == (match attr_get(m, "WordWrapping"@) {
            Some(w) => Some(w),
            None => attr_get(m, "TextWordWrapping"@),
        }),
        o.compositing == (match attr_get(m, "CompositingMode"@) {
            Some(c) => Some(c),
            None => attr_get(m, "Compositing"@),
        }),
        o.ticker_kind == (if kind == ObjectKind::Ticker {
            attr_get(m, "Type"@)
        } else {
            None
        }),
{
    reveal_strlit("Uppercase");
    reveal_strlit("uppercase");
    assert(lower_seq("Uppercase"@) =~= "uppercase"@);
}

} // verus!

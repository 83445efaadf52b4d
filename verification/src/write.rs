//! Writing titles back: GT Designer XML text for the parts of a document
//! that hold no geometry, the package's index files, and the `.gtzip`
//! archive itself.
use vstd::prelude::*;

use crate::model::{effective_type_of, is_continuous_kind, Animation, Bounding, ObjectKind, Storyboard, UnknownNode};
use crate::package::{files_view, sniff_image, Package};
use crate::resources::{copy_strings, strings_view, ResourceIndex};
use crate::strmap::StrMap;
use crate::error::Error;
use crate::zipread::io_error_text;
use crate::zipread::zip_error_text;
use crate::zipwrite::{
    archive_room, has_name, is_file_name, lemma_room_prefix, reads_back, short_name, small_archive,
    zip_finish, zip_start_file, zip_write_all, zip_writer, zip_written, Writer,
};
use crate::zipread::{zip_read_all, ZipEntry, ZipReadError};
use crate::package::{built, resources_of, starts_with, take_items, xml_text};
use crate::paths::{file_name, final_name, named, names_document};
use vstd::utf8::encode_utf8;
use crate::text::{
    eq_ignore_ascii_case, lower_seq, owned, replace_char, replace_seq, same_ignoring_case, str_eq,
    to_ascii_lowercase, trim, trim_seq,
};

verus! {

/// `&`, `<`, `>` and `"` written as entities.
pub open spec fn escaped_attr(s: Seq<char>) -> Seq<char> {
    replace_seq(
        replace_seq(replace_seq(replace_seq(s, '&', "&amp;"@), '<', "&lt;"@), '>', "&gt;"@),
        '"',
        "&quot;"@,
    )
}

/// `&`, `<` and `>` written as entities.
pub open spec fn escaped_text(s: Seq<char>) -> Seq<char> {
    replace_seq(replace_seq(replace_seq(s, '&', "&amp;"@), '<', "&lt;"@), '>', "&gt;"@)
}

/// Text made safe inside a double-quoted XML attribute.
pub fn esc_attr(value: &str) -> (res: String)
    ensures
        res@ == escaped_attr(value@),
{
    let a = replace_char(value, '&', "&amp;");
    let b = replace_char(a.as_str(), '<', "&lt;");
    let c = replace_char(b.as_str(), '>', "&gt;");
    replace_char(c.as_str(), '"', "&quot;")
}

/// Text made safe between XML tags.
pub fn esc_text(value: &str) -> (res: String)
    ensures
        res@ == escaped_text(value@),
{
    let a = replace_char(value, '&', "&amp;");
    let b = replace_char(a.as_str(), '<', "&lt;");
    replace_char(b.as_str(), '>', "&gt;")
}

/// Line breaks as GT writes them inside attributes: every `\n` as CR LF, any
/// other carriage return dropped.
pub open spec fn text_attr(s: Seq<char>) -> Seq<char> {
    replace_seq(replace_seq(s, '\r', Seq::empty()), '\n', seq!['\r', '\n'])
}

/// Text as it is written into a `Text` attribute (see `text_attr`).
pub fn encode_text_attr(text: &str) -> (res: String)
    ensures
        res@ == text_attr(text@),
{
    proof {
        reveal_strlit("");
        reveal_strlit("\r\n");
        assert(""@ =~= Seq::<char>::empty());
        assert("\r\n"@ =~= seq!['\r', '\n']);
    }
    let a = replace_char(text, '\r', "");
    replace_char(a.as_str(), '\n', "\r\n")
}

/// `true`, `1` and `yes`, in any ASCII case.
pub open spec fn is_truthy(value: Seq<char>) -> bool {
    let l = lower_seq(value);
    l == "true"@ || l == "1"@ || l == "yes"@
}

/// Whether a flag's text means yes.
pub fn truthy(value: &str) -> (res: bool)
    ensures
        res == is_truthy(value@),
{
    let l = to_ascii_lowercase(value);
    str_eq(l.as_str(), "true") || str_eq(l.as_str(), "1") || str_eq(l.as_str(), "yes")
}

/// Whether a bounding says nothing: no object and no padding.
pub open spec fn is_default_bounding(b: Bounding) -> bool {
    b.object@.len() == 0 && (b.padding@.len() == 0 || b.padding@ == "0,0,0,0"@)
}

/// Whether a bounding need not be written.
pub fn bounding_is_default(bounding: &Bounding) -> (res: bool)
    ensures
        res == is_default_bounding(*bounding),
{
    bounding.object.as_str().is_empty() && (bounding.padding.as_str().is_empty() || str_eq(
        bounding.padding.as_str(),
        "0,0,0,0",
    ))
}

/// The `DataFlags` written for an object: its flags without outer white
/// space, none when empty or `None`, and none when a shape says only
/// `Hidden`.
pub open spec fn flags_for_write(flags: Option<Seq<char>>, kind: ObjectKind) -> Option<Seq<char>> {
    match flags {
        None => None,
        Some(f) => {
            let raw = trim_seq(f);
            if raw.len() == 0 || same_ignoring_case(raw, "None"@) {
                None
            } else if (kind == ObjectKind::Rectangle || kind == ObjectKind::Ellipse || kind
                == ObjectKind::Triangle) && same_ignoring_case(raw, "Hidden"@) {
                None
            } else {
                Some(raw)
            }
        },
    }
}

/// The `DataFlags` to write for an object of `kind` (see `flags_for_write`).
pub fn data_flags_for_write(data_flags: Option<&str>, kind: ObjectKind) -> (res: Option<String>)
    ensures
        match res {
            Some(s) => flags_for_write(
                match data_flags {
                    Some(f) => Some(f@),
                    None => None,
                },
                kind,
            ) == Some(s@),
            None => flags_for_write(
                match data_flags {
                    Some(f) => Some(f@),
                    None => None,
                },
                kind,
            ) is None,
        },
{
    let raw = match data_flags {
        Some(f) => trim(f),
        None => return None,
    };
    if raw.is_empty() || eq_ignore_ascii_case(raw, "None") {
        return None;
    }
    if kind.is_shape() && eq_ignore_ascii_case(raw, "Hidden") {
        return None;
    }
    Some(owned(raw))
}

/// The extension and media type of an image's bytes (see `sniff_image`).
pub fn sniff_or_bin(bytes: &[u8]) -> (res: (&'static str, &'static str))
    ensures
        (res.0@, res.1@) == crate::package::image_kind(bytes@),
{
    sniff_image(bytes)
}

/// The attributes of a kept element, each as `key="value"`, joined by
/// spaces, in ascending key order.
pub open spec fn attrs_text(entries: Seq<(Seq<char>, String)>) -> Seq<char>
    decreases entries.len(),
{
    if entries.len() == 0 {
        Seq::empty()
    } else {
        let e = entries.last();
        let one = e.0 + "=\""@ + escaped_attr(e.1@) + "\""@;
        if entries.len() == 1 {
            one
        } else {
            attrs_text(entries.drop_last()) + " "@ + one
        }
    }
}

/// A kept element written back: its tag, its attributes, then its children
/// and its text, or a self-closing tag when it has neither.
pub open spec fn unknown_xml(node: UnknownNode) -> Seq<char>
    decreases node,
{
    let attrs = attrs_text(node.attributes.spec_entries());
    let space = if attrs.len() == 0 {
        Seq::empty()
    } else {
        " "@ + attrs
    };
    if node.children@.len() == 0 && node.text is None {
        "<"@ + node.tag@ + space + " />"@
    } else {
        let inner = children_xml(node.children@) + match node.text {
            Some(t) => escaped_text(t@),
            None => Seq::empty(),
        };
        "<"@ + node.tag@ + space + ">"@ + inner + "</"@ + node.tag@ + ">"@
    }
}

/// Kept elements written back one after another.
pub open spec fn children_xml(nodes: Seq<UnknownNode>) -> Seq<char>
    decreases nodes,
{
    if nodes.len() == 0 {
        Seq::empty()
    } else {
        children_xml(nodes.drop_last()) + unknown_xml(nodes.last())
    }
}

fn attrs_string(node: &UnknownNode) -> (res: String)
    ensures
        res@ == attrs_text(node.attributes.spec_entries()),
{
    let n = node.attributes.len();
    let ghost es = node.attributes.spec_entries();
    let mut out = String::new();
    let mut i: usize = 0;
    proof {
        reveal_strlit("");
        assert(es.take(0) =~= Seq::<(Seq<char>, String)>::empty());
    }
    while i < n
        invariant
            es == node.attributes.spec_entries(),
            n == es.len(),
            i <= n,
            out@ == attrs_text(es.take(i as int)),
        decreases n - i,
    {
        if i > 0 {
            out.append(" ");
        }
        out.append(node.attributes.key_at(i).as_str());
        out.append("=\"");
        out.append(esc_attr(node.attributes.value_at(i).as_str()).as_str());
        out.append("\"");
        proof {
            assert(es.take(i + 1).drop_last() =~= es.take(i as int));
            assert(es.take(i + 1).last() == es[i as int]);
            if i == 0 {
                assert(es.take(0).len() == 0);
            }
            assert(out@ =~= attrs_text(es.take(i + 1)));
        }
        i = i + 1;
    }
    proof {
        assert(es.take(n as int) =~= es);
    }
    out
}

/// A kept element written back as XML (see `unknown_xml`).
pub fn serialize_unknown(node: &UnknownNode) -> (res: String)
    ensures
        res@ == unknown_xml(*node),
    decreases node,
{
    let attrs = attrs_string(node);
    let space = if attrs.as_str().is_empty() {
        String::new()
    } else {
        owned(" ").concat(attrs.as_str())
    };
    proof {
        reveal_strlit("");
    }
    if node.children.len() == 0 && node.text.is_none() {
        owned("<").concat(node.tag.as_str()).concat(space.as_str()).concat(" />")
    } else {
        let mut inner = String::new();
        let n = node.children.len();
        let mut i: usize = 0;
        proof {
            assert(node.children@.take(0) =~= Seq::<UnknownNode>::empty());
        }
        while i < n
            invariant
                n == node.children@.len(),
                i <= n,
                inner@ == children_xml(node.children@.take(i as int)),
            decreases n - i,
        {
            let child = serialize_unknown(&node.children[i]);
            inner.append(child.as_str());
            proof {
                assert(node.children@.take(i + 1).drop_last() =~= node.children@.take(i as int));
                assert(node.children@.take(i + 1).last() == node.children@[i as int]);
            }
            i = i + 1;
        }
        proof {
            assert(node.children@.take(n as int) =~= node.children@);
        }
        if let Some(text) = &node.text {
            inner.append(esc_text(text.as_str()).as_str());
        }
        owned("<").concat(node.tag.as_str()).concat(space.as_str()).concat(">").concat(
            inner.as_str(),
        ).concat("</").concat(node.tag.as_str()).concat(">")
    }
}

/// A logical path with `/` written as `\\`, as GT names its assets.
pub open spec fn backslashed(s: Seq<char>) -> Seq<char> {
    replace_seq(s, '/', seq!['\\'])
}

pub(crate) fn backslash(s: &str) -> (res: String)
    ensures
        res@ == backslashed(s@),
{
    proof {
        reveal_strlit("\\");
        assert("\\"@ =~= seq!['\\']);
    }
    replace_char(s, '/', "\\")
}

/// The assets to write into a package: bytes by logical path (with `\\`
/// separators), and the frames of each image sequence by its logical path.
#[derive(Debug, Clone)]
pub struct WriteAssets {
    pub blobs: StrMap<Vec<u8>>,
    pub sequences: StrMap<Vec<String>>,
}

impl WriteAssets {
    /// Bytes by logical path.
    pub open spec fn blob_view(&self) -> Map<Seq<char>, Seq<u8>> {
        files_view(self.blobs)
    }

    /// Frame paths by sequence path.
    pub open spec fn sequence_view(&self) -> Map<Seq<char>, Seq<Seq<char>>> {
        self.sequences@.map_values(|v: Vec<String>| strings_view(v@))
    }

    /// Keeps `bytes` under `logical`, with `/` written as `\\`.
    pub fn insert(&mut self, logical: String, bytes: Vec<u8>)
        ensures
            final(self).blob_view() == old(self).blob_view().insert(backslashed(logical@), bytes@),
            final(self).sequence_view() == old(self).sequence_view(),
    {
        let key = backslash(logical.as_str());
        let ghost k = key@;
        let ghost v = bytes@;
        self.blobs.insert(key, bytes);
        proof {
            assert(self.blob_view() =~= old(self).blob_view().insert(k, v));
        }
    }
}

impl Default for WriteAssets {
    /// No assets.
    fn default() -> (a: WriteAssets)
        ensures
            a.blob_view() == Map::<Seq<char>, Seq<u8>>::empty(),
            a.sequence_view() == Map::<Seq<char>, Seq<Seq<char>>>::empty(),
    {
        let a = WriteAssets { blobs: StrMap::new(), sequences: StrMap::new() };
        assert(a.blob_view() =~= Map::<Seq<char>, Seq<u8>>::empty());
        assert(a.sequence_view() =~= Map::<Seq<char>, Seq<Seq<char>>>::empty());
        a
    }
}

/// The resource index's source paths and entries, in ascending path order.
pub open spec fn entry_listing(r: ResourceIndex) -> Seq<(Seq<char>, Seq<char>)> {
    r.path_to_entry.spec_entries().map_values(|e: (Seq<char>, String)| (e.0, e.1@))
}

/// The resource index's sequences, in ascending path order.
pub open spec fn sequence_listing(r: ResourceIndex) -> Seq<(Seq<char>, Seq<Seq<char>>)> {
    r.path_to_sequence.spec_entries().map_values(|e: (Seq<char>, Vec<String>)| (e.0, strings_view(e.1@)))
}

/// The bytes of each indexed source whose entry is a file, by its path.
pub open spec fn blobs_by_entry(es: Seq<(Seq<char>, Seq<char>)>, files: Map<Seq<char>, Seq<u8>>) -> Map<Seq<char>, Seq<u8>>
    decreases es.len(),
{
    if es.len() == 0 {
        Map::empty()
    } else {
        let m = blobs_by_entry(es.drop_last(), files);
        let e = es.last();
        if files.contains_key(e.1) {
            m.insert(backslashed(e.0), files[e.1])
        } else {
            m
        }
    }
}

/// Files that are the package's own: its document, index files and folders.
pub open spec fn is_package_file(name: Seq<char>) -> bool {
    let l = lower_seq(name);
    l == "document.xml"@ || l == "resources.xml"@ || l == "[content_types].xml"@ || (l.len() > 0
        && l.last() == '/')
}

/// The bytes of every other file, by its name.
pub open spec fn blobs_by_file(names: Seq<Seq<char>>, files: Map<Seq<char>, Seq<u8>>) -> Map<Seq<char>, Seq<u8>>
    decreases names.len(),
{
    if names.len() == 0 {
        Map::empty()
    } else {
        let m = blobs_by_file(names.drop_last(), files);
        let n = names.last();
        if is_package_file(n) {
            m
        } else {
            m.insert(backslashed(n), files[n])
        }
    }
}

/// The first indexed path whose entry is `guid`.
pub open spec fn path_of_guid(es: Seq<(Seq<char>, Seq<char>)>, guid: Seq<char>) -> Option<Seq<char>>
    decreases es.len(),
{
    if es.len() == 0 {
        None
    } else if es[0].1 == guid {
        Some(es[0].0)
    } else {
        path_of_guid(es.drop_first(), guid)
    }
}

/// Frames named by the logical path that leads to them, or by their entry.
pub open spec fn frame_logical(es: Seq<(Seq<char>, Seq<char>)>, guid: Seq<char>) -> Seq<char> {
    match path_of_guid(es, guid) {
        Some(p) => backslashed(p),
        None => guid,
    }
}

/// The sequences of more than one frame, by logical path.
pub open spec fn sequences_from(
    ss: Seq<(Seq<char>, Seq<Seq<char>>)>,
    es: Seq<(Seq<char>, Seq<char>)>,
) -> Map<Seq<char>, Seq<Seq<char>>>
    decreases ss.len(),
{
    if ss.len() == 0 {
        Map::empty()
    } else {
        let m = sequences_from(ss.drop_last(), es);
        let s = ss.last();
        if s.1.len() > 1 {
            m.insert(backslashed(s.0), s.1.map_values(|g: Seq<char>| frame_logical(es, g)))
        } else {
            m
        }
    }
}

/// A map is empty exactly when it lists no entries.
proof fn lemma_empty_listing<V>(m: StrMap<V>)
    requires
        crate::strmap::keys_sorted(m.spec_entries()),
    ensures
        (m.spec_entries().len() == 0) == (m@ == Map::<Seq<char>, V>::empty()),
{
    m.lemma_listing();
    if m.spec_entries().len() == 0 {
        assert(m@ =~= Map::<Seq<char>, V>::empty());
    } else {
        assert(m@.contains_key(m.spec_entries()[0].0));
    }
}

fn copy_bytes(v: &Vec<u8>) -> (c: Vec<u8>)
    ensures
        c@ == v@,
{
    let c = v.clone();
    assert(c@ =~= v@);
    c
}

/// The logical name of a frame (see `frame_logical`).
fn frame_name(index: &ResourceIndex, guid: &String) -> (res: String)
    ensures
        res@ == frame_logical(entry_listing(*index), guid@),
{
    let ghost es = entry_listing(*index);
    let n = index.path_to_entry.len();
    let mut j: usize = 0;
    proof {
        assert(es.subrange(0, n as int) =~= es);
    }
    while j < n
        invariant
            es == entry_listing(*index),
            n == es.len(),
            j <= n,
            path_of_guid(es, guid@) == path_of_guid(es.subrange(j as int, n as int), guid@),
        decreases n - j,
    {
        proof {
            assert(es.subrange(j as int, n as int).drop_first() =~= es.subrange(j + 1, n as int));
            assert(es.subrange(j as int, n as int)[0] == es[j as int]);
        }
        if str_eq(index.path_to_entry.value_at(j).as_str(), guid.as_str()) {
            return backslash(index.path_to_entry.key_at(j).as_str());
        }
        j = j + 1;
    }
    guid.clone()
}

impl WriteAssets {
    /// The assets of a package, to write it again: the bytes of every
    /// indexed source under its path, or, when the index leads to no file,
    /// every file but the package's own under its name; and each sequence of
    /// more than one frame, its frames named by the paths that lead to them.
    pub fn from_package(package: &Package) -> (a: WriteAssets)
        ensures
            a.blob_view() == ({
                let b = blobs_by_entry(entry_listing(package.resources), files_view(package.files));
                if b == Map::<Seq<char>, Seq<u8>>::empty() {
                    blobs_by_file(package.files.keys_view(), files_view(package.files))
                } else {
                    b
                }
            }),
            a.sequence_view() == sequences_from(
                sequence_listing(package.resources),
                entry_listing(package.resources),
            ),
    {
        let files = &package.files;
        let index = &package.resources;
        let ghost fv = files_view(*files);
        let ghost es = entry_listing(*index);
        let mut a = WriteAssets::default();
        let n = index.path_to_entry.len();
        let mut i: usize = 0;
        proof {
            assert(es.take(0) =~= Seq::<(Seq<char>, Seq<char>)>::empty());
        }
        while i < n
            invariant
                fv == files_view(*files),
                es == entry_listing(*index),
                n == es.len(),
                i <= n,
                a.blob_view() == blobs_by_entry(es.take(i as int), fv),
                a.sequence_view() == Map::<Seq<char>, Seq<Seq<char>>>::empty(),
            decreases n - i,
        {
            let path = index.path_to_entry.key_at(i);
            let guid = index.path_to_entry.value_at(i);
            proof {
                assert(es.take(i + 1).drop_last() =~= es.take(i as int));
                assert(es.take(i + 1).last() == es[i as int]);
            }
            if let Some(bytes) = files.get(guid.as_str()) {
                a.insert(owned(path.as_str()), copy_bytes(bytes));
            }
            i = i + 1;
        }
        proof {
            assert(es.take(n as int) =~= es);
        }
        let count = a.blobs.len();
        proof {
            lemma_empty_listing(a.blobs);
            assert(a.blob_view() == Map::<Seq<char>, Seq<u8>>::empty() <==> a.blobs@ == Map::<Seq<char>, Vec<u8>>::empty()) by {
                if a.blobs@ == Map::<Seq<char>, Vec<u8>>::empty() {
                    assert(a.blob_view() =~= Map::<Seq<char>, Seq<u8>>::empty());
                }
                if a.blob_view() == Map::<Seq<char>, Seq<u8>>::empty() {
                    assert(a.blobs@ =~= Map::<Seq<char>, Vec<u8>>::empty()) by {
                        assert forall|k: Seq<char>| !a.blobs@.contains_key(k) by {
                            if a.blobs@.contains_key(k) {
                                assert(a.blob_view().contains_key(k));
                            }
                        }
                    }
                }
            }
        }
        if count == 0 {
            let names = files.len();
            let ghost keys = files.keys_view();
            let mut k: usize = 0;
            proof {
                reveal_strlit("document.xml");
                reveal_strlit("resources.xml");
                reveal_strlit("[content_types].xml");
                files.lemma_listing();
                assert(keys.take(0) =~= Seq::<Seq<char>>::empty());
            }
            while k < names
                invariant
                    fv == files_view(*files),
                    keys == files.keys_view(),
                    names == keys.len(),
                    k <= names,
                    a.blob_view() == blobs_by_file(keys.take(k as int), fv),
                    a.sequence_view() == Map::<Seq<char>, Seq<Seq<char>>>::empty(),
                    files@ == crate::strmap::map_of(files.spec_entries()),
                    forall|j: int|
                        0 <= j < files.spec_entries().len() ==> files@.contains_key(
                            #[trigger] files.spec_entries()[j].0,
                        ) && files@[files.spec_entries()[j].0] == files.spec_entries()[j].1,
                decreases names - k,
            {
                let name = files.key_at(k);
                let lower = to_ascii_lowercase(name.as_str());
                let l = lower.as_str();
                let skip = str_eq(l, "document.xml") || str_eq(l, "resources.xml") || str_eq(
                    l,
                    "[content_types].xml",
                ) || (!l.is_empty() && ends_in_slash(l));
                proof {
                    assert(keys.take(k + 1).drop_last() =~= keys.take(k as int));
                    assert(keys.take(k + 1).last() == keys[k as int]);
                    assert(keys[k as int] == name@);
                    assert(skip == is_package_file(name@));
                    assert(files.spec_entries()[k as int].0 == name@);
                }
                if !skip {
                    a.insert(owned(name.as_str()), copy_bytes(files.value_at(k)));
                }
                k = k + 1;
            }
            proof {
                assert(keys.take(names as int) =~= keys);
            }
        }
        let ghost ss = sequence_listing(*index);
        let ghost blobs = a.blob_view();
        let m = index.path_to_sequence.len();
        let mut q: usize = 0;
        proof {
            assert(ss.take(0) =~= Seq::<(Seq<char>, Seq<Seq<char>>)>::empty());
        }
        while q < m
            invariant
                es == entry_listing(*index),
                ss == sequence_listing(*index),
                m == ss.len(),
                q <= m,
                a.blob_view() == blobs,
                a.sequence_view() == sequences_from(ss.take(q as int), es),
            decreases m - q,
        {
            let anchor = index.path_to_sequence.key_at(q);
            let frames = index.path_to_sequence.value_at(q);
            proof {
                assert(ss.take(q + 1).drop_last() =~= ss.take(q as int));
                assert(ss.take(q + 1).last() == ss[q as int]);
                assert(ss[q as int].1 == strings_view(frames@));
            }
            if frames.len() > 1 {
                let mut logicals: Vec<String> = Vec::new();
                let f = frames.len();
                let mut r: usize = 0;
                while r < f
                    invariant
                        es == entry_listing(*index),
                        f == frames@.len(),
                        r <= f,
                        logicals@.len() == r,
                        strings_view(logicals@) == strings_view(frames@).take(r as int).map_values(
                            |g: Seq<char>| frame_logical(es, g),
                        ),
                    decreases f - r,
                {
                    let ghost before = logicals@;
                    logicals.push(frame_name(index, &frames[r]));
                    proof {
                        let target = strings_view(frames@).take(r + 1).map_values(
                            |g: Seq<char>| frame_logical(es, g),
                        );
                        let prev = strings_view(frames@).take(r as int).map_values(
                            |g: Seq<char>| frame_logical(es, g),
                        );
                        assert forall|j: int| 0 <= j < r + 1 implies #[trigger] strings_view(logicals@)[j] == target[j] by {
                            if j < r {
                                assert(logicals@[j] == before[j]);
                                assert(strings_view(before)[j] == prev[j]);
                            }
                        }
                        assert(strings_view(logicals@) =~= target);
                    }
                    r = r + 1;
                }
                proof {
                    assert(strings_view(frames@).take(f as int) =~= strings_view(frames@));
                }
                let key = backslash(anchor.as_str());
                let ghost kv = key@;
                let ghost lv = logicals@;
                let ghost before = a.sequences@;
                a.sequences.insert(key, logicals);
                proof {
                    assert(a.sequence_view() =~= before.map_values(|v: Vec<String>| strings_view(v@)).insert(
                        kv,
                        strings_view(lv),
                    ));
                }
            }
            q = q + 1;
        }
        proof {
            assert(ss.take(m as int) =~= ss);
        }
        a
    }
}

/// Whether a non-empty string ends in `/`.
fn ends_in_slash(s: &str) -> (res: bool)
    requires
        s@.len() > 0,
    ensures
        res == (s@.last() == '/'),
{
    let cs = crate::text::chars_of(s);
    cs[cs.len() - 1] == '/'
}

/// The guids of a guid map, in ascending key order.
pub open spec fn guid_listing(m: StrMap<String>) -> Seq<(Seq<char>, Seq<char>)> {
    m.spec_entries().map_values(|e: (Seq<char>, String)| (e.0, e.1@))
}

pub open spec fn guid_view(m: StrMap<String>) -> Map<Seq<char>, Seq<char>> {
    m@.map_values(|s: String| s@)
}

/// The `<Override>` lines of the guids, in order.
pub open spec fn overrides_text(gs: Seq<(Seq<char>, Seq<char>)>) -> Seq<char>
    decreases gs.len(),
{
    if gs.len() == 0 {
        Seq::empty()
    } else {
        overrides_text(gs.drop_last()) + "  <Override PartName=\"/"@ + gs.last().1
            + "\" ContentType=\"application/octet-stream\" />\n"@
    }
}

pub open spec fn content_types_head() -> Seq<char> {
    "<?xml version=\"1.0\" encoding=\"utf-8\"?>\n<Types xmlns=\"http://schemas.openxmlformats.org/package/2006/content-types\">\n  <Default Extension=\"xml\" ContentType=\"text/xml\" />\n  <Default Extension=\"png\" ContentType=\"image/png\" />\n"@
}

/// `[Content_Types].xml`: XML and PNG by extension, every guid as an
/// octet stream.
pub fn content_types_xml(guid_map: &StrMap<String>) -> (res: String)
    ensures
        res@ == content_types_head() + overrides_text(guid_listing(*guid_map)) + "</Types>\n"@,
{
    let mut out = owned("<?xml version=\"1.0\" encoding=\"utf-8\"?>\n<Types xmlns=\"http://schemas.openxmlformats.org/package/2006/content-types\">\n  <Default Extension=\"xml\" ContentType=\"text/xml\" />\n  <Default Extension=\"png\" ContentType=\"image/png\" />\n");
    let ghost gs = guid_listing(*guid_map);
    let n = guid_map.len();
    let mut i: usize = 0;
    proof {
        assert(gs.take(0) =~= Seq::<(Seq<char>, Seq<char>)>::empty());
        assert(out@ =~= content_types_head() + overrides_text(gs.take(0)));
    }
    while i < n
        invariant
            gs == guid_listing(*guid_map),
            n == gs.len(),
            i <= n,
            out@ == content_types_head() + overrides_text(gs.take(i as int)),
        decreases n - i,
    {
        out.append("  <Override PartName=\"/");
        out.append(guid_map.value_at(i).as_str());
        out.append("\" ContentType=\"application/octet-stream\" />\n");
        proof {
            assert(gs.take(i + 1).drop_last() =~= gs.take(i as int));
            assert(gs.take(i + 1).last() == gs[i as int]);
            assert(out@ =~= content_types_head() + overrides_text(gs.take(i + 1)));
        }
        i = i + 1;
    }
    proof {
        assert(gs.take(n as int) =~= gs);
    }
    out.append("</Types>\n");
    out
}

/// The guid of a frame: under its `\\` path, else under its own text.
pub open spec fn frame_guid(guids: Map<Seq<char>, Seq<char>>, frame: Seq<char>) -> Option<Seq<char>> {
    if guids.contains_key(backslashed(frame)) {
        Some(guids[backslashed(frame)])
    } else if guids.contains_key(frame) {
        Some(guids[frame])
    } else {
        None
    }
}

/// The `<source>` elements of a sequence's frames that have guids, and the
/// frame paths they claim.
pub open spec fn frames_xml(frames: Seq<Seq<char>>, guids: Map<Seq<char>, Seq<char>>) -> (Seq<char>, Set<Seq<char>>)
    decreases frames.len(),
{
    if frames.len() == 0 {
        (Seq::empty(), Set::empty())
    } else {
        let prev = frames_xml(frames.drop_last(), guids);
        let f = frames.last();
        match frame_guid(guids, f) {
            Some(g) => (
                prev.0 + "<source guid=\""@ + g + "\">"@ + escaped_attr(backslashed(f)) + "</source>"@,
                prev.1.insert(backslashed(f)),
            ),
            None => prev,
        }
    }
}

/// One `<resource>` per sequence, and the frame paths they claim.
pub open spec fn sequences_xml(ss: Seq<(Seq<char>, Seq<Seq<char>>)>, guids: Map<Seq<char>, Seq<char>>) -> (Seq<char>, Set<Seq<char>>)
    decreases ss.len(),
{
    if ss.len() == 0 {
        (Seq::empty(), Set::empty())
    } else {
        let prev = sequences_xml(ss.drop_last(), guids);
        let s = ss.last();
        let fr = frames_xml(s.1, guids);
        (
            prev.0 + "<resource filename=\""@ + escaped_attr(backslashed(s.0)) + "\">"@ + fr.0
                + "</resource>"@,
            prev.1.union(fr.1),
        )
    }
}

/// One `<resource>` of one frame for each guid not claimed by a sequence.
pub open spec fn singles_xml(gs: Seq<(Seq<char>, Seq<char>)>, claimed: Set<Seq<char>>) -> Seq<char>
    decreases gs.len(),
{
    if gs.len() == 0 {
        Seq::empty()
    } else {
        let prev = singles_xml(gs.drop_last(), claimed);
        let e = gs.last();
        if claimed.contains(e.0) {
            prev
        } else {
            let name = escaped_attr(backslashed(e.0));
            prev + "<resource filename=\""@ + name + "\"><source guid=\""@ + e.1 + "\">"@ + name
                + "</source></resource>"@
        }
    }
}

/// The sequences of the assets, in ascending path order.
pub open spec fn asset_sequences(a: WriteAssets) -> Seq<(Seq<char>, Seq<Seq<char>>)> {
    a.sequences.spec_entries().map_values(|e: (Seq<char>, Vec<String>)| (e.0, strings_view(e.1@)))
}

/// `resources.xml`: each sequence as one resource of its frames, then every
/// other asset as a resource of its own.
pub open spec fn resources_text(a: WriteAssets, guid_map: StrMap<String>) -> Seq<char> {
    let sx = sequences_xml(asset_sequences(a), guid_view(guid_map));
    "<resources>"@ + sx.0 + singles_xml(guid_listing(guid_map), sx.1) + "</resources>"@
}

pub open spec fn set_of(v: Seq<String>) -> Set<Seq<char>> {
    Set::new(|k: Seq<char>| exists|i: int| 0 <= i < v.len() && (#[trigger] v[i])@ == k)
}

fn contains_name(v: &Vec<String>, s: &str) -> (res: bool)
    ensures
        res == set_of(v@).contains(s@),
{
    let n = v.len();
    let mut i: usize = 0;
    while i < n
        invariant
            n == v@.len(),
            i <= n,
            forall|j: int| 0 <= j < i ==> (#[trigger] v@[j])@ != s@,
        decreases n - i,
    {
        if str_eq(v[i].as_str(), s) {
            return true;
        }
        i = i + 1;
    }
    false
}

fn guid_of_frame<'a>(guid_map: &'a StrMap<String>, frame: &str) -> (res: Option<&'a String>)
    ensures
        match res {
            Some(g) => frame_guid(guid_view(*guid_map), frame@) == Some(g@),
            None => frame_guid(guid_view(*guid_map), frame@) is None,
        },
{
    let key = backslash(frame);
    match guid_map.get(key.as_str()) {
        Some(g) => Some(g),
        None => guid_map.get(frame),
    }
}

/// `resources.xml` for the assets and their guids (see `resources_text`).
pub fn resources_xml(assets: &WriteAssets, guid_map: &StrMap<String>) -> (res: String)
    ensures
        res@ == resources_text(*assets, *guid_map),
{
    let ghost gv = guid_view(*guid_map);
    let ghost ss = asset_sequences(*assets);
    let mut out = owned("<resources>");
    let mut claimed: Vec<String> = Vec::new();
    let n = assets.sequences.len();
    let mut i: usize = 0;
    proof {
        assert(ss.take(0) =~= Seq::<(Seq<char>, Seq<Seq<char>>)>::empty());
        assert(set_of(claimed@) =~= Set::<Seq<char>>::empty());
        assert(out@ =~= "<resources>"@ + sequences_xml(ss.take(0), gv).0);
    }
    while i < n
        invariant
            gv == guid_view(*guid_map),
            ss == asset_sequences(*assets),
            n == ss.len(),
            i <= n,
            out@ == "<resources>"@ + sequences_xml(ss.take(i as int), gv).0,
            set_of(claimed@) == sequences_xml(ss.take(i as int), gv).1,
        decreases n - i,
    {
        let anchor = assets.sequences.key_at(i);
        let frames = assets.sequences.value_at(i);
        let ghost before_out = out@;
        let ghost before_claimed = set_of(claimed@);
        out.append("<resource filename=\"");
        out.append(esc_attr(backslash(anchor.as_str()).as_str()).as_str());
        out.append("\">");
        let ghost fs = strings_view(frames@);
        let ghost mid_out = out@;
        let f = frames.len();
        let mut j: usize = 0;
        proof {
            assert(fs.take(0) =~= Seq::<Seq<char>>::empty());
            assert(out@ =~= mid_out + frames_xml(fs.take(0), gv).0);
            assert(set_of(claimed@) =~= before_claimed.union(frames_xml(fs.take(0), gv).1));
        }
        while j < f
            invariant
                gv == guid_view(*guid_map),
                fs == strings_view(frames@),
                f == fs.len(),
                j <= f,
                out@ == mid_out + frames_xml(fs.take(j as int), gv).0,
                set_of(claimed@) == before_claimed.union(frames_xml(fs.take(j as int), gv).1),
            decreases f - j,
        {
            let frame = frames[j].as_str();
            let key = backslash(frame);
            proof {
                assert(fs.take(j + 1).drop_last() =~= fs.take(j as int));
                assert(fs.take(j + 1).last() == frame@);
            }
            match guid_of_frame(guid_map, frame) {
                Some(guid) => {
                    let ghost before_v = claimed@;
                    let ghost kv = key@;
                    out.append("<source guid=\"");
                    out.append(guid.as_str());
                    out.append("\">");
                    out.append(esc_attr(key.as_str()).as_str());
                    out.append("</source>");
                    claimed.push(key);
                    proof {
                        assert(set_of(claimed@) =~= set_of(before_v).insert(kv)) by {
                            assert forall|k: Seq<char>| set_of(claimed@).contains(k) implies set_of(before_v).insert(kv).contains(k) by {
                                let w = choose|w: int| 0 <= w < claimed@.len() && (#[trigger] claimed@[w])@ == k;
                                if w < before_v.len() {
                                    assert(before_v[w] == claimed@[w]);
                                }
                            }
                            assert forall|k: Seq<char>| set_of(before_v).insert(kv).contains(k) implies set_of(claimed@).contains(k) by {
                                if k == kv {
                                    assert(claimed@[before_v.len() as int]@ == kv);
                                } else {
                                    let w = choose|w: int| 0 <= w < before_v.len() && (#[trigger] before_v[w])@ == k;
                                    assert(claimed@[w] == before_v[w]);
                                }
                            }
                        }
                        assert(set_of(claimed@) =~= before_claimed.union(frames_xml(fs.take(j + 1), gv).1));
                        assert(out@ =~= mid_out + frames_xml(fs.take(j + 1), gv).0);
                    }
                },
                None => {},
            }
            j = j + 1;
        }
        proof {
            assert(fs.take(f as int) =~= fs);
        }
        out.append("</resource>");
        proof {
            assert(ss.take(i + 1).drop_last() =~= ss.take(i as int));
            assert(ss.take(i + 1).last() == ss[i as int]);
            assert(ss[i as int] == (anchor@, fs));
            assert(out@ =~= "<resources>"@ + sequences_xml(ss.take(i + 1), gv).0);
            assert(set_of(claimed@) =~= sequences_xml(ss.take(i + 1), gv).1);
        }
        i = i + 1;
    }
    proof {
        assert(ss.take(n as int) =~= ss);
    }
    let ghost claimed_set = set_of(claimed@);
    let ghost head = out@;
    let ghost gs = guid_listing(*guid_map);
    let m = guid_map.len();
    let mut k: usize = 0;
    proof {
        assert(gs.take(0) =~= Seq::<(Seq<char>, Seq<char>)>::empty());
        assert(out@ =~= head + singles_xml(gs.take(0), claimed_set));
    }
    while k < m
        invariant
            gs == guid_listing(*guid_map),
            m == gs.len(),
            k <= m,
            claimed_set == set_of(claimed@),
            out@ == head + singles_xml(gs.take(k as int), claimed_set),
        decreases m - k,
    {
        let logical = guid_map.key_at(k);
        let guid = guid_map.value_at(k);
        proof {
            assert(gs.take(k + 1).drop_last() =~= gs.take(k as int));
            assert(gs.take(k + 1).last() == gs[k as int]);
        }
        if !contains_name(&claimed, logical.as_str()) {
            let name = esc_attr(backslash(logical.as_str()).as_str());
            out.append("<resource filename=\"");
            out.append(name.as_str());
            out.append("\"><source guid=\"");
            out.append(guid.as_str());
            out.append("\">");
            out.append(name.as_str());
            out.append("</source></resource>");
        }
        proof {
            assert(out@ =~= head + singles_xml(gs.take(k + 1), claimed_set));
        }
        k = k + 1;
    }
    proof {
        assert(gs.take(m as int) =~= gs);
    }
    out.append("</resources>");
    out
}

/// A GUID in its usual text form: 32 lowercase hex digits in groups of 8,
/// 4, 4, 4 and 12, joined by hyphens.
pub open spec fn is_guid_text(s: Seq<char>) -> bool {
    &&& s.len() == 36
    &&& forall|i: int|
        0 <= i < 36 ==> if i == 8 || i == 13 || i == 18 || i == 23 {
            #[trigger] s[i] == '-'
        } else {
            ('0' <= s[i] <= '9') || ('a' <= s[i] <= 'f')
        }
}

/// `uuid::Uuid::new_v4().to_string()`: a fresh random GUID, in its
/// hyphenated lowercase form. Which GUID comes is left open.
#[verifier::external_body]
fn new_guid() -> (g: String)
    ensures
        is_guid_text(g@),
{
    uuid::Uuid::new_v4().to_string()
}

/// A fresh GUID for every asset, under the asset's logical path.
pub fn assign_guids(assets: &WriteAssets) -> (m: StrMap<String>)
    ensures
        m@.dom() == assets.blobs@.dom(),
        forall|k: Seq<char>| #[trigger] m@.contains_key(k) ==> is_guid_text(m@[k]@),
{
    let mut m: StrMap<String> = StrMap::new();
    let n = assets.blobs.len();
    let ghost keys = assets.blobs.keys_view();
    let mut i: usize = 0;
    proof {
        assets.blobs.lemma_listing();
        assert(keys.take(0) =~= Seq::<Seq<char>>::empty());
    }
    while i < n
        invariant
            keys == assets.blobs.keys_view(),
            n == keys.len(),
            i <= n,
            forall|k: Seq<char>| m@.contains_key(k) <==> exists|j: int| 0 <= j < i && #[trigger] keys[j] == k,
            forall|k: Seq<char>| #[trigger] m@.contains_key(k) ==> is_guid_text(m@[k]@),
        decreases n - i,
    {
        let key = assets.blobs.key_at(i);
        let ghost kv = key@;
        m.insert(owned(key.as_str()), new_guid());
        proof {
            assert(keys[i as int] == kv);
        }
        i = i + 1;
    }
    proof {
        assert forall|k: Seq<char>| m@.contains_key(k) <==> assets.blobs@.contains_key(k) by {
            if m@.contains_key(k) {
                let j = choose|j: int| 0 <= j < n && #[trigger] keys[j] == k;
                assert(assets.blobs.spec_entries()[j].0 == k);
            }
            if assets.blobs@.contains_key(k) {
                let j = choose|j: int| 0 <= j < assets.blobs.spec_entries().len() && #[trigger] assets.blobs.spec_entries()[j].0 == k;
                assert(keys[j] == k);
            }
        }
        assert(m@.dom() =~= assets.blobs@.dom());
    }
    m
}

/// The blobs in ascending path order, each under its GUID.
pub open spec fn blob_entries(
    bs: Seq<(Seq<char>, Vec<u8>)>,
    guids: Map<Seq<char>, Seq<char>>,
) -> Seq<(Seq<char>, Seq<u8>)> {
    bs.map_values(|b: (Seq<char>, Vec<u8>)| (guids[b.0], b.1@))
}

/// What a `.gtzip` holds, in order: `[Content_Types].xml`, `document.xml`
/// (UTF-8 without a byte order mark), `resources.xml`, then every asset
/// under its GUID.
pub open spec fn package_entries(
    document_xml: Seq<char>,
    assets: WriteAssets,
    guid_map: StrMap<String>,
) -> Seq<(Seq<char>, Seq<u8>)> {
    seq![
        ("[Content_Types].xml"@, encode_utf8(content_types_head() + overrides_text(guid_listing(guid_map)) + "</Types>\n"@)),
        ("document.xml"@, encode_utf8(document_xml)),
        ("resources.xml"@, encode_utf8(resources_text(assets, guid_map))),
    ] + blob_entries(assets.blobs.spec_entries(), guid_view(guid_map))
}

fn zip_error(e: &zip::result::ZipError) -> (err: Error)
    ensures
        err is Zip,
{
    Error::Zip(zip_error_text(e))
}

/// Writes one entry of the archive: a new short name in a small archive is
/// written.
fn add_file(w: &mut Writer, name: &str, bytes: &[u8]) -> (res: Result<(), Error>)
    ensures
        res is Ok ==> zip_written(*final(w)) == zip_written(*old(w)).push((name@, bytes@)),
        res matches Err(e) ==> e is Zip || e is Io,
        (!has_name(zip_written(*old(w)), name@) && short_name(name@) && small_archive(
            archive_room(zip_written(*old(w)).push((name@, bytes@))),
        )) ==> res is Ok,
{
    let ghost before = zip_written(*w);
    proof {
        assert(before.push((name@, Seq::<u8>::empty())).drop_last() =~= before);
        assert(before.push((name@, bytes@)).drop_last() =~= before);
    }
    match zip_start_file(w, name) {
        Ok(()) => {},
        Err(e) => return Err(zip_error(&e)),
    }
    let ghost started = zip_written(*w);
    match zip_write_all(w, bytes) {
        Ok(()) => {},
        Err(e) => return Err(Error::Io(io_error_text(&e))),
    }
    proof {
        assert(zip_written(*w) =~= zip_written(*old(w)).push((name@, bytes@)));
    }
    Ok(())
}

/// No two paths share a GUID.
pub open spec fn guids_distinct(guid_map: StrMap<String>) -> bool {
    forall|a: Seq<char>, b: Seq<char>|
        #![trigger guid_map@[a], guid_map@[b]]
        guid_map@.contains_key(a) && guid_map@.contains_key(b) && a != b ==> guid_map@[a]@
            != guid_map@[b]@
}

/// The entries of a package with distinct GUIDs have distinct, short names.
proof fn lemma_package_names(document_xml: Seq<char>, assets: WriteAssets, guid_map: StrMap<String>)
    requires
        guid_map@.dom() == assets.blobs@.dom(),
        forall|k: Seq<char>| #[trigger] guid_map@.contains_key(k) ==> is_guid_text(guid_map@[k]@),
        guids_distinct(guid_map),
        crate::strmap::keys_sorted(assets.blobs.spec_entries()),
        "[Content_Types].xml"@.len() == 19,
        "document.xml"@.len() == 12,
        "resources.xml"@.len() == 13,
    ensures
        ({
            let full = package_entries(document_xml, assets, guid_map);
            &&& forall|a: int, b: int| 0 <= a < b < full.len() ==> #[trigger] full[a].0 != #[trigger] full[b].0
            &&& forall|a: int| 0 <= a < full.len() ==> short_name(#[trigger] full[a].0)
        }),
{
    let full = package_entries(document_xml, assets, guid_map);
    let bs = assets.blobs.spec_entries();
    let gv = guid_view(guid_map);
    assets.blobs.lemma_listing();
    assert forall|a: int| 3 <= a < full.len() implies #[trigger] full[a].0 == gv[bs[a - 3].0]
        && full[a].0.len() == 36 && guid_map@.contains_key(bs[a - 3].0) by {
        assert(full[a] == blob_entries(bs, gv)[a - 3]);
        assert(assets.blobs@.contains_key(bs[a - 3].0));
        assert(is_guid_text(guid_map@[bs[a - 3].0]@));
    }
    assert forall|a: int| 0 <= a < full.len() implies short_name(#[trigger] full[a].0) by {
        if a >= 3 {
            assert(full[a].0.len() == 36);
        }
    }
    assert forall|a: int, b: int| 0 <= a < b < full.len() implies #[trigger] full[a].0 != #[trigger] full[b].0 by {
        if a >= 3 {
            let ka = bs[a - 3].0;
            let kb = bs[b - 3].0;
            assert(crate::text::seq_lt(bs[a - 3].0, bs[b - 3].0));
            if ka == kb {
                crate::text::lemma_seq_lt_irreflexive(ka);
            }
            assert(guid_map@[ka]@ != guid_map@[kb]@);
        } else if b >= 3 {
            assert(full[b].0.len() == 36);
        }
    }
}

/// The `.gtzip` bytes of a document's text and assets, each asset under the
/// GUID that `guid_map` gives its path (see `package_entries`): an archive
/// that reads back as exactly those entries.
pub fn write_gtzip_with_guids(document_xml: &str, assets: &WriteAssets, guid_map: &StrMap<String>) -> (res: Result<Vec<u8>, Error>)
    requires
        guid_map@.dom() == assets.blobs@.dom(),
        forall|k: Seq<char>| #[trigger] guid_map@.contains_key(k) ==> is_guid_text(guid_map@[k]@),
    ensures
        res matches Ok(bytes) ==> (zip_read_all(bytes@) matches Ok(items) && reads_back(
            items,
            package_entries(document_xml@, *assets, *guid_map),
        )),
        res matches Err(e) ==> e is Zip || e is Io,
        (guids_distinct(*guid_map) && small_archive(
            archive_room(package_entries(document_xml@, *assets, *guid_map)),
        )) ==> res is Ok,
{
    let ghost full = package_entries(document_xml@, *assets, *guid_map);
    let ghost fits = guids_distinct(*guid_map) && small_archive(archive_room(full));
    let n = assets.blobs.len();
    let mut w = zip_writer();
    let ghost gv = guid_view(*guid_map);
    proof {
        reveal_strlit("[Content_Types].xml");
        reveal_strlit("document.xml");
        reveal_strlit("resources.xml");
        if fits {
            lemma_package_names(document_xml@, *assets, *guid_map);
        }
        assert(zip_written(w) =~= full.take(0));
    }
    let ct = content_types_xml(guid_map);
    let ct_bytes = ct.as_str().as_bytes();
    proof {
        assert(full[0] == ("[Content_Types].xml"@, ct_bytes@));
        if fits {
            lemma_next_entry_fits(full, 0);
        }
    }
    add_file(&mut w, "[Content_Types].xml", ct_bytes)?;
    let doc_bytes = document_xml.as_bytes();
    proof {
        assert(zip_written(w) =~= full.take(1));
        assert(full[1] == ("document.xml"@, doc_bytes@));
        if fits {
            lemma_next_entry_fits(full, 1);
        }
    }
    add_file(&mut w, "document.xml", doc_bytes)?;
    let rx = resources_xml(assets, guid_map);
    let rx_bytes = rx.as_str().as_bytes();
    proof {
        assert(zip_written(w) =~= full.take(2));
        assert(full[2] == ("resources.xml"@, rx_bytes@));
        if fits {
            lemma_next_entry_fits(full, 2);
        }
    }
    add_file(&mut w, "resources.xml", rx_bytes)?;
    let ghost head = zip_written(w);
    let ghost bs = assets.blobs.spec_entries();
    let mut i: usize = 0;
    proof {
        assets.blobs.lemma_listing();
        assert(bs.take(0) =~= Seq::<(Seq<char>, Vec<u8>)>::empty());
        assert(head =~= full.take(3));
        assert(full =~= head + blob_entries(bs, gv));
    }
    while i < n
        invariant
            bs == assets.blobs.spec_entries(),
            n == bs.len(),
            i <= n,
            gv == guid_view(*guid_map),
            guid_map@.dom() == assets.blobs@.dom(),
            forall|k: Seq<char>| #[trigger] guid_map@.contains_key(k) ==> is_guid_text(guid_map@[k]@),
            forall|j: int| 0 <= j < bs.len() ==> assets.blobs@.contains_key(#[trigger] bs[j].0),
            zip_written(w) == head + blob_entries(bs.take(i as int), gv),
            head.len() == 3,
            forall|j: int| 0 <= j < head.len() ==> is_file_name(#[trigger] head[j].0),
            full == package_entries(document_xml@, *assets, *guid_map),
            full == head + blob_entries(bs, gv),
            fits == (guids_distinct(*guid_map) && small_archive(archive_room(full))),
            fits ==> (forall|a: int, b: int| 0 <= a < b < full.len() ==> #[trigger] full[a].0 != #[trigger] full[b].0),
            fits ==> (forall|a: int| 0 <= a < full.len() ==> short_name(#[trigger] full[a].0)),
        decreases n - i,
    {
        let path = assets.blobs.key_at(i);
        let bytes = assets.blobs.value_at(i);
        proof {
            assert(guid_map@.contains_key(bs[i as int].0));
        }
        let guid = match guid_map.get(path.as_str()) {
            Some(g) => g,
            None => {
                proof {
                    assert(false);
                }
                return Err(Error::Invalid(owned("missing guid for ").concat(path.as_str())));
            },
        };
        proof {
            assert(zip_written(w) =~= full.take(3 + i));
            assert(full[3 + i] == blob_entries(bs, gv)[i as int]);
            assert(full[3 + i] == (guid@, bytes@));
            if fits {
                lemma_next_entry_fits(full, 3 + i);
            }
        }
        add_file(&mut w, guid.as_str(), bytes.as_slice())?;
        proof {
            assert(bs.take(i + 1) =~= bs.take(i as int).push(bs[i as int]));
            assert(zip_written(w) =~= head + blob_entries(bs.take(i + 1), gv));
        }
        i = i + 1;
    }
    proof {
        assert(bs.take(n as int) =~= bs);
        let all = zip_written(w);
        assert(all =~= full);
        assert forall|j: int| 0 <= j < all.len() implies is_file_name(#[trigger] all[j].0) by {
            if j >= 3 {
                let k = bs[j - 3].0;
                assert(all[j] == blob_entries(bs, gv)[j - 3]);
                assert(guid_map@.contains_key(k));
                assert(is_guid_text(guid_map@[k]@));
                assert(gv[k] == guid_map@[k]@);
                assert(gv[k][35] == guid_map@[k]@[35]);
            } else {
                assert(all[j] == head[j]);
            }
        }
    }
    match zip_finish(w) {
        Ok(bytes) => Ok(bytes),
        Err(e) => Err(zip_error(&e)),
    }
}

/// The next entry of a package whose names are distinct and short, in a
/// small archive, can be written after those before it.
proof fn lemma_next_entry_fits(full: Seq<(Seq<char>, Seq<u8>)>, k: int)
    requires
        0 <= k < full.len(),
        forall|a: int, b: int| 0 <= a < b < full.len() ==> #[trigger] full[a].0 != #[trigger] full[b].0,
        forall|a: int| 0 <= a < full.len() ==> short_name(#[trigger] full[a].0),
        small_archive(archive_room(full)),
    ensures
        !has_name(full.take(k), full[k].0),
        short_name(full[k].0),
        small_archive(archive_room(full.take(k).push(full[k]))),
{
    assert(full.take(k).push(full[k]) =~= full.take(k + 1));
    lemma_room_prefix(full, k + 1);
    if has_name(full.take(k), full[k].0) {
        let i = choose|i: int| 0 <= i < full.take(k).len() && (#[trigger] full.take(k)[i]).0 == full[k].0;
        assert(full[i].0 == full[k].0);
    }
}

/// The `.gtzip` bytes of a document's text and assets, under fresh GUIDs:
/// an archive that reads back as `[Content_Types].xml`, `document.xml`,
/// `resources.xml` and every asset under its GUID (see `package_entries`).
/// It is written whenever the fresh GUIDs differ and the archive is small;
/// which GUIDs come is left open.
pub fn write_gtzip_bytes(document_xml: &str, assets: &WriteAssets) -> (res: Result<Vec<u8>, Error>)
    ensures
        exists|guid_map: StrMap<String>|
            #![trigger package_entries(document_xml@, *assets, guid_map)]
            {
                &&& guid_map@.dom() == assets.blobs@.dom()
                &&& forall|k: Seq<char>| #[trigger] guid_map@.contains_key(k) ==> is_guid_text(guid_map@[k]@)
                &&& res matches Ok(bytes) ==> (zip_read_all(bytes@) matches Ok(items) && reads_back(
                    items,
                    package_entries(document_xml@, *assets, guid_map),
                ))
                &&& (guids_distinct(guid_map) && small_archive(
                    archive_room(package_entries(document_xml@, *assets, guid_map)),
                )) ==> res is Ok
            },
        res matches Err(e) ==> e is Zip || e is Io,
{
    let guid_map = assign_guids(assets);
    write_gtzip_with_guids(document_xml, assets, &guid_map)
}

/// Two spaces per level of indentation.
pub open spec fn pad(n: nat) -> Seq<char>
    decreases n,
{
    if n == 0 {
        Seq::empty()
    } else {
        pad((n - 1) as nat) + "  "@
    }
}

pub(crate) fn make_pad(n: usize) -> (res: String)
    ensures
        res@ == pad(n as nat),
{
    let mut out = String::new();
    let mut i: usize = 0;
    proof {
        reveal_strlit("");
        assert(out@ =~= pad(0));
    }
    while i < n
        invariant
            i <= n,
            out@ == pad(i as nat),
        decreases n - i,
    {
        out.append("  ");
        i = i + 1;
    }
    out
}

/// The numbers of an animation as they are written: its delay (none when
/// zero), duration and speed.
#[derive(Debug, Clone)]
pub struct AnimationNumbers {
    pub delay: Option<String>,
    pub duration: String,
    pub speed: String,
}

/// ` ` and the text, when `c` holds.
pub open spec fn attr_if(c: bool, text: Seq<char>) -> Seq<char> {
    if c {
        " "@ + text
    } else {
        Seq::empty()
    }
}

/// `key="value"` with the value escaped.
pub open spec fn attr_text(key: Seq<char>, value: Seq<char>) -> Seq<char> {
    key + "=\""@ + escaped_attr(value) + "\""@
}

/// The unread attributes, each after a space, in ascending key order.
pub open spec fn extra_attrs_text(entries: Seq<(Seq<char>, String)>) -> Seq<char>
    decreases entries.len(),
{
    if entries.len() == 0 {
        Seq::empty()
    } else {
        extra_attrs_text(entries.drop_last()) + " "@ + attr_text(entries.last().0, entries.last().1@)
    }
}

pub open spec fn text_or_empty(t: Option<String>) -> Seq<char> {
    match t {
        Some(s) => s@,
        None => Seq::empty(),
    }
}

/// The direction an animation of this kind has when none is written.
pub open spec fn default_direction(kind: Seq<char>) -> Seq<char> {
    if kind == "Scroll"@ {
        "Bottom"@
    } else {
        "Left"@
    }
}

/// `key="value"`, the value as it is.
pub open spec fn raw_text(key: Seq<char>, value: Seq<char>) -> Seq<char> {
    key + "=\""@ + value + "\""@
}

/// The start of an animation element: its tag and `Object`.
pub open spec fn animation_head(a: Animation, indent: nat) -> Seq<char> {
    pad(indent) + "<"@ + a.kind@ + " "@ + attr_text("Object"@, text_or_empty(a.object))
}

/// `Delay` when not zero, `Duration` when timed and not `1`, `Reverse`.
pub open spec fn animation_timing(a: Animation, nums: AnimationNumbers) -> Seq<char> {
    attr_if(nums.delay is Some, raw_text("Delay"@, nums.delay->0@)) + attr_if(
        !is_continuous_kind(a.kind@) && (a.duration matches Some(d) && d@ != "1"@),
        raw_text("Duration"@, nums.duration@),
    ) + attr_if(a.reversed, raw_text("Reverse"@, "True"@))
}

/// `Interpolation` unless linear, `Direction` unless the default,
/// `CenterAxis` unless `Both`, `Speed` when continuous and not `1`.
pub open spec fn animation_style(a: Animation, nums: AnimationNumbers) -> Seq<char> {
    attr_if(
        a.interpolation matches Some(i) && !same_ignoring_case(i@, "Linear"@),
        attr_text("Interpolation"@, a.interpolation->0@),
    ) + attr_if(
        a.direction matches Some(d) && !same_ignoring_case(d@, default_direction(a.kind@)),
        attr_text("Direction"@, a.direction->0@),
    ) + attr_if(
        a.center_axis matches Some(x) && !same_ignoring_case(x@, "Both"@),
        attr_text("CenterAxis"@, a.center_axis->0@),
    ) + attr_if(
        is_continuous_kind(a.kind@) && (a.speed matches Some(v) && v@ != "1"@),
        raw_text("Speed"@, nums.speed@),
    )
}

/// An animation element (see `animation_head`, `animation_timing` and
/// `animation_style`), then its unread attributes.
pub open spec fn animation_xml(a: Animation, nums: AnimationNumbers, indent: nat) -> Seq<char> {
    animation_head(a, indent) + animation_timing(a, nums) + animation_style(a, nums)
        + extra_attrs_text(a.extra_attrs.spec_entries()) + " />\n"@
}

fn push_attr(out: &mut String, key: &str, value: &str)
    ensures
        final(out)@ == old(out)@ + " "@ + attr_text(key@, value@),
{
    out.append(" ");
    out.append(key);
    out.append("=\"");
    out.append(esc_attr(value).as_str());
    out.append("\"");
}

fn push_raw(out: &mut String, key: &str, value: &str)
    ensures
        final(out)@ == old(out)@ + " "@ + raw_text(key@, value@),
{
    out.append(" ");
    out.append(key);
    out.append("=\"");
    out.append(value);
    out.append("\"");
}

fn push_timing(out: &mut String, a: &Animation, nums: &AnimationNumbers)
    ensures
        final(out)@ == old(out)@ + animation_timing(*a, *nums),
{
    let ghost s0 = out@;
    if let Some(d) = &nums.delay {
        push_raw(out, "Delay", d.as_str());
    }
    let ghost s1 = out@;
    let timed = match &a.duration {
        Some(d) => !a.is_continuous_type() && !str_eq(d.as_str(), "1"),
        None => false,
    };
    if timed {
        push_raw(out, "Duration", nums.duration.as_str());
    }
    let ghost s2 = out@;
    if a.reversed {
        push_raw(out, "Reverse", "True");
    }
    proof {
        assert(s1 =~= s0 + attr_if(nums.delay is Some, raw_text("Delay"@, nums.delay->0@)));
        assert(s2 =~= s1 + attr_if(
            !is_continuous_kind(a.kind@) && (a.duration matches Some(d) && d@ != "1"@),
            raw_text("Duration"@, nums.duration@),
        ));
        assert(out@ =~= s0 + animation_timing(*a, *nums));
    }
}

/// ` key="value"` when the value is given and is not `default`.
fn push_unless(out: &mut String, key: &str, value: &Option<String>, default: &str)
    ensures
        final(out)@ == old(out)@ + attr_if(
            value matches Some(v) && !same_ignoring_case(v@, default@),
            attr_text(key@, value->0@),
        ),
{
    let ghost s0 = out@;
    if let Some(v) = value {
        if !eq_ignore_ascii_case(v.as_str(), default) {
            push_attr(out, key, v.as_str());
        }
    }
    proof {
        assert(out@ =~= s0 + attr_if(
            value matches Some(v) && !same_ignoring_case(v@, default@),
            attr_text(key@, value->0@),
        ));
    }
}

fn push_style(out: &mut String, a: &Animation, nums: &AnimationNumbers)
    ensures
        final(out)@ == old(out)@ + animation_style(*a, *nums),
{
    let ghost s0 = out@;
    push_unless(out, "Interpolation", &a.interpolation, "Linear");
    let default_dir = if str_eq(a.kind.as_str(), "Scroll") {
        "Bottom"
    } else {
        "Left"
    };
    push_unless(out, "Direction", &a.direction, default_dir);
    push_unless(out, "CenterAxis", &a.center_axis, "Both");
    let ghost s3 = out@;
    let fast = match &a.speed {
        Some(v) => a.is_continuous_type() && !str_eq(v.as_str(), "1"),
        None => false,
    };
    if fast {
        push_raw(out, "Speed", nums.speed.as_str());
    }
    proof {
        assert(out@ =~= s3 + attr_if(
            is_continuous_kind(a.kind@) && (a.speed matches Some(v) && v@ != "1"@),
            raw_text("Speed"@, nums.speed@),
        ));
        assert(out@ =~= s0 + animation_style(*a, *nums));
    }
}

fn push_extras(out: &mut String, attrs: &StrMap<String>)
    ensures
        final(out)@ == old(out)@ + extra_attrs_text(attrs.spec_entries()),
{
    let ghost s0 = out@;
    let n = attrs.len();
    let ghost es = attrs.spec_entries();
    let mut i: usize = 0;
    proof {
        assert(es.take(0) =~= Seq::<(Seq<char>, String)>::empty());
        assert(out@ =~= s0 + extra_attrs_text(es.take(0)));
    }
    while i < n
        invariant
            es == attrs.spec_entries(),
            n == es.len(),
            i <= n,
            out@ == s0 + extra_attrs_text(es.take(i as int)),
        decreases n - i,
    {
        push_attr(out, attrs.key_at(i).as_str(), attrs.value_at(i).as_str());
        proof {
            assert(es.take(i + 1).drop_last() =~= es.take(i as int));
            assert(es.take(i + 1).last() == es[i as int]);
            assert(out@ =~= s0 + extra_attrs_text(es.take(i + 1)));
        }
        i = i + 1;
    }
    proof {
        assert(es.take(n as int) =~= es);
    }
}

/// An animation written back as XML (see `animation_xml`); `nums` holds its
/// numbers as written.
pub fn serialize_animation(animation: &Animation, indent: usize, nums: &AnimationNumbers) -> (res: String)
    ensures
        res@ == animation_xml(*animation, *nums, indent as nat),
{
    let a = animation;
    let mut out = make_pad(indent);
    out.append("<");
    out.append(a.kind.as_str());
    let object: &str = match &a.object {
        Some(o) => o.as_str(),
        None => "",
    };
    proof {
        reveal_strlit("");
        assert(""@ =~= Seq::<char>::empty());
    }
    push_attr(&mut out, "Object", object);
    let ghost head = out@;
    proof {
        assert(head =~= animation_head(*a, indent as nat));
    }
    push_timing(&mut out, a, nums);
    push_style(&mut out, a, nums);
    push_extras(&mut out, &a.extra_attrs);
    out.append(" />\n");
    proof {
        assert(out@ =~= animation_xml(*animation, *nums, indent as nat));
    }
    out
}

/// Animation elements one after another, each with its numbers.
pub open spec fn animations_xml(anims: Seq<Animation>, nums: Seq<AnimationNumbers>, indent: nat) -> Seq<char>
    decreases anims.len(),
{
    if anims.len() == 0 {
        Seq::empty()
    } else {
        animations_xml(anims.drop_last(), nums, indent) + animation_xml(
            anims.last(),
            nums[anims.len() - 1],
            indent,
        )
    }
}

/// A storyboard element: `Type` unless `TransitionIn`, `DataName` when
/// scoped, then its animations.
pub open spec fn storyboard_xml(sb: Storyboard, nums: Seq<AnimationNumbers>, indent: nat) -> Seq<char> {
    let p = pad(indent);
    let ty = effective_type_of(sb.storyboard_type);
    p + "<Storyboard"@ + attr_if(!same_ignoring_case(ty, "TransitionIn"@), attr_text("Type"@, ty))
        + attr_if(
        sb.data_name matches Some(n) && n@.len() > 0,
        attr_text("DataName"@, text_or_empty(sb.data_name)),
    ) + ">\n"@ + p + "  <Storyboard.Animations>\n"@ + animations_xml(sb.animations@, nums, indent + 2)
        + p + "  </Storyboard.Animations>\n"@ + p + "</Storyboard>\n"@
}

/// A storyboard written back as XML (see `storyboard_xml`); `nums` holds
/// the numbers of its animations, in order.
pub fn serialize_storyboard(storyboard: &Storyboard, indent: usize, nums: &Vec<AnimationNumbers>) -> (res: String)
    requires
        nums@.len() == storyboard.animations@.len(),
        indent + 2 <= usize::MAX,
    ensures
        res@ == storyboard_xml(*storyboard, nums@, indent as nat),
{
    let p = make_pad(indent);
    let mut out = owned(p.as_str());
    out.append("<Storyboard");
    let ty = storyboard.effective_type();
    let ghost s0 = out@;
    if !eq_ignore_ascii_case(ty, "TransitionIn") {
        push_attr(&mut out, "Type", ty);
    }
    let ghost s1 = out@;
    if storyboard.is_scoped() {
        let name: &str = match &storyboard.data_name {
            Some(n) => n.as_str(),
            None => "",
        };
        push_attr(&mut out, "DataName", name);
    }
    proof {
        assert(s1 =~= s0 + attr_if(!same_ignoring_case(effective_type_of(storyboard.storyboard_type), "TransitionIn"@), attr_text("Type"@, effective_type_of(storyboard.storyboard_type))));
        assert(out@ =~= s1 + attr_if(
            storyboard.data_name matches Some(n) && n@.len() > 0,
            attr_text("DataName"@, text_or_empty(storyboard.data_name)),
        ));
    }
    out.append(">\n");
    out.append(p.as_str());
    out.append("  <Storyboard.Animations>\n");
    let ghost head = out@;
    let ghost anims = storyboard.animations@;
    let n = storyboard.animations.len();
    let mut i: usize = 0;
    proof {
        assert(anims.take(0) =~= Seq::<Animation>::empty());
        assert(out@ =~= head + animations_xml(anims.take(0), nums@, (indent + 2) as nat));
    }
    while i < n
        invariant
            anims == storyboard.animations@,
            n == anims.len(),
            nums@.len() == n,
            i <= n,
            indent + 2 <= usize::MAX,
            out@ == head + animations_xml(anims.take(i as int), nums@, (indent + 2) as nat),
        decreases n - i,
    {
        let one = serialize_animation(&storyboard.animations[i], indent + 2, &nums[i]);
        out.append(one.as_str());
        proof {
            assert(anims.take(i + 1).drop_last() =~= anims.take(i as int));
            assert(anims.take(i + 1).last() == anims[i as int]);
            assert(out@ =~= head + animations_xml(anims.take(i + 1), nums@, (indent + 2) as nat));
        }
        i = i + 1;
    }
    proof {
        assert(anims.take(n as int) =~= anims);
    }
    out.append(p.as_str());
    out.append("  </Storyboard.Animations>\n");
    out.append(p.as_str());
    out.append("</Storyboard>\n");
    proof {
        assert(out@ =~= storyboard_xml(*storyboard, nums@, indent as nat));
    }
    out
}

/// Whether a storyboard is written: one scoped to a data name only when
/// one of the objects has a field of that name.
pub open spec fn keeps_storyboard(sb: Storyboard, objects: Seq<crate::fields::FieldSource>) -> bool {
    let fields = crate::fields::document_fields(objects);
    !(sb.data_name matches Some(n) && n@.len() > 0) || exists|i: int|
        0 <= i < fields.len() && (#[trigger] fields[i]).0 == text_or_empty(sb.data_name)
}

/// The storyboards that are written, one after another, each with the
/// numbers of its animations.
pub open spec fn storyboards_xml(
    sbs: Seq<Storyboard>,
    nums: Seq<Vec<AnimationNumbers>>,
    objects: Seq<crate::fields::FieldSource>,
    indent: nat,
) -> Seq<char>
    decreases sbs.len(),
{
    if sbs.len() == 0 {
        Seq::empty()
    } else {
        storyboards_xml(sbs.drop_last(), nums, objects, indent) + crate::objects::child_if(
            keeps_storyboard(sbs.last(), objects),
            storyboard_xml(sbs.last(), nums[sbs.len() - 1]@, indent),
        )
    }
}

/// The storyboards of a document written back (see `storyboards_xml`);
/// `nums` holds the numbers of each storyboard's animations.
pub fn serialize_storyboards(
    storyboards: &Vec<Storyboard>,
    nums: &Vec<Vec<AnimationNumbers>>,
    objects: &Vec<crate::fields::FieldSource>,
    indent: usize,
) -> (res: String)
    requires
        nums@.len() == storyboards@.len(),
        forall|i: int| 0 <= i < nums@.len() ==> (#[trigger] nums@[i])@.len() == storyboards@[i].animations@.len(),
        indent + 2 <= usize::MAX,
    ensures
        res@ == storyboards_xml(storyboards@, nums@, objects@, indent as nat),
{
    let n = storyboards.len();
    let mut out = String::new();
    let mut i: usize = 0;
    proof {
        reveal_strlit("");
        assert(storyboards@.take(0) =~= Seq::<Storyboard>::empty());
    }
    while i < n
        invariant
            n == storyboards@.len(),
            nums@.len() == n,
            forall|j: int| 0 <= j < nums@.len() ==> (#[trigger] nums@[j])@.len() == storyboards@[j].animations@.len(),
            indent + 2 <= usize::MAX,
            i <= n,
            out@ == storyboards_xml(storyboards@.take(i as int), nums@, objects@, indent as nat),
        decreases n - i,
    {
        let sb = &storyboards[i];
        let keep = !sb.is_scoped() || crate::fields::is_known_field(
            objects,
            match &sb.data_name {
                Some(d) => d.as_str(),
                None => "",
            },
        );
        let ghost before = out@;
        if keep {
            let text = serialize_storyboard(sb, indent, &nums[i]);
            out.append(text.as_str());
        }
        proof {
            assert(storyboards@.take(i + 1).drop_last() =~= storyboards@.take(i as int));
            assert(storyboards@.take(i + 1).last() == storyboards@[i as int]);
            assert(keep == keeps_storyboard(*sb, objects@));
            assert(out@ =~= storyboards_xml(storyboards@.take(i + 1), nums@, objects@, indent as nat));
        }
        i = i + 1;
    }
    proof {
        assert(storyboards@.take(n as int) =~= storyboards@);
    }
    out
}

/// Bytes that are read as UTF-8 as they stand: they start with no byte
/// order mark and with no `<` beside a zero byte.
pub open spec fn plain_utf8_start(b: Seq<u8>) -> bool {
    &&& !starts_with(b, seq![0xFFu8, 0xFEu8])
    &&& !starts_with(b, seq![0xFEu8, 0xFFu8])
    &&& !starts_with(b, seq![0xEFu8, 0xBBu8, 0xBFu8])
    &&& !(b.len() >= 2 && b[0] == 0x3C && b[1] == 0)
    &&& !(b.len() >= 2 && b[0] == 0 && b[1] == 0x3C)
}

/// The files that entries written in order leave under each name.
pub open spec fn written_files(ws: Seq<(Seq<char>, Seq<u8>)>) -> Map<Seq<char>, Seq<u8>>
    decreases ws.len(),
{
    if ws.len() == 0 {
        Map::empty()
    } else {
        written_files(ws.drop_last()).insert(ws.last().0, ws.last().1)
    }
}

proof fn lemma_plain_text(doc: Seq<char>)
    requires
        plain_utf8_start(encode_utf8(doc)),
    ensures
        xml_text(encode_utf8(doc)) == Ok::<Seq<char>, Error>(doc),
{
    vstd::utf8::encode_utf8_valid_utf8(doc);
    vstd::utf8::encode_utf8_decode_utf8(doc);
}

proof fn lemma_no_slash_name(s: Seq<char>, seg: Seq<char>)
    requires
        forall|i: int| 0 <= i < s.len() ==> s[i] != '/',
    ensures
        final_name(s, seg) == named(s + seg),
    decreases s.len(),
{
    if s.len() > 0 {
        lemma_no_slash_name(s.drop_last(), seq![s.last()] + seg);
        assert(s.drop_last() + (seq![s.last()] + seg) =~= s + seg);
    } else {
        assert(s + seg =~= seg);
    }
}

proof fn lemma_no_backslash(s: Seq<char>, to: Seq<char>)
    requires
        forall|i: int| 0 <= i < s.len() ==> s[i] != '\\',
    ensures
        replace_seq(s, '\\', to) == s,
    decreases s.len(),
{
    if s.len() > 0 {
        lemma_no_backslash(s.drop_last(), to);
        assert(s.drop_last() + seq![s.last()] =~= s);
    }
}

/// A plain name other than `document.xml` (in any case) names no document.
proof fn lemma_plain_name(s: Seq<char>)
    requires
        s.len() > 2,
        forall|i: int| 0 <= i < s.len() ==> s[i] != '/' && s[i] != '\\',
    ensures
        replace_seq(s, '\\', seq!['/']) == s,
        names_document(s) == same_ignoring_case(s, "document.xml"@),
        s.len() != 12 ==> !names_document(s),
{
    lemma_no_backslash(s, seq!['/']);
    lemma_no_slash_name(s, Seq::empty());
    assert(s + Seq::<char>::empty() =~= s);
    assert(s != seq!['.'] && s != seq!['.', '.']);
    if s.len() != 12 {
        reveal_strlit("document.xml");
        assert(lower_seq(s).len() == s.len());
        assert(lower_seq("document.xml"@).len() == 12);
    }
}

proof fn lemma_taken_prefix(
    items: Seq<Result<ZipEntry, ZipReadError>>,
    ws: Seq<(Seq<char>, Seq<u8>)>,
    doc: Seq<char>,
    k: int,
)
    requires
        reads_back(items, ws),
        0 <= k <= ws.len(),
        ws.len() >= 3,
        ws[1].1 == encode_utf8(doc),
        xml_text(encode_utf8(doc)) == Ok::<Seq<char>, Error>(doc),
        forall|i: int| 0 <= i < ws.len() ==> replace_seq(#[trigger] ws[i].0, '\\', seq!['/']) == ws[i].0,
        forall|i: int| 0 <= i < ws.len() ==> (names_document(#[trigger] ws[i].0) <==> i == 1),
    ensures
        take_items(items.take(k)) == Ok::<crate::package::Collected, Option<Error>>(
            (written_files(ws.take(k)), if k >= 2 { Some(doc) } else { None }),
        ),
    decreases k,
{
    if k == 0 {
        assert(items.take(0) =~= Seq::<Result<ZipEntry, ZipReadError>>::empty());
        assert(ws.take(0) =~= Seq::<(Seq<char>, Seq<u8>)>::empty());
    } else {
        lemma_taken_prefix(items, ws, doc, k - 1);
        assert(items.take(k).drop_last() =~= items.take(k - 1));
        assert(ws.take(k).drop_last() =~= ws.take(k - 1));
        assert(items.take(k).last() == items[k - 1]);
        assert(ws.take(k).last() == ws[k - 1]);
        assert(crate::zipwrite::is_written_file(items[k - 1], ws[k - 1]));
        assert(replace_seq(ws[k - 1].0, '\\', seq!['/']) == ws[k - 1].0);
        assert(names_document(ws[k - 1].0) <==> k - 1 == 1);
    }
}

/// The files left under the name of an entry that no later entry shares are
/// that entry's bytes.
proof fn lemma_last_written(ws: Seq<(Seq<char>, Seq<u8>)>, j: int)
    requires
        0 <= j < ws.len(),
        forall|i: int| j < i < ws.len() ==> (#[trigger] ws[i]).0 != ws[j].0,
    ensures
        written_files(ws).contains_key(ws[j].0),
        written_files(ws)[ws[j].0] == ws[j].1,
    decreases ws.len(),
{
    if j < ws.len() - 1 {
        lemma_last_written(ws.drop_last(), j);
    }
}

/// Reading back a written package: when the entries that `package_entries`
/// lists are read back in order, they are taken in as files whose document
/// is the written document text, which hold the written `resources.xml` and
/// every asset's bytes under its GUID, and so as a package with that
/// document and the resource index read from the written `resources.xml`.
pub proof fn lemma_written_package_reads_back(
    items: Seq<Result<ZipEntry, ZipReadError>>,
    document_xml: Seq<char>,
    assets: WriteAssets,
    guid_map: StrMap<String>,
)
    requires
        crate::strmap::keys_sorted(assets.blobs.spec_entries()),
        guid_map@.dom() == assets.blobs@.dom(),
        forall|k: Seq<char>| #[trigger] guid_map@.contains_key(k) ==> is_guid_text(guid_map@[k]@),
        guids_distinct(guid_map),
        plain_utf8_start(encode_utf8(document_xml)),
        reads_back(items, package_entries(document_xml, assets, guid_map)),
    ensures
        take_items(items) matches Ok(c) && {
            &&& c.1 == Some(document_xml)
            &&& c.0.contains_key("resources.xml"@)
            &&& c.0["resources.xml"@] == encode_utf8(resources_text(assets, guid_map))
            &&& forall|k: Seq<char>| #[trigger] assets.blobs@.contains_key(k) ==> c.0.contains_key(guid_map@[k]@)
                && c.0[guid_map@[k]@] == assets.blobs@[k]@
            &&& forall|path: std::path::PathBuf, res: Result<Package, Error>| #[trigger] built(path, c, res) ==> (
            res matches Ok(p) && p.document_xml@ == document_xml && (p.resources.entries(), p.resources.sequences())
                == resources_of(Some(encode_utf8(resources_text(assets, guid_map)))))
        },
{
    reveal_strlit("[Content_Types].xml");
    reveal_strlit("document.xml");
    reveal_strlit("resources.xml");
    let ws = package_entries(document_xml, assets, guid_map);
    let bs = assets.blobs.spec_entries();
    let gv = guid_view(guid_map);
    lemma_package_names(document_xml, assets, guid_map);
    lemma_plain_text(document_xml);
    assets.blobs.lemma_listing();
    assert forall|i: int| 0 <= i < ws.len() implies replace_seq(#[trigger] ws[i].0, '\\', seq!['/']) == ws[i].0
        && (names_document(ws[i].0) <==> i == 1) by {
        if i >= 3 {
            let k = bs[i - 3].0;
            assert(ws[i] == blob_entries(bs, gv)[i - 3]);
            assert(assets.blobs@.contains_key(k));
            assert(is_guid_text(guid_map@[k]@));
            assert(ws[i].0 == guid_map@[k]@);
            assert forall|j: int| 0 <= j < ws[i].0.len() implies ws[i].0[j] != '/' && ws[i].0[j] != '\\' by {
                assert(is_guid_text(ws[i].0));
            }
            lemma_plain_name(ws[i].0);
        } else {
            assert(forall|j: int| 0 <= j < ws[i].0.len() ==> ws[i].0[j] != '/' && ws[i].0[j] != '\\');
            lemma_plain_name(ws[i].0);
            if i == 1 {
                assert(same_ignoring_case(ws[i].0, "document.xml"@));
            }
        }
    }
    lemma_taken_prefix(items, ws, document_xml, ws.len() as int);
    assert(items.take(ws.len() as int) =~= items);
    assert(ws.take(ws.len() as int) =~= ws);
    let files = written_files(ws);
    assert(ws[2].0 == "resources.xml"@);
    lemma_last_written(ws, 2);
    assert forall|k: Seq<char>| #[trigger] assets.blobs@.contains_key(k) implies files.contains_key(guid_map@[k]@)
        && files[guid_map@[k]@] == assets.blobs@[k]@ by {
        let i = choose|i: int| 0 <= i < bs.len() && #[trigger] bs[i].0 == k;
        assert(ws[3 + i] == blob_entries(bs, gv)[i]);
        assert(ws[3 + i].0 == guid_map@[k]@);
        lemma_last_written(ws, 3 + i);
    }
    assert forall|path: std::path::PathBuf, res: Result<Package, Error>| #[trigger] built(path, (files, Some(document_xml)), res) implies (
        res matches Ok(p) && p.document_xml@ == document_xml && (p.resources.entries(), p.resources.sequences())
            == resources_of(Some(encode_utf8(resources_text(assets, guid_map))))) by {
        assert(crate::package::resources_file(files, res->Ok_0.files.keys_view()) == Some(files["resources.xml"@]));
    }
}

} // verus!

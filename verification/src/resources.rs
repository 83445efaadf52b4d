//! The index of `resources.xml`: which zip entry holds each source path, and
//! the frames of each image sequence.
//!
//! ```xml
//! <resources>
//!   <resource filename="folder\clip.png">
//!     <source guid="g1">folder\frame1.png</source>
//!     <source guid="g2">folder\frame2.png</source>
//!   </resource>
//! </resources>
//! ```
use vstd::prelude::*;

use crate::paths::{normalize_source, normalized};
use crate::strmap::StrMap;
use crate::text::{eq_ignore_ascii_case, same_ignoring_case};
use crate::xml::{read_attributes, xml_attributes, XmlEvent};

verus! {

/// Normalised source path to zip entry, and to the entries of every frame.
#[derive(Debug, Clone)]
pub struct ResourceIndex {
    /// Normalised source path to zip entry name (usually a GUID).
    pub path_to_entry: StrMap<String>,
    /// Normalised source path to all frame entries of an image sequence.
    pub path_to_sequence: StrMap<Vec<String>>,
}

pub open spec fn strings_view(v: Seq<String>) -> Seq<Seq<char>> {
    v.map_values(|s: String| s@)
}

impl ResourceIndex {
    /// Source path to entry name.
    pub open spec fn entries(&self) -> Map<Seq<char>, Seq<char>> {
        self.path_to_entry@.map_values(|s: String| s@)
    }

    /// Source path to the entry names of its frames.
    pub open spec fn sequences(&self) -> Map<Seq<char>, Seq<Seq<char>>> {
        self.path_to_sequence@.map_values(|v: Vec<String>| strings_view(v@))
    }

    /// An index with no entries.
    pub fn new() -> (index: Self)
        ensures
            index.entries() == Map::<Seq<char>, Seq<char>>::empty(),
            index.sequences() == Map::<Seq<char>, Seq<Seq<char>>>::empty(),
    {
        let index = ResourceIndex { path_to_entry: StrMap::new(), path_to_sequence: StrMap::new() };
        assert(index.entries() =~= Map::<Seq<char>, Seq<char>>::empty());
        assert(index.sequences() =~= Map::<Seq<char>, Seq<Seq<char>>>::empty());
        index
    }
}

/// What the scan of `resources.xml` holds between events: whether it is
/// inside a `<resource>`, that resource's file name, its frames as
/// (guid, path) pairs, and the two maps built so far.
pub type ScanState = (
    bool,
    Option<Seq<char>>,
    Seq<(Seq<char>, Seq<char>)>,
    Map<Seq<char>, Seq<char>>,
    Map<Seq<char>, Seq<Seq<char>>>,
);

pub open spec fn scan_start() -> ScanState {
    (false, None, Seq::empty(), Map::empty(), Map::empty())
}

/// The value of the first readable attribute named `key` (ASCII case
/// ignored) whose value could be read.
pub open spec fn attr_value(attrs: Seq<Option<crate::xml::XmlAttr>>, key: Seq<char>) -> Option<
    Seq<char>,
>
    decreases attrs.len(),
{
    if attrs.len() == 0 {
        None
    } else if attrs[0] is Some && same_ignoring_case(attrs[0]->0.key@, key)
        && attrs[0]->0.value is Some {
        Some(attrs[0]->0.value->0@)
    } else {
        attr_value(attrs.drop_first(), key)
    }
}

pub open spec fn on_open(st: ScanState, name: Seq<char>, attrs: Seq<Option<crate::xml::XmlAttr>>) -> ScanState {
    if same_ignoring_case(name, "resource"@) {
        (true, attr_value(attrs, "filename"@), Seq::empty(), st.3, st.4)
    } else if same_ignoring_case(name, "source"@) && st.0 {
        match attr_value(attrs, "guid"@) {
            Some(g) => (st.0, st.1, st.2.push((g, Seq::empty())), st.3, st.4),
            None => st,
        }
    } else {
        st
    }
}

pub open spec fn on_text(st: ScanState, t: Seq<char>) -> ScanState {
    if st.2.len() > 0 && st.2.last().1.len() == 0 {
        (st.0, st.1, st.2.update(st.2.len() - 1, (st.2.last().0, t)), st.3, st.4)
    } else {
        st
    }
}

pub type IndexMaps = (Map<Seq<char>, Seq<char>>, Map<Seq<char>, Seq<Seq<char>>>);

/// Files `key` (when not empty) under `guid` and the resource's frames.
pub open spec fn add_key(m: IndexMaps, key: Seq<char>, guid: Seq<char>, frames: Seq<Seq<char>>) -> IndexMaps {
    if key.len() > 0 {
        (m.0.insert(normalized(key), guid), m.1.insert(normalized(key), frames))
    } else {
        m
    }
}

/// Files each frame under its path, then under its guid.
pub open spec fn add_frames(m: IndexMaps, frames: Seq<(Seq<char>, Seq<char>)>, guids: Seq<Seq<char>>) -> IndexMaps
    decreases frames.len(),
{
    if frames.len() == 0 {
        m
    } else {
        let f = frames.last();
        let m1 = add_frames(m, frames.drop_last(), guids);
        add_key(add_key(m1, f.1, f.0, guids), f.0, f.0, guids)
    }
}

pub open spec fn frame_guids(frames: Seq<(Seq<char>, Seq<char>)>) -> Seq<Seq<char>> {
    frames.map_values(|f: (Seq<char>, Seq<char>)| f.0)
}

/// The maps after a resource closes: its file name leads to its first frame
/// and to all of them, then each frame is filed.
pub open spec fn close_resource(st: ScanState) -> IndexMaps {
    let guids = frame_guids(st.2);
    let m: IndexMaps = match st.1 {
        Some(f) => (
            if guids.len() > 0 {
                st.3.insert(normalized(f), guids[0])
            } else {
                st.3
            },
            st.4.insert(normalized(f), guids),
        ),
        None => (st.3, st.4),
    };
    add_frames(m, st.2, guids)
}

pub open spec fn on_end(st: ScanState, name: Seq<char>) -> ScanState {
    if same_ignoring_case(name, "resource"@) {
        let m = close_resource(st);
        (false, None, Seq::empty(), m.0, m.1)
    } else {
        st
    }
}

pub open spec fn scan_step(st: ScanState, e: XmlEvent) -> ScanState {
    match e {
        XmlEvent::Open { name, attrs, .. } => on_open(st, name@, xml_attributes(attrs@)),
        XmlEvent::Text(t) => on_text(st, t@),
        XmlEvent::End { name } => on_end(st, name@),
        _ => st,
    }
}

/// The scan after the given events.
pub open spec fn scan(events: Seq<XmlEvent>) -> ScanState
    decreases events.len(),
{
    if events.len() == 0 {
        scan_start()
    } else {
        scan_step(scan(events.drop_last()), events.last())
    }
}

pub open spec fn frames_view(v: Seq<(String, String)>) -> Seq<(Seq<char>, Seq<char>)> {
    v.map_values(|f: (String, String)| (f.0@, f.1@))
}

pub open spec fn option_view(o: Option<String>) -> Option<Seq<char>> {
    match o {
        Some(s) => Some(s@),
        None => None,
    }
}

proof fn lemma_insert_map_values<V, W>(m: Map<Seq<char>, V>, k: Seq<char>, v: V, f: spec_fn(V) -> W)
    ensures
        m.insert(k, v).map_values(f) == m.map_values(f).insert(k, f(v)),
{
    assert(m.insert(k, v).map_values(f) =~= m.map_values(f).insert(k, f(v)));
}

/// The value of the first attribute named `key` whose value could be read.
fn find_attr(attrs: &Vec<Option<crate::xml::XmlAttr>>, key: &str) -> (res: Option<String>)
    ensures
        option_view(res) == attr_value(attrs@, key@),
{
    let n = attrs.len();
    let mut i: usize = 0;
    proof {
        assert(attrs@.subrange(0, n as int) =~= attrs@);
    }
    while i < n
        invariant
            n == attrs@.len(),
            i <= n,
            attr_value(attrs@, key@) == attr_value(attrs@.subrange(i as int, n as int), key@),
        decreases n - i,
    {
        proof {
            assert(attrs@.subrange(i as int, n as int).drop_first() =~= attrs@.subrange(
                i + 1,
                n as int,
            ));
            assert(attrs@.subrange(i as int, n as int)[0] == attrs@[i as int]);
        }
        if let Some(a) = &attrs[i] {
            if eq_ignore_ascii_case(a.key.as_str(), key) {
                if let Some(v) = &a.value {
                    return Some(v.clone());
                }
            }
        }
        i = i + 1;
    }
    proof {
        assert(attrs@.subrange(n as int, n as int).len() == 0);
    }
    None
}

/// The guids of the frames, in order.
fn frame_guid_list(frames: &Vec<(String, String)>) -> (g: Vec<String>)
    ensures
        strings_view(g@) == frame_guids(frames_view(frames@)),
{
    let mut g: Vec<String> = Vec::new();
    let n = frames.len();
    let mut i: usize = 0;
    while i < n
        invariant
            n == frames@.len(),
            i <= n,
            g@.len() == i,
            strings_view(g@) == frame_guids(frames_view(frames@)).take(i as int),
        decreases n - i,
    {
        let ghost before = g@;
        g.push(frames[i].0.clone());
        proof {
            assert forall|j: int| 0 <= j < i + 1 implies #[trigger] strings_view(g@)[j]
                == frame_guids(frames_view(frames@)).take(i + 1)[j] by {
                if j < i {
                    assert(g@[j] == before[j]);
                    assert(strings_view(before)[j] == frame_guids(frames_view(frames@)).take(
                        i as int,
                    )[j]);
                }
            }
            assert(strings_view(g@) =~= frame_guids(frames_view(frames@)).take(i + 1));
        }
        i = i + 1;
    }
    proof {
        assert(frame_guids(frames_view(frames@)).take(n as int) =~= frame_guids(frames_view(frames@)));
    }
    g
}

pub(crate) fn copy_strings(v: &Vec<String>) -> (c: Vec<String>)
    ensures
        c@ == v@,
{
    let mut c: Vec<String> = Vec::new();
    let n = v.len();
    let mut i: usize = 0;
    while i < n
        invariant
            n == v@.len(),
            i <= n,
            c@ == v@.take(i as int),
        decreases n - i,
    {
        c.push(v[i].clone());
        proof {
            assert(c@ =~= v@.take(i + 1));
        }
        i = i + 1;
    }
    proof {
        assert(v@.take(n as int) =~= v@);
    }
    c
}

/// Files `key`, when not empty, under `guid` and the resource's frames.
fn file_key(index: &mut ResourceIndex, key: &str, guid: &String, guids: &Vec<String>)
    ensures
        (final(index).entries(), final(index).sequences()) == add_key(
            (old(index).entries(), old(index).sequences()),
            key@,
            guid@,
            strings_view(guids@),
        ),
{
    if !key.is_empty() {
        let ghost e0 = index.path_to_entry@;
        let ghost s0 = index.path_to_sequence@;
        let k = normalize_source(key);
        let ghost kv = k@;
        index.path_to_entry.insert(normalize_source(key), guid.clone());
        index.path_to_sequence.insert(k, copy_strings(guids));
        proof {
            lemma_insert_map_values(e0, kv, *guid, |s: String| s@);
            lemma_insert_map_values(s0, kv, *guids, |v: Vec<String>| strings_view(v@));
        }
    }
}

/// The scan of `resources.xml` between two events.
struct ResourceScan {
    in_resource: bool,
    filename: Option<String>,
    frames: Vec<(String, String)>,
    index: ResourceIndex,
}

impl ResourceScan {
    spec fn state(&self) -> ScanState {
        (
            self.in_resource,
            option_view(self.filename),
            frames_view(self.frames@),
            self.index.entries(),
            self.index.sequences(),
        )
    }

    fn open(&mut self, name: &str, attrs: &Vec<Option<crate::xml::XmlAttr>>)
        ensures
            final(self).state() == on_open(old(self).state(), name@, attrs@),
    {
        if eq_ignore_ascii_case(name, "resource") {
            self.in_resource = true;
            self.filename = find_attr(attrs, "filename");
            self.frames = Vec::new();
            proof {
                assert(frames_view(self.frames@) =~= Seq::<(Seq<char>, Seq<char>)>::empty());
            }
        } else if eq_ignore_ascii_case(name, "source") && self.in_resource {
            if let Some(guid) = find_attr(attrs, "guid") {
                let ghost before = self.frames@;
                self.frames.push((guid, String::new()));
                proof {
                    assert(frames_view(self.frames@) =~= frames_view(before).push(
                        (guid@, Seq::<char>::empty()),
                    ));
                }
            }
        }
    }

    fn text(&mut self, t: &String)
        ensures
            final(self).state() == on_text(old(self).state(), t@),
    {
        let n = self.frames.len();
        if n > 0 && self.frames[n - 1].1.as_str().is_empty() {
            let ghost before = self.frames@;
            let last = self.frames.pop().unwrap();
            self.frames.push((last.0, t.clone()));
            proof {
                assert(frames_view(self.frames@) =~= frames_view(before).update(
                    n - 1,
                    (frames_view(before).last().0, t@),
                ));
            }
        }
    }

    fn end(&mut self, name: &str)
        ensures
            final(self).state() == on_end(old(self).state(), name@),
    {
        if eq_ignore_ascii_case(name, "resource") {
            close(&mut self.index, &self.filename, &self.frames);
            self.in_resource = false;
            self.filename = None;
            self.frames = Vec::new();
            proof {
                assert(frames_view(self.frames@) =~= Seq::<(Seq<char>, Seq<char>)>::empty());
            }
        }
    }
}

/// Files a closed resource: its file name, then each of its frames.
fn close(index: &mut ResourceIndex, filename: &Option<String>, frames: &Vec<(String, String)>)
    ensures
        (final(index).entries(), final(index).sequences()) == close_resource(
            (true, option_view(*filename), frames_view(frames@), old(index).entries(), old(index).sequences()),
        ),
{
    let ghost st: ScanState = (true, option_view(*filename), frames_view(frames@), index.entries(), index.sequences());
    let guids = frame_guid_list(frames);
    let ghost g = strings_view(guids@);
    if let Some(f) = filename {
        let ghost e0 = index.path_to_entry@;
        let ghost s0 = index.path_to_sequence@;
        let k = normalize_source(f.as_str());
        let ghost kv = k@;
        if guids.len() > 0 {
            index.path_to_entry.insert(normalize_source(f.as_str()), guids[0].clone());
            proof {
                lemma_insert_map_values(e0, kv, guids@[0], |s: String| s@);
            }
        }
        index.path_to_sequence.insert(k, copy_strings(&guids));
        proof {
            lemma_insert_map_values(s0, kv, guids, |v: Vec<String>| strings_view(v@));
            assert(index.sequences() == st.4.insert(normalized(f@), g));
            if g.len() > 0 {
                assert(g[0] == guids@[0]@);
                assert(index.entries() == st.3.insert(normalized(f@), g[0]));
            } else {
                assert(index.entries() == st.3);
            }
        }
    }
    let ghost m: IndexMaps = (index.entries(), index.sequences());
    proof {
        assert(g == frame_guids(st.2));
        let cm: IndexMaps = match st.1 {
            Some(f) => (
                if g.len() > 0 {
                    st.3.insert(normalized(f), g[0])
                } else {
                    st.3
                },
                st.4.insert(normalized(f), g),
            ),
            None => (st.3, st.4),
        };
        assert(m == cm);
    }
    let n = frames.len();
    let mut i: usize = 0;
    proof {
        assert(frames_view(frames@).take(0) =~= Seq::<(Seq<char>, Seq<char>)>::empty());
    }
    while i < n
        invariant
            n == frames@.len(),
            i <= n,
            g == strings_view(guids@),
            (index.entries(), index.sequences()) == add_frames(m, frames_view(frames@).take(i as int), g),
        decreases n - i,
    {
        file_key(index, frames[i].1.as_str(), &frames[i].0, &guids);
        file_key(index, frames[i].0.as_str(), &frames[i].0, &guids);
        proof {
            let fv = frames_view(frames@);
            assert(fv.take(i + 1).drop_last() =~= fv.take(i as int));
            assert(fv.take(i + 1).last() == fv[i as int]);
        }
        i = i + 1;
    }
    proof {
        assert(frames_view(frames@).take(n as int) =~= frames_view(frames@));
    }
}

/// The index that a `resources.xml` event stream describes. Each
/// `<resource filename="..">` files its file name under its first frame and
/// under all its frames; each `<source guid="..">path</source>` is filed
/// under its path and under its guid. Names are compared ignoring ASCII case
/// and keys are normalised with `normalize_source`.
pub fn resource_index_from_events(events: &Vec<XmlEvent>) -> (index: ResourceIndex)
    ensures
        index.entries() == scan(events@).3,
        index.sequences() == scan(events@).4,
{
    let mut st = ResourceScan {
        in_resource: false,
        filename: None,
        frames: Vec::new(),
        index: ResourceIndex::new(),
    };
    proof {
        assert(frames_view(st.frames@) =~= Seq::<(Seq<char>, Seq<char>)>::empty());
        assert(st.state() == scan(events@.take(0)));
    }
    let n = events.len();
    let mut i: usize = 0;
    while i < n
        invariant
            n == events@.len(),
            i <= n,
            st.state() == scan(events@.take(i as int)),
        decreases n - i,
    {
        match &events[i] {
            XmlEvent::Open { name, attrs, .. } => st.open(name.as_str(), &read_attributes(attrs.as_str())),
            XmlEvent::Text(t) => st.text(t),
            XmlEvent::End { name } => st.end(name.as_str()),
            _ => {},
        }
        proof {
            assert(events@.take(i + 1).drop_last() =~= events@.take(i as int));
            assert(events@.take(i + 1).last() == events@[i as int]);
        }
        i = i + 1;
    }
    proof {
        assert(events@.take(n as int) =~= events@);
    }
    st.index
}

} // verus!

//! Title packages: a `.gtzip` archive or a plain `.gtxml` document, the text
//! of its `document.xml`, its files and the index of its resources.
use vstd::prelude::*;
use vstd::utf8::{decode_utf8, valid_utf8};

use crate::error::Error;
use crate::paths::{
    file_name, file_name_of, is_document_xml, names_document, normalize_source, normalized,
};
pub use crate::resources::ResourceIndex;
use crate::resources::{resource_index_from_events, scan, strings_view};
use crate::strmap::StrMap;
use crate::text::{lower_seq, replace_char, replace_seq, str_eq, to_ascii_lowercase};
use crate::xml::{read_events, xml_events};
use crate::zipread::{read_error, zip_len, zip_open, zip_read, zip_error_text, zip_read_all, ZipEntry, ZipReadError};
use crate::resources::option_view;
use crate::text::same_ignoring_case;

verus! {

#[verifier::external_type_specification]
#[verifier::external_body]
pub struct ExUtf8Error(std::str::Utf8Error);

#[verifier::external_type_specification]
#[verifier::external_body]
pub struct ExFromUtf16Error(std::string::FromUtf16Error);

/// `std::str::from_utf8`, owned: succeeds exactly on valid UTF-8, whose
/// characters it returns.
#[verifier::external_body]
fn utf8_to_string(bytes: &[u8]) -> (res: Result<String, std::str::Utf8Error>)
    ensures
        res is Ok <==> valid_utf8(bytes@),
        res matches Ok(s) ==> s@ == decode_utf8(bytes@),
{
    std::str::from_utf8(bytes).map(|s| s.to_string())
}

/// Whether a code unit is a leading (high) surrogate.
pub open spec fn is_high_surrogate(u: u16) -> bool {
    0xD800 <= u <= 0xDBFF
}

/// Whether a code unit is a trailing (low) surrogate.
pub open spec fn is_low_surrogate(u: u16) -> bool {
    0xDC00 <= u <= 0xDFFF
}

/// UTF-16 decoding: `None` on an unpaired surrogate.
pub open spec fn utf16_decode(units: Seq<u16>) -> Option<Seq<char>>
    decreases units.len(),
{
    if units.len() == 0 {
        Some(Seq::empty())
    } else if !is_high_surrogate(units[0]) && !is_low_surrogate(units[0]) {
        match utf16_decode(units.drop_first()) {
            Some(rest) => Some(seq![units[0] as char] + rest),
            None => None,
        }
    } else if is_high_surrogate(units[0]) && units.len() >= 2 && is_low_surrogate(units[1]) {
        let c = 0x10000 + (units[0] - 0xD800) * 0x400 + (units[1] - 0xDC00);
        match utf16_decode(units.subrange(2, units.len() as int)) {
            Some(rest) => Some(seq![c as char] + rest),
            None => None,
        }
    } else {
        None
    }
}

/// `String::from_utf16`: decodes UTF-16 code units, failing on unpaired
/// surrogates.
#[verifier::external_body]
fn string_from_utf16(units: &[u16]) -> (res: Result<String, std::string::FromUtf16Error>)
    ensures
        res is Ok <==> utf16_decode(units@) is Some,
        res matches Ok(s) ==> utf16_decode(units@) == Some(s@),
{
    String::from_utf16(units)
}

/// Pairs of bytes as code units, little- or big-endian.
pub open spec fn code_units(bytes: Seq<u8>, little: bool) -> Seq<u16> {
    Seq::new(
        bytes.len() / 2,
        |i: int|
            if little {
                (bytes[2 * i] + 256 * bytes[2 * i + 1]) as u16
            } else {
                (256 * bytes[2 * i] + bytes[2 * i + 1]) as u16
            },
    )
}

pub open spec fn utf8_text(bytes: Seq<u8>) -> Result<Seq<char>, Error> {
    if valid_utf8(bytes) {
        Ok(decode_utf8(bytes))
    } else {
        Err(Error::Utf8)
    }
}

pub open spec fn utf16_text(bytes: Seq<u8>, little: bool) -> Result<Seq<char>, Error> {
    if bytes.len() % 2 != 0 {
        Err(Error::Utf16)
    } else {
        match utf16_decode(code_units(bytes, little)) {
            Some(s) => Ok(s),
            None => Err(Error::Utf16),
        }
    }
}

pub open spec fn starts_with(bytes: Seq<u8>, prefix: Seq<u8>) -> bool {
    bytes.len() >= prefix.len() && bytes.subrange(0, prefix.len() as int) == prefix
}

/// The text of an XML document's bytes: UTF-16 after a byte order mark, UTF-8
/// after its mark, UTF-16 without a mark when the first character is `<`
/// with a zero byte beside it, UTF-8 otherwise.
pub open spec fn xml_text(bytes: Seq<u8>) -> Result<Seq<char>, Error> {
    if starts_with(bytes, seq![0xFFu8, 0xFEu8]) {
        utf16_text(bytes.subrange(2, bytes.len() as int), true)
    } else if starts_with(bytes, seq![0xFEu8, 0xFFu8]) {
        utf16_text(bytes.subrange(2, bytes.len() as int), false)
    } else if starts_with(bytes, seq![0xEFu8, 0xBBu8, 0xBFu8]) {
        utf8_text(bytes.subrange(3, bytes.len() as int))
    } else if bytes.len() >= 2 && bytes[0] == 0x3C && bytes[1] == 0 {
        utf16_text(bytes, true)
    } else if bytes.len() >= 2 && bytes[0] == 0 && bytes[1] == 0x3C {
        utf16_text(bytes, false)
    } else {
        utf8_text(bytes)
    }
}

fn decode_utf8_bytes(bytes: &[u8]) -> (res: Result<String, Error>)
    ensures
        res matches Ok(s) ==> utf8_text(bytes@) == Ok::<Seq<char>, Error>(s@),
        res matches Err(e) ==> utf8_text(bytes@) == Err::<Seq<char>, Error>(e),
{
    match utf8_to_string(bytes) {
        Ok(s) => Ok(s),
        Err(_) => Err(Error::Utf8),
    }
}

fn decode_utf16(bytes: &[u8], little: bool) -> (res: Result<String, Error>)
    ensures
        res matches Ok(s) ==> utf16_text(bytes@, little) == Ok::<Seq<char>, Error>(s@),
        res matches Err(e) ==> utf16_text(bytes@, little) == Err::<Seq<char>, Error>(e),
{
    if bytes.len() % 2 != 0 {
        return Err(Error::Utf16);
    }
    let n = bytes.len() / 2;
    let mut units: Vec<u16> = Vec::new();
    let mut i: usize = 0;
    while i < n
        invariant
            n == bytes@.len() / 2,
            bytes@.len() % 2 == 0,
            2 * n == bytes@.len(),
            bytes@.len() <= usize::MAX,
            i <= n,
            units@ == code_units(bytes@, little).take(i as int),
        decreases n - i,
    {
        let a = bytes[2 * i] as u16;
        let b = bytes[2 * i + 1] as u16;
        let unit: u16 = if little {
            a + 256 * b
        } else {
            256 * a + b
        };
        units.push(unit);
        proof {
            assert(units@ =~= code_units(bytes@, little).take(i + 1));
        }
        i = i + 1;
    }
    proof {
        assert(units@ =~= code_units(bytes@, little));
    }
    match string_from_utf16(units.as_slice()) {
        Ok(s) => Ok(s),
        Err(_) => Err(Error::Utf16),
    }
}

fn starts_with_bytes(bytes: &[u8], prefix: &[u8]) -> (res: bool)
    ensures
        res == starts_with(bytes@, prefix@),
{
    if bytes.len() < prefix.len() {
        return false;
    }
    let mut i: usize = 0;
    while i < prefix.len()
        invariant
            prefix@.len() <= bytes@.len(),
            i <= prefix@.len(),
            bytes@.subrange(0, i as int) == prefix@.subrange(0, i as int),
        decreases prefix@.len() - i,
    {
        if bytes[i] != prefix[i] {
            proof {
                assert(bytes@.subrange(0, prefix@.len() as int)[i as int] != prefix@[i as int]);
            }
            return false;
        }
        proof {
            assert(bytes@.subrange(0, i + 1) =~= bytes@.subrange(0, i as int).push(bytes@[i as int]));
            assert(prefix@.subrange(0, i + 1) =~= prefix@.subrange(0, i as int).push(prefix@[i as int]));
        }
        i = i + 1;
    }
    proof {
        assert(prefix@.subrange(0, prefix@.len() as int) =~= prefix@);
    }
    true
}

/// The text of an XML document held in bytes, in any of the encodings that
/// GT titles use (see `xml_text`).
pub fn decode_xml_bytes(bytes: &[u8]) -> (res: Result<String, Error>)
    ensures
        res matches Ok(s) ==> xml_text(bytes@) == Ok::<Seq<char>, Error>(s@),
        res matches Err(e) ==> xml_text(bytes@) == Err::<Seq<char>, Error>(e),
{
    let n = bytes.len();
    if starts_with_bytes(bytes, &[0xFF, 0xFE]) {
        decode_utf16(&bytes[2..n], true)
    } else if starts_with_bytes(bytes, &[0xFE, 0xFF]) {
        decode_utf16(&bytes[2..n], false)
    } else if starts_with_bytes(bytes, &[0xEF, 0xBB, 0xBF]) {
        decode_utf8_bytes(&bytes[3..n])
    } else if n >= 2 && bytes[0] == 0x3C && bytes[1] == 0 {
        decode_utf16(bytes, true)
    } else if n >= 2 && bytes[0] == 0 && bytes[1] == 0x3C {
        decode_utf16(bytes, false)
    } else {
        decode_utf8_bytes(bytes)
    }
}

/// The file extension and media type that an image's leading bytes show.
pub open spec fn image_kind(b: Seq<u8>) -> (Seq<char>, Seq<char>) {
    if starts_with(b, seq![0x89u8, 0x50u8, 0x4Eu8, 0x47u8]) {
        ("png"@, "image/png"@)
    } else if starts_with(b, seq![0xFFu8, 0xD8u8, 0xFFu8]) {
        ("jpg"@, "image/jpeg"@)
    } else if starts_with(b, seq![0x47u8, 0x49u8, 0x46u8, 0x38u8, 0x37u8, 0x61u8]) || starts_with(
        b,
        seq![0x47u8, 0x49u8, 0x46u8, 0x38u8, 0x39u8, 0x61u8],
    ) {
        ("gif"@, "image/gif"@)
    } else if starts_with(b, seq![0x42u8, 0x4Du8]) {
        ("bmp"@, "image/bmp"@)
    } else if b.len() >= 12 && starts_with(b, seq![0x52u8, 0x49u8, 0x46u8, 0x46u8]) && b.subrange(
        8,
        12,
    ) == seq![0x57u8, 0x45u8, 0x42u8, 0x50u8] {
        ("webp"@, "image/webp"@)
    } else {
        ("bin"@, "application/octet-stream"@)
    }
}

/// The file extension and media type of an image, from its leading bytes
/// (PNG, JPEG, GIF, BMP, WebP; anything else is `bin`).
pub fn sniff_image(bytes: &[u8]) -> (res: (&'static str, &'static str))
    ensures
        (res.0@, res.1@) == image_kind(bytes@),
{
    proof {
        reveal_strlit("png");
        reveal_strlit("image/png");
        reveal_strlit("jpg");
        reveal_strlit("image/jpeg");
        reveal_strlit("gif");
        reveal_strlit("image/gif");
        reveal_strlit("bmp");
        reveal_strlit("image/bmp");
        reveal_strlit("webp");
        reveal_strlit("image/webp");
        reveal_strlit("bin");
        reveal_strlit("application/octet-stream");
    }
    if starts_with_bytes(bytes, &[0x89, 0x50, 0x4E, 0x47]) {
        ("png", "image/png")
    } else if starts_with_bytes(bytes, &[0xFF, 0xD8, 0xFF]) {
        ("jpg", "image/jpeg")
    } else if starts_with_bytes(bytes, &[0x47, 0x49, 0x46, 0x38, 0x37, 0x61]) || starts_with_bytes(
        bytes,
        &[0x47, 0x49, 0x46, 0x38, 0x39, 0x61],
    ) {
        ("gif", "image/gif")
    } else if starts_with_bytes(bytes, &[0x42, 0x4D]) {
        ("bmp", "image/bmp")
    } else if bytes.len() >= 12 && starts_with_bytes(bytes, &[0x52, 0x49, 0x46, 0x46])
        && bytes[8] == 0x57 && bytes[9] == 0x45 && bytes[10] == 0x42 && bytes[11] == 0x50 {
        proof {
            assert(bytes@.subrange(8, 12) =~= seq![0x57u8, 0x45u8, 0x42u8, 0x50u8]);
        }
        ("webp", "image/webp")
    } else {
        proof {
            if bytes@.len() >= 12 && bytes@.subrange(8, 12) == seq![0x57u8, 0x45u8, 0x42u8, 0x50u8] {
                assert(bytes@[8] == bytes@.subrange(8, 12)[0]);
                assert(bytes@[9] == bytes@.subrange(8, 12)[1]);
                assert(bytes@[10] == bytes@.subrange(8, 12)[2]);
                assert(bytes@[11] == bytes@.subrange(8, 12)[3]);
            }
        }
        ("bin", "application/octet-stream")
    }
}

/// The index that `resources.xml` gives, or an empty one when there is no
/// such file or its bytes are not text.
pub open spec fn resources_of(bytes: Option<Seq<u8>>) -> (Map<Seq<char>, Seq<char>>, Map<Seq<char>, Seq<Seq<char>>>) {
    match bytes {
        None => (Map::empty(), Map::empty()),
        Some(b) => match xml_text(b) {
            Ok(t) => (scan(xml_events(t)).3, scan(xml_events(t)).4),
            Err(_) => (Map::empty(), Map::empty()),
        },
    }
}

/// Reads the index of `resources.xml`; missing or unreadable text gives an
/// empty index, and reading stops at the first XML error.
pub fn parse_resources(bytes: Option<&Vec<u8>>) -> (index: ResourceIndex)
    ensures
        (index.entries(), index.sequences()) == resources_of(
            match bytes {
                Some(b) => Some(b@),
                None => None,
            },
        ),
{
    match bytes {
        None => ResourceIndex::new(),
        Some(b) => match decode_xml_bytes(b.as_slice()) {
            Err(_) => ResourceIndex::new(),
            Ok(xml) => {
                let events = read_events(xml.as_str());
                resource_index_from_events(&events)
            },
        },
    }
}

#[verifier::external_type_specification]
#[verifier::external_body]
pub struct ExPathBuf(std::path::PathBuf);

/// `PathBuf::clone`; nothing about the copy is relied on.
pub assume_specification[ <std::path::PathBuf as Clone>::clone ](p: &std::path::PathBuf) -> std::path::PathBuf;

/// Whether a title came as a zip archive or as a plain XML document.
#[derive(Debug, Clone, Copy, PartialEq, Eq, Structural)]
pub enum PackageKind {
    Gtzip,
    Gtxml,
}

/// A title package: its document's text, its files by entry name, and the
/// index of its resources.
#[derive(Debug, Clone)]
pub struct Package {
    pub kind: PackageKind,
    pub path: std::path::PathBuf,
    pub document_xml: String,
    pub files: StrMap<Vec<u8>>,
    pub resources: ResourceIndex,
}

/// The first name in `names` for which `p` holds.
pub open spec fn first_match(names: Seq<Seq<char>>, p: spec_fn(Seq<char>) -> bool) -> Option<Seq<char>>
    decreases names.len(),
{
    if names.len() == 0 {
        None
    } else if p(names[0]) {
        Some(names[0])
    } else {
        first_match(names.drop_first(), p)
    }
}

proof fn lemma_first_match_skip(names: Seq<Seq<char>>, p: spec_fn(Seq<char>) -> bool, i: int)
    requires
        0 <= i < names.len(),
        !p(names[i]),
    ensures
        first_match(names.subrange(i, names.len() as int), p) == first_match(
            names.subrange(i + 1, names.len() as int),
            p,
        ),
{
    assert(names.subrange(i, names.len() as int).drop_first() =~= names.subrange(
        i + 1,
        names.len() as int,
    ));
}

proof fn lemma_first_match_hit(names: Seq<Seq<char>>, p: spec_fn(Seq<char>) -> bool, i: int)
    requires
        0 <= i < names.len(),
        p(names[i]),
    ensures
        first_match(names.subrange(i, names.len() as int), p) == Some(names[i]),
{
    assert(names.subrange(i, names.len() as int)[0] == names[i]);
}

proof fn lemma_first_match_all(names: Seq<Seq<char>>, p: spec_fn(Seq<char>) -> bool)
    ensures
        first_match(names, p) == first_match(names.subrange(0, names.len() as int), p),
        first_match(names.subrange(names.len() as int, names.len() as int), p) is None,
{
    assert(names.subrange(0, names.len() as int) =~= names);
}

/// Whether a package entry is one of the title's own assets rather than its
/// document, resource index or content types.
pub open spec fn is_asset_name(name: Seq<char>) -> bool {
    &&& !names_document(name)
    &&& lower_seq(name) != "resources.xml"@
    &&& lower_seq(name) != "[content_types].xml"@
    &&& !(name.len() > 0 && name.last() == '/')
}

/// The asset names among `keys`, in order.
pub open spec fn asset_names_of(keys: Seq<Seq<char>>) -> Seq<Seq<char>> {
    keys.filter(|n: Seq<char>| is_asset_name(n))
}

/// The entry that holds a source: the one `resources.xml` names for it, else
/// the first file whose normalised name is the source's, else the first file
/// whose normalised file name is the source's.
pub open spec fn entry_for(
    entries: Map<Seq<char>, Seq<char>>,
    names: Seq<Seq<char>>,
    source: Seq<char>,
) -> Option<Seq<char>> {
    let key = normalized(source);
    if entries.contains_key(key) {
        Some(entries[key])
    } else if first_match(names, same_source(key)) is Some {
        first_match(names, same_source(key))
    } else {
        match file_name(source) {
            None => None,
            Some(f) => first_match(names, same_file_name(normalized(f))),
        }
    }
}

/// Names whose normal form is `key`.
pub open spec fn same_source(key: Seq<char>) -> spec_fn(Seq<char>) -> bool {
    |n: Seq<char>| normalized(n) == key
}

/// Names whose file name has the normal form `key`.
pub open spec fn same_file_name(key: Seq<char>) -> spec_fn(Seq<char>) -> bool {
    |n: Seq<char>| file_name(n) matches Some(m) && normalized(m) == key
}

impl Package {
    /// The entry that holds a source (see `entry_for`).
    pub open spec fn entry_of(&self, source: Seq<char>) -> Option<Seq<char>> {
        entry_for(self.resources.entries(), self.files.keys_view(), source)
    }

    /// The bytes of a source: those of its entry, else those of a file
    /// named exactly as the source, else with `\` read as `/`.
    pub open spec fn bytes_of(&self, source: Seq<char>) -> Option<Seq<u8>> {
        let files = self.files@;
        let slashed = replace_seq(source, '\\', seq!['/']);
        if self.entry_of(source) is Some && files.contains_key(self.entry_of(source)->0) {
            Some(files[self.entry_of(source)->0]@)
        } else if files.contains_key(source) {
            Some(files[source]@)
        } else if files.contains_key(slashed) {
            Some(files[slashed]@)
        } else {
            None
        }
    }

    /// The frames of a source: those `resources.xml` lists for it, else its
    /// one entry, else none.
    pub open spec fn sequence_of(&self, source: Seq<char>) -> Seq<Seq<char>> {
        let key = normalized(source);
        if self.resources.sequences().contains_key(key) {
            self.resources.sequences()[key]
        } else {
            match self.entry_of(source) {
                Some(e) => seq![e],
                None => Seq::empty(),
            }
        }
    }

    /// The name of the entry that holds a source (see `entry_for`).
    pub fn lookup_entry(&self, source: &str) -> (res: Option<&str>)
        ensures
            match res {
                Some(e) => self.entry_of(source@) == Some(e@),
                None => self.entry_of(source@) is None,
            },
    {
        let key = normalize_source(source);
        if let Some(entry) = self.resources.path_to_entry.get(key.as_str()) {
            return Some(entry.as_str());
        }
        let ghost names = self.files.keys_view();
        let n = self.files.len();
        let mut i: usize = 0;
        proof {
            lemma_first_match_all(names, same_source(key@));
        }
        while i < n
            invariant
                names == self.files.keys_view(),
                n == names.len(),
                i <= n,
                key@ == normalized(source@),
                !self.resources.entries().contains_key(key@),
                first_match(names, same_source(key@)) == first_match(
                    names.subrange(i as int, n as int),
                    same_source(key@),
                ),
            decreases n - i,
        {
            let name = self.files.key_at(i);
            proof {
                assert(names[i as int] == name@);
            }
            if str_eq(normalize_source(name.as_str()).as_str(), key.as_str()) {
                proof {
                    lemma_first_match_hit(names, same_source(key@), i as int);
                }
                return Some(name.as_str());
            }
            proof {
                lemma_first_match_skip(names, same_source(key@), i as int);
            }
            i = i + 1;
        }
        let file = match file_name_of(source) {
            Some(f) => f,
            None => return None,
        };
        let fkey = normalize_source(file.as_str());
        let mut j: usize = 0;
        proof {
            lemma_first_match_all(names, same_source(key@));
            lemma_first_match_all(names, same_file_name(fkey@));
        }
        while j < n
            invariant
                names == self.files.keys_view(),
                n == names.len(),
                j <= n,
                key@ == normalized(source@),
                !self.resources.entries().contains_key(key@),
                first_match(names, same_source(key@)) is None,
                file_name(source@) == Some(file@),
                fkey@ == normalized(file@),
                first_match(names, same_file_name(fkey@)) == first_match(
                    names.subrange(j as int, n as int),
                    same_file_name(fkey@),
                ),
            decreases n - j,
        {
            let name = self.files.key_at(j);
            proof {
                assert(names[j as int] == name@);
            }
            let hit = match file_name_of(name.as_str()) {
                Some(entry_name) => str_eq(normalize_source(entry_name.as_str()).as_str(), fkey.as_str()),
                None => false,
            };
            if hit {
                proof {
                    lemma_first_match_hit(names, same_file_name(fkey@), j as int);
                }
                return Some(name.as_str());
            }
            proof {
                lemma_first_match_skip(names, same_file_name(fkey@), j as int);
            }
            j = j + 1;
        }
        None
    }

    /// The bytes of a source (see `bytes_of`).
    pub fn lookup_bytes(&self, source: &str) -> (res: Option<&[u8]>)
        ensures
            match res {
                Some(b) => self.bytes_of(source@) == Some(b@),
                None => self.bytes_of(source@) is None,
            },
    {
        if let Some(entry) = self.lookup_entry(source) {
            if let Some(bytes) = self.files.get(entry) {
                return Some(bytes.as_slice());
            }
        }
        if let Some(bytes) = self.files.get(source) {
            return Some(bytes.as_slice());
        }
        proof {
            reveal_strlit("/");
            assert("/"@ =~= seq!['/']);
        }
        let slashed = replace_char(source, '\\', "/");
        match self.files.get(slashed.as_str()) {
            Some(bytes) => Some(bytes.as_slice()),
            None => None,
        }
    }

    /// The entry names of a source's frames (see `sequence_of`).
    pub fn sequence_entries(&self, source: &str) -> (res: Vec<String>)
        ensures
            strings_view(res@) == self.sequence_of(source@),
    {
        let key = normalize_source(source);
        if let Some(frames) = self.resources.path_to_sequence.get(key.as_str()) {
            let copy = crate::resources::copy_strings(frames);
            return copy;
        }
        match self.lookup_entry(source) {
            Some(entry) => {
                let v = vec![crate::text::owned(entry)];
                proof {
                    assert(strings_view(v@) =~= seq![entry@]);
                }
                v
            },
            None => {
                let v: Vec<String> = Vec::new();
                proof {
                    assert(strings_view(v@) =~= Seq::<Seq<char>>::empty());
                }
                v
            },
        }
    }

    /// A package made from a plain XML document, with no files.
    pub fn from_xml_bytes(path: std::path::PathBuf, bytes: &[u8], kind: PackageKind) -> (res: Result<
        Package,
        Error,
    >)
        ensures
            res is Ok <==> xml_text(bytes@) is Ok,
            res matches Ok(p) ==> {
                &&& xml_text(bytes@) == Ok::<Seq<char>, Error>(p.document_xml@)
                &&& p.kind == kind
                &&& p.path == path
                &&& p.files@ == Map::<Seq<char>, Vec<u8>>::empty()
                &&& p.resources.entries() == Map::<Seq<char>, Seq<char>>::empty()
                &&& p.resources.sequences() == Map::<Seq<char>, Seq<Seq<char>>>::empty()
            },
            res matches Err(e) ==> xml_text(bytes@) == Err::<Seq<char>, Error>(e),
    {
        let document_xml = match decode_xml_bytes(bytes) {
            Ok(text) => text,
            Err(e) => return Err(e),
        };
        Ok(Package {
            kind,
            path,
            document_xml,
            files: StrMap::new(),
            resources: ResourceIndex::new(),
        })
    }

    /// The names of the title's assets, in ascending order: every file but
    /// the document, `resources.xml`, `[Content_Types].xml` and directories.
    pub fn asset_names(&self) -> (names: Vec<String>)
        ensures
            strings_view(names@) == asset_names_of(self.files.keys_view()),
    {
        let ghost keys = self.files.keys_view();
        let n = self.files.len();
        let mut names: Vec<String> = Vec::new();
        let mut i: usize = 0;
        proof {
            reveal_strlit("resources.xml");
            reveal_strlit("[content_types].xml");
            assert(keys.take(0) =~= Seq::<Seq<char>>::empty());
            reveal(Seq::filter);
        }
        while i < n
            invariant
                keys == self.files.keys_view(),
                n == keys.len(),
                i <= n,
                strings_view(names@) == asset_names_of(keys.take(i as int)),
            decreases n - i,
        {
            let name = self.files.key_at(i);
            let lower = to_ascii_lowercase(name.as_str());
            let len = lower.as_str().len();
            let ends_in_slash = !lower.as_str().is_empty() && lower_ends_in_slash(lower.as_str());
            let keep = !is_document_xml(name.as_str()) && !str_eq(lower.as_str(), "resources.xml")
                && !str_eq(lower.as_str(), "[content_types].xml") && !ends_in_slash;
            let ghost before = names@;
            proof {
                assert(keys[i as int] == name@);
                if name@.len() > 0 {
                    assert(lower@.last() == crate::text::lower(name@.last()));
                }
                assert(keep == is_asset_name(name@));
                assert(keys.take(i + 1).drop_last() =~= keys.take(i as int));
                assert(keys.take(i + 1).last() == name@);
                reveal(Seq::filter);
                assert(asset_names_of(keys.take(i + 1)) == if keep {
                    asset_names_of(keys.take(i as int)).push(name@)
                } else {
                    asset_names_of(keys.take(i as int))
                });
            }
            if keep {
                names.push(name.clone());
                proof {
                    assert(strings_view(names@) =~= strings_view(before).push(name@));
                }
            }
            i = i + 1;
        }
        proof {
            assert(keys.take(n as int) =~= keys);
        }
        names
    }
}

/// Whether a non-empty string ends in `/`.
fn lower_ends_in_slash(s: &str) -> (res: bool)
    requires
        s@.len() > 0,
    ensures
        res == (s@.last() == '/'),
{
    let cs = crate::text::chars_of(s);
    cs[cs.len() - 1] == '/'
}

/// The files of a package by name, and the text of its document once found.
pub type Collected = (Map<Seq<char>, Seq<u8>>, Option<Seq<char>>);

/// The bytes held under each name.
pub open spec fn files_view(files: StrMap<Vec<u8>>) -> Map<Seq<char>, Seq<u8>> {
    files@.map_values(|v: Vec<u8>| v@)
}

/// Taking in one archive entry: directories are passed over; a file is kept
/// under its name with `\` read as `/`, and a `document.xml` is also decoded
/// as the title's document.
pub open spec fn take_entry(c: Collected, e: ZipEntry) -> Result<Collected, Error> {
    match e {
        ZipEntry::Dir => Ok(c),
        ZipEntry::File { name, data } => {
            let n = replace_seq(name@, '\\', seq!['/']);
            if names_document(n) {
                match xml_text(data@) {
                    Ok(t) => Ok((c.0.insert(n, data@), Some(t))),
                    Err(x) => Err(x),
                }
            } else {
                Ok((c.0.insert(n, data@), c.1))
            }
        },
    }
}

/// Taking in entries in order, stopping at the first that fails.
pub open spec fn take_entries(es: Seq<ZipEntry>) -> Result<Collected, Error>
    decreases es.len(),
{
    if es.len() == 0 {
        Ok((Map::empty(), None))
    } else {
        match take_entries(es.drop_last()) {
            Ok(c) => take_entry(c, es.last()),
            Err(x) => Err(x),
        }
    }
}

/// Reading and taking in entries in order; `Err(None)` where an entry could
/// not be read.
pub open spec fn take_items(items: Seq<Result<ZipEntry, ZipReadError>>) -> Result<Collected, Option<Error>>
    decreases items.len(),
{
    if items.len() == 0 {
        Ok((Map::empty(), None))
    } else {
        match take_items(items.drop_last()) {
            Err(x) => Err(x),
            Ok(c) => match items.last() {
                Err(_) => Err(None),
                Ok(e) => match take_entry(c, e) {
                    Ok(c2) => Ok(c2),
                    Err(x) => Err(Some(x)),
                },
            },
        }
    }
}

/// Names whose file name is `resources.xml`, in any ASCII case.
pub open spec fn is_resources_file() -> spec_fn(Seq<char>) -> bool {
    |n: Seq<char>| file_name(n) matches Some(f) && same_ignoring_case(f, "resources.xml"@)
}

/// The bytes of the resource index: `resources.xml` at the root, else the
/// first file so named.
pub open spec fn resources_file(files: Map<Seq<char>, Seq<u8>>, names: Seq<Seq<char>>) -> Option<Seq<u8>> {
    if files.contains_key("resources.xml"@) {
        Some(files["resources.xml"@])
    } else {
        match first_match(names, is_resources_file()) {
            Some(n) => Some(files[n]),
            None => None,
        }
    }
}

/// What a package built from taken-in files is: it needs a document.
pub open spec fn built(path: std::path::PathBuf, c: Collected, res: Result<Package, Error>) -> bool {
    match c.1 {
        None => res == Err::<Package, Error>(Error::MissingDocumentXml),
        Some(t) => res matches Ok(p) && {
            &&& p.kind == PackageKind::Gtzip
            &&& p.path == path
            &&& p.document_xml@ == t
            &&& files_view(p.files) == c.0
            &&& (p.resources.entries(), p.resources.sequences()) == resources_of(
                resources_file(c.0, p.files.keys_view()),
            )
        },
    }
}

fn copy_bytes(v: &Vec<u8>) -> (c: Vec<u8>)
    ensures
        c@ == v@,
{
    let c = v.clone();
    assert(c@ =~= v@);
    c
}

/// Takes in one archive entry (see `take_entry`).
fn add_entry(files: &mut StrMap<Vec<u8>>, doc: &mut Option<String>, e: &ZipEntry) -> (res: Result<(), Error>)
    ensures
        match take_entry((files_view(*old(files)), option_view(*old(doc))), *e) {
            Ok(c) => res is Ok && (files_view(*final(files)), option_view(*final(doc))) == c,
            Err(x) => res == Err::<(), Error>(x),
        },
{
    match e {
        ZipEntry::Dir => Ok(()),
        ZipEntry::File { name, data } => {
            proof {
                reveal_strlit("/");
                assert("/"@ =~= seq!['/']);
            }
            let n = replace_char(name.as_str(), '\\', "/");
            if is_document_xml(n.as_str()) {
                match decode_xml_bytes(data.as_slice()) {
                    Ok(text) => {
                        *doc = Some(text);
                    },
                    Err(x) => {
                        return Err(x);
                    },
                }
            }
            let ghost before = files@;
            let ghost nv = n@;
            files.insert(n, copy_bytes(data));
            proof {
                assert(files_view(*files) =~= files_view(*old(files)).insert(nv, data@));
            }
            Ok(())
        },
    }
}

/// The package of the taken-in files (see `built`).
fn finish_zip_package(path: std::path::PathBuf, files: StrMap<Vec<u8>>, doc: Option<String>) -> (res: Result<Package, Error>)
    ensures
        built(path, (files_view(files), option_view(doc)), res),
{
    let document_xml = match doc {
        Some(d) => d,
        None => return Err(Error::MissingDocumentXml),
    };
    let index = parse_resources(resources_source(&files));
    Ok(Package { kind: PackageKind::Gtzip, path, document_xml, files, resources: index })
}

/// The bytes of the resource index (see `resources_file`).
fn resources_source(files: &StrMap<Vec<u8>>) -> (res: Option<&Vec<u8>>)
    ensures
        match res {
            Some(b) => resources_file(files_view(*files), files.keys_view()) == Some(b@),
            None => resources_file(files_view(*files), files.keys_view()) is None,
        },
{
    let n = files.len();
    proof {
        reveal_strlit("resources.xml");
        files.lemma_listing();
    }
    if let Some(b) = files.get("resources.xml") {
        return Some(b);
    }
    let ghost names = files.keys_view();
    let mut i: usize = 0;
    proof {
        lemma_first_match_all(names, is_resources_file());
    }
    while i < n
        invariant
            names == files.keys_view(),
            n == names.len(),
            i <= n,
            !files@.contains_key("resources.xml"@),
            first_match(names, is_resources_file()) == first_match(
                names.subrange(i as int, n as int),
                is_resources_file(),
            ),
            files@ == crate::strmap::map_of(files.spec_entries()),
            forall|k: int|
                0 <= k < files.spec_entries().len() ==> files@.contains_key(
                    #[trigger] files.spec_entries()[k].0,
                ) && files@[files.spec_entries()[k].0] == files.spec_entries()[k].1,
        decreases n - i,
    {
        let name = files.key_at(i);
        proof {
            assert(names[i as int] == name@);
        }
        let hit = match file_name_of(name.as_str()) {
            Some(f) => crate::text::eq_ignore_ascii_case(f.as_str(), "resources.xml"),
            None => false,
        };
        if hit {
            proof {
                lemma_first_match_hit(names, is_resources_file(), i as int);
                assert(files.spec_entries()[i as int].0 == name@);
            }
            return Some(files.value_at(i));
        }
        proof {
            lemma_first_match_skip(names, is_resources_file(), i as int);
        }
        i = i + 1;
    }
    None
}

impl Package {
    /// The package that a zip archive's entries make, read in order: files
    /// are kept by name with `\\` read as `/`, directories are passed over,
    /// `document.xml` (in any folder and ASCII case) is the title's document,
    /// and `resources.xml` gives the resource index. Fails on the first
    /// document that is not text, or with `MissingDocumentXml`.
    pub fn from_zip_entries(path: std::path::PathBuf, entries: &Vec<ZipEntry>) -> (res: Result<Package, Error>)
        ensures
            match take_entries(entries@) {
                Err(x) => res == Err::<Package, Error>(x),
                Ok(c) => built(path, c, res),
            },
    {
        let mut files: StrMap<Vec<u8>> = StrMap::new();
        let mut doc: Option<String> = None;
        let n = entries.len();
        let mut i: usize = 0;
        proof {
            assert(files_view(files) =~= Map::<Seq<char>, Seq<u8>>::empty());
            assert(entries@.take(0) =~= Seq::<ZipEntry>::empty());
        }
        while i < n
            invariant
                n == entries@.len(),
                i <= n,
                take_entries(entries@.take(i as int)) == Ok::<Collected, Error>(
                    (files_view(files), option_view(doc)),
                ),
            decreases n - i,
        {
            proof {
                assert(entries@.take(i + 1).drop_last() =~= entries@.take(i as int));
                assert(entries@.take(i + 1).last() == entries@[i as int]);
            }
            match add_entry(&mut files, &mut doc, &entries[i]) {
                Ok(()) => {},
                Err(x) => {
                    proof {
                        lemma_take_entries_stuck(entries@, i as int + 1);
                    }
                    return Err(x);
                },
            }
            i = i + 1;
        }
        proof {
            assert(entries@.take(n as int) =~= entries@);
        }
        finish_zip_package(path, files, doc)
    }

    /// The package in a `.gtzip` archive's bytes: its entries read in order
    /// and taken in as `from_zip_entries` does. Fails where the archive or an
    /// entry cannot be read, at the first failure in the archive's order.
    pub fn from_zip_bytes(path: std::path::PathBuf, bytes: &[u8]) -> (res: Result<Package, Error>)
        ensures
            match zip_read_all(bytes@) {
                Err(_) => res matches Err(e) && e is Zip,
                Ok(items) => match take_items(items) {
                    Err(Some(x)) => res == Err::<Package, Error>(x),
                    Err(None) => res matches Err(e) && (e is Zip || e is Io),
                    Ok(c) => built(path, c, res),
                },
            },
    {
        let mut archive = match zip_open(bytes) {
            Ok(a) => a,
            Err(e) => return Err(Error::Zip(zip_error_text(&e))),
        };
        let ghost items = zip_read_all(bytes@)->Ok_0;
        let mut files: StrMap<Vec<u8>> = StrMap::new();
        let mut doc: Option<String> = None;
        let n = zip_len(&archive);
        let mut i: usize = 0;
        proof {
            assert(files_view(files) =~= Map::<Seq<char>, Seq<u8>>::empty());
            assert(items.take(0) =~= Seq::<Result<ZipEntry, ZipReadError>>::empty());
        }
        while i < n
            invariant
                zip_read_all(bytes@) == Ok::<Seq<Result<ZipEntry, ZipReadError>>, zip::result::ZipError>(items),
                crate::zipread::zip_items(archive) == items,
                n == items.len(),
                i <= n,
                take_items(items.take(i as int)) == Ok::<Collected, Option<Error>>(
                    (files_view(files), option_view(doc)),
                ),
            decreases n - i,
        {
            proof {
                assert(items.take(i + 1).drop_last() =~= items.take(i as int));
                assert(items.take(i + 1).last() == items[i as int]);
            }
            let item = zip_read(&mut archive, i);
            match item {
                Err(e) => {
                    proof {
                        lemma_take_items_stuck(items, i as int + 1);
                    }
                    return Err(read_error(&e));
                },
                Ok(entry) => match add_entry(&mut files, &mut doc, &entry) {
                    Ok(()) => {},
                    Err(x) => {
                        proof {
                            lemma_take_items_stuck(items, i as int + 1);
                        }
                        return Err(x);
                    },
                },
            }
            i = i + 1;
        }
        proof {
            assert(items.take(n as int) =~= items);
        }
        finish_zip_package(path, files, doc)
    }
}

/// Once taking in stops, later entries change nothing.
proof fn lemma_take_entries_stuck(es: Seq<ZipEntry>, k: int)
    requires
        0 <= k <= es.len(),
        take_entries(es.take(k)) is Err,
    ensures
        take_entries(es) == take_entries(es.take(k)),
    decreases es.len() - k,
{
    if k < es.len() {
        assert(es.take(k + 1).drop_last() =~= es.take(k));
        lemma_take_entries_stuck(es, k + 1);
    } else {
        assert(es.take(k) =~= es);
    }
}

/// Once reading stops, later entries change nothing.
proof fn lemma_take_items_stuck(items: Seq<Result<ZipEntry, ZipReadError>>, k: int)
    requires
        0 <= k <= items.len(),
        take_items(items.take(k)) is Err,
    ensures
        take_items(items) == take_items(items.take(k)),
    decreases items.len() - k,
{
    if k < items.len() {
        assert(items.take(k + 1).drop_last() =~= items.take(k));
        lemma_take_items_stuck(items, k + 1);
    } else {
        assert(items.take(k) =~= items);
    }
}

} // verus!

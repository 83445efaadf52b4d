//! Writing a zip archive in memory with the `zip` crate, entry by entry,
//! each compressed with DEFLATE.
use vstd::prelude::*;

use std::io::Cursor;
use std::io::Write;
use zip::result::ZipError;
use zip::write::SimpleFileOptions;
use zip::{CompressionMethod, ZipWriter};

use crate::zipread::{zip_read_all, ZipEntry, ZipReadError};

verus! {

/// An archive being written into memory. Verus cannot take a declaration
/// of `ZipWriter` (its bounds are on `std::io` traits), so the writer is held
/// here out of Verus's sight and known only by what it has written.
#[verifier::external_body]
pub struct Writer {
    inner: ZipWriter<Cursor<Vec<u8>>>,
}

/// The entries written so far, each name with its bytes, in order.
pub uninterp spec fn zip_written(w: Writer) -> Seq<(Seq<char>, Seq<u8>)>;

/// The room an entry takes in the archive, counted generously: four bytes
/// for each character of its name, its data, and 200 bytes for its local
/// header and central-directory record.
pub open spec fn entry_room(e: (Seq<char>, Seq<u8>)) -> int {
    (4 * e.0.len() + e.1.len() + 200) as int
}

/// The room the entries take, in all.
pub open spec fn archive_room(ws: Seq<(Seq<char>, Seq<u8>)>) -> int
    decreases ws.len(),
{
    if ws.len() == 0 {
        0
    } else {
        archive_room(ws.drop_last()) + entry_room(ws.last())
    }
}

/// Room that keeps every entry and every offset below 4 GiB, so that no
/// entry needs the large-file option.
pub open spec fn small_archive(room: int) -> bool {
    room < 3_000_000_000
}

/// A name well within the format's 64 KiB limit on a local header.
pub open spec fn short_name(name: Seq<char>) -> bool {
    name.len() < 16000
}

/// A name that the archive reads back as a file: not empty and not ending in
/// a separator.
pub open spec fn is_file_name(name: Seq<char>) -> bool {
    name.len() > 0 && name.last() != '/' && name.last() != '\\'
}

/// Whether `name` is the name of a written entry.
pub open spec fn has_name(written: Seq<(Seq<char>, Seq<u8>)>, name: Seq<char>) -> bool {
    exists|i: int| 0 <= i < written.len() && (#[trigger] written[i]).0 == name
}

/// An entry read back as a file with the written name and bytes.
pub open spec fn is_written_file(item: Result<ZipEntry, ZipReadError>, w: (Seq<char>, Seq<u8>)) -> bool {
    item matches Ok(ZipEntry::File { name, data }) && name@ == w.0 && data@ == w.1
}

/// What reading an archive gives is exactly the written files, in order.
pub open spec fn reads_back(
    items: Seq<Result<ZipEntry, ZipReadError>>,
    written: Seq<(Seq<char>, Seq<u8>)>,
) -> bool {
    &&& items.len() == written.len()
    &&& forall|i: int|
        0 <= i < items.len() ==> is_written_file(#[trigger] items[i], written[i])
}

/// `ZipWriter::new` over an empty buffer: nothing written yet.
#[verifier::external_body]
pub(crate) fn zip_writer() -> (w: Writer)
    ensures
        zip_written(w) == Seq::<(Seq<char>, Seq<u8>)>::empty(),
{
    Writer { inner: ZipWriter::new(Cursor::new(Vec::new())) }
}

/// `ZipWriter::start_file` with DEFLATE compression: a new, empty entry. It
/// refuses a name already written; on an in-memory buffer its other errors
/// come only from a name too long for a local header or from an entry too
/// large without the large-file option, so a new short name in a small
/// archive is taken.
#[verifier::external_body]
pub(crate) fn zip_start_file(w: &mut Writer, name: &str) -> (res: Result<(), ZipError>)
    ensures
        res is Ok ==> !has_name(zip_written(*old(w)), name@) && zip_written(*final(w)) == zip_written(
            *old(w),
        ).push((name@, Seq::empty())),
        (!has_name(zip_written(*old(w)), name@) && short_name(name@) && small_archive(
            archive_room(zip_written(*old(w)).push((name@, Seq::empty()))),
        )) ==> res is Ok,
{
    let options = SimpleFileOptions::default().compression_method(CompressionMethod::Deflated);
    w.inner.start_file(name, options)
}

/// `Write::write_all` on the writer: the bytes go to the entry started last.
/// On an in-memory buffer it fails only when the entry grows to 4 GiB
/// without the large-file option.
#[verifier::external_body]
pub(crate) fn zip_write_all(w: &mut Writer, bytes: &[u8]) -> (res: Result<(), std::io::Error>)
    requires
        zip_written(*old(w)).len() > 0,
    ensures
        res is Ok ==> zip_written(*final(w)) == zip_written(*old(w)).update(
            zip_written(*old(w)).len() - 1,
            (zip_written(*old(w)).last().0, zip_written(*old(w)).last().1 + bytes@),
        ),
        small_archive(archive_room(zip_written(*old(w))) + bytes@.len()) ==> res is Ok,
{
    w.inner.write_all(bytes)
}

/// `ZipWriter::finish`, then the buffer: bytes that `ZipArchive` reads back
/// as the written files, in order. On an in-memory buffer it fails only
/// where an entry or an offset needs the large-file option.
#[verifier::external_body]
pub(crate) fn zip_finish(w: Writer) -> (res: Result<Vec<u8>, ZipError>)
    requires
        forall|i: int| 0 <= i < zip_written(w).len() ==> is_file_name(#[trigger] zip_written(w)[i].0),
    ensures
        res matches Ok(bytes) ==> (zip_read_all(bytes@) matches Ok(items) && reads_back(
            items,
            zip_written(w),
        )),
        small_archive(archive_room(zip_written(w))) ==> res is Ok,
{
    w.inner.finish().map(|cursor| cursor.into_inner())
}

} // verus!

verus! {

/// The room of a prefix is at most that of the whole.
pub proof fn lemma_room_prefix(ws: Seq<(Seq<char>, Seq<u8>)>, k: int)
    requires
        0 <= k <= ws.len(),
    ensures
        archive_room(ws.take(k)) <= archive_room(ws),
        archive_room(ws) >= 0,
    decreases ws.len(),
{
    if ws.len() == 0 {
        assert(ws.take(k) =~= ws);
    } else if k == ws.len() {
        assert(ws.take(k) =~= ws);
        lemma_room_prefix(ws.drop_last(), 0);
    } else {
        assert(ws.take(k) =~= ws.drop_last().take(k));
        lemma_room_prefix(ws.drop_last(), k);
    }
}

} // verus!

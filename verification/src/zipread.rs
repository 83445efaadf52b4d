//! Reading the entries of a zip archive with the `zip` crate, each as a plain
//! value: its name, whether it is a directory, and its bytes.
use vstd::prelude::*;

use std::io::Cursor;
use std::io::Read;
use zip::result::ZipError;
use zip::ZipArchive;

use crate::error::Error;

verus! {

/// One entry of an archive: a directory, or a file read whole.
#[derive(Debug)]
pub enum ZipEntry {
    Dir,
    File { name: String, data: Vec<u8> },
}

/// Why an entry could not be read: the archive refused it or its bytes
/// could not be read out.
#[derive(Debug)]
pub enum ZipReadError {
    Zip(ZipError),
    Io(std::io::Error),
}

#[verifier::external_type_specification]
#[verifier::external_body]
#[verifier::reject_recursive_types(R)]
pub struct ExZipArchive<R>(ZipArchive<R>);

#[verifier::external_type_specification]
#[verifier::external_body]
pub struct ExZipError(ZipError);

#[verifier::external_type_specification]
#[verifier::external_body]
#[verifier::reject_recursive_types(T)]
pub struct ExCursor<T>(Cursor<T>);

/// An archive read from bytes held in memory.
pub type Archive = ZipArchive<Cursor<Vec<u8>>>;

#[verifier::external_type_specification]
#[verifier::external_body]
pub struct ExIoError(std::io::Error);

/// What reading each entry of an archive gives, in the archive's order.
pub uninterp spec fn zip_items(archive: Archive) -> Seq<Result<ZipEntry, ZipReadError>>;

/// What `ZipArchive::new` makes of some bytes: the outcome of reading each
/// entry, or the error that refused the archive.
pub uninterp spec fn zip_read_all(bytes: Seq<u8>) -> Result<Seq<Result<ZipEntry, ZipReadError>>, ZipError>;

/// `ZipArchive::new` on the bytes: an archive whose entries read as
/// `zip_read_all` names, or the error that refused it.
#[verifier::external_body]
pub(crate) fn zip_open(bytes: &[u8]) -> (res: Result<Archive, ZipError>)
    ensures
        zip_read_all(bytes@) == match res {
            Ok(a) => Ok(zip_items(a)),
            Err(e) => Err(e),
        },
{
    ZipArchive::new(Cursor::new(bytes.to_vec()))
}

/// `ZipArchive::len`: the number of entries.
#[verifier::external_body]
pub(crate) fn zip_len(archive: &Archive) -> (n: usize)
    ensures
        n == zip_items(*archive).len(),
{
    archive.len()
}

/// `ZipArchive::by_index`, then the entry's `is_dir` and, for a file, its
/// `name` and `read_to_end`: the outcome of reading entry `index`. Reading
/// leaves the entries as they were.
#[verifier::external_body]
pub(crate) fn zip_read(archive: &mut Archive, index: usize) -> (res: Result<ZipEntry, ZipReadError>)
    requires
        index < zip_items(*old(archive)).len(),
    ensures
        res == zip_items(*old(archive))[index as int],
        zip_items(*final(archive)) == zip_items(*old(archive)),
{
    let mut file = archive.by_index(index).map_err(ZipReadError::Zip)?;
    if file.is_dir() {
        return Ok(ZipEntry::Dir);
    }
    let name = file.name().map_err(ZipReadError::Zip)?.into_owned();
    let mut data = Vec::new();
    file.read_to_end(&mut data).map_err(ZipReadError::Io)?;
    Ok(ZipEntry::File { name, data })
}

/// The `Display` text of a zip error.
#[verifier::external_body]
pub(crate) fn zip_error_text(e: &ZipError) -> String {
    e.to_string()
}

/// The `Display` text of an I/O error.
#[verifier::external_body]
pub(crate) fn io_error_text(e: &std::io::Error) -> String {
    e.to_string()
}

/// The library's error for an entry that could not be read.
pub fn read_error(e: &ZipReadError) -> (err: Error)
    ensures
        e is Zip ==> err is Zip,
        e is Io ==> err is Io,
{
    match e {
        ZipReadError::Zip(z) => Error::Zip(zip_error_text(z)),
        ZipReadError::Io(i) => Error::Io(io_error_text(i)),
    }
}

} // verus!

//! Zip archives.

use std::io::Cursor;
use vstd::prelude::*;
use vstd::string::*;

verus! {

/// What an entry of an archive gives: its name and its bytes, or why they
/// cannot be had.
pub struct EntryView {
    pub name: Result<Seq<char>, Seq<char>>,
    pub bytes: Result<Seq<u8>, Seq<char>>,
}

/// `std::io::Cursor`: bytes that are read from any place.
#[verifier::external_type_specification]
#[verifier::external_body]
#[verifier::reject_recursive_types(T)]
pub struct ExCursor<T>(std::io::Cursor<T>);

/// `zip::ZipArchive`: an archive that was opened.
#[verifier::external_type_specification]
#[verifier::external_body]
#[verifier::reject_recursive_types(R)]
pub struct ExZipArchive<R>(zip::ZipArchive<R>);

/// The entries of a `zip::ZipArchive`, in the order of its directory.
pub uninterp spec fn entries_of(archive: zip::ZipArchive<Cursor<&[u8]>>) -> Seq<EntryView>;

/// The entries of the archive that `zip::ZipArchive::new` finds in the bytes,
/// or why there is none. The number of entries that the archive states is cut
/// to the range of `usize`, so the largest `usize` counts too.
pub uninterp spec fn zip_entries(body: Seq<u8>, largest: nat) -> Result<Seq<EntryView>, Seq<char>>;

/// What the bytes of an archive hold on this machine.
pub open spec fn archive_in(body: Seq<u8>) -> Result<Seq<EntryView>, Seq<char>> {
    zip_entries(body, usize::MAX as nat)
}

/// `zip::ZipArchive::new` opens an archive: it fails, or gives the entries,
/// depending on the bytes and on the range of `usize` alone.
#[verifier::external_body]
pub(crate) fn open_archive(body: &[u8]) -> (r: Result<zip::ZipArchive<Cursor<&[u8]>>, String>)
    ensures
        match r {
            Ok(a) => zip_entries(body@, usize::MAX as nat) == Ok::<Seq<EntryView>, Seq<char>>(
                entries_of(a),
            ),
            Err(m) => zip_entries(body@, usize::MAX as nat) == Err::<Seq<EntryView>, Seq<char>>(
                m@,
            ),
        },
{
    zip::ZipArchive::new(Cursor::new(body)).map_err(|e| e.to_string())
}

/// `zip::ZipArchive::len` counts the entries.
#[verifier::external_body]
pub(crate) fn entry_count(archive: &zip::ZipArchive<Cursor<&[u8]>>) -> (r: usize)
    ensures
        r == entries_of(*archive).len(),
{
    archive.len()
}

/// `zip::ZipArchive::by_index` opens an entry, and `name` of the entry is its
/// name as the directory gives it. The archive stays as it is.
#[verifier::external_body]
pub(crate) fn entry_name(archive: &mut zip::ZipArchive<Cursor<&[u8]>>, at: usize) -> (r: Result<
    String,
    String,
>)
    requires
        at < entries_of(*old(archive)).len(),
    ensures
        entries_of(*final(archive)) == entries_of(*old(archive)),
        match r {
            Ok(s) => entries_of(*old(archive))[at as int].name == Ok::<Seq<char>, Seq<char>>(s@),
            Err(m) => entries_of(*old(archive))[at as int].name == Err::<Seq<char>, Seq<char>>(m@),
        },
{
    match archive.by_index(at) {
        Ok(entry) => Ok(entry.name().to_string()),
        Err(e) => Err(e.to_string()),
    }
}

/// `zip::ZipArchive::by_index` opens an entry, and reading it to the end gives
/// its bytes. The archive stays as it is.
#[verifier::external_body]
pub(crate) fn entry_bytes(archive: &mut zip::ZipArchive<Cursor<&[u8]>>, at: usize) -> (r: Result<
    Vec<u8>,
    String,
>)
    requires
        at < entries_of(*old(archive)).len(),
    ensures
        entries_of(*final(archive)) == entries_of(*old(archive)),
        match r {
            Ok(b) => entries_of(*old(archive))[at as int].bytes == Ok::<Seq<u8>, Seq<char>>(b@),
            Err(m) => entries_of(*old(archive))[at as int].bytes == Err::<Seq<u8>, Seq<char>>(m@),
        },
{
    let mut entry = archive.by_index(at).map_err(|e| e.to_string())?;
    let mut out: Vec<u8> = Vec::new();
    std::io::copy(&mut entry, &mut out).map_err(|e| e.to_string())?;
    Ok(out)
}

} // verus!

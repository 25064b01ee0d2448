//! Trusted declarations over the archive reader: the archive type, its
//! entry list as a mathematical sequence, and wrappers for the calls the
//! gathering pass makes.

use std::io::Cursor;
use std::io::Read;

use vstd::prelude::*;

verus! {

/// Declares `std::io::Cursor`, the in-memory reader the archive is
/// opened over; the library only carries it inside the archive value.
#[verifier::external_type_specification]
#[verifier::external_body]
#[verifier::reject_recursive_types(T)]
pub struct ExCursor<T>(Cursor<T>);

/// Declares `zip::ZipArchive`, the opened archive: an outside collection
/// whose contents the wrappers below describe through `zip_contents`.
#[verifier::external_type_specification]
#[verifier::external_body]
#[verifier::reject_recursive_types(R)]
pub struct ExZipArchive<R>(zip::ZipArchive<R>);

/// Declares `zip::result::ZipError`; the callers map it to the
/// library's own error kind without reading into it.
#[verifier::external_type_specification]
#[verifier::external_body]
pub struct ExZipError(zip::result::ZipError);

/// What an opened archive holds: each entry's decoded name, in index
/// order, paired with its decompressed contents — or `None` where
/// reading that entry fails (corrupt or unsupported entry data).
pub uninterp spec fn zip_contents(a: &zip::ZipArchive<Cursor<Vec<u8>>>) -> Seq<(Seq<char>, Option<
    Seq<u8>,
>)>;

/// The entry list encoded by archive bytes, when they parse as an
/// archive: opening the same bytes always finds the same entries, with
/// the same per-entry readability.
pub uninterp spec fn zip_entries_of(bytes: Seq<u8>) -> Option<Seq<(Seq<char>, Option<Seq<u8>>)>>;

/// Relies on `zip::ZipArchive::new`: parses the central directory of the
/// archive bytes; success and the resulting entry list depend on the
/// bytes alone.
#[verifier::external_body]
pub fn zip_open(bytes: Vec<u8>) -> (r: Result<
    zip::ZipArchive<Cursor<Vec<u8>>>,
    zip::result::ZipError,
>)
    ensures
        r.is_ok() <==> zip_entries_of(bytes@) is Some,
        r.is_ok() ==> zip_contents(&r->Ok_0) == zip_entries_of(bytes@)->Some_0,
{
    zip::ZipArchive::new(Cursor::new(bytes))
}

/// Relies on `zip::ZipArchive::len`: the number of entries the central
/// directory lists.
#[verifier::external_body]
pub fn zip_len(a: &zip::ZipArchive<Cursor<Vec<u8>>>) -> (n: usize)
    ensures
        n == zip_contents(a).len(),
{
    a.len()
}

/// Relies on `zip::ZipArchive::by_index`: hands out one entry's name and
/// decompressed contents.  Reading never changes what the archive holds;
/// it succeeds exactly for an in-range index whose entry data reads back
/// (both a function of the archive bytes alone), and fails otherwise.
#[verifier::external_body]
pub fn zip_entry(a: &mut zip::ZipArchive<Cursor<Vec<u8>>>, i: usize) -> (r: Result<
    (String, Vec<u8>),
    zip::result::ZipError,
>)
    ensures
        zip_contents(final(a)) == zip_contents(old(a)),
        r.is_ok() <==> i < zip_contents(old(a)).len() && zip_contents(old(a))[i as int].1 is Some,
        r.is_ok() ==> r->Ok_0.0@ == zip_contents(old(a))[i as int].0 && r->Ok_0.1@ == zip_contents(
            old(a),
        )[i as int].1->Some_0,
{
    let mut f = a.by_index(i)?;
    let name = f.name().to_owned();
    let mut buf = Vec::new();
    match f.read_to_end(&mut buf) {
        Ok(_) => Ok((name, buf)),
        Err(e) => Err(zip::result::ZipError::Io(e)),
    }
}

} // verus!

//! Zip containers.

use std::io::{Cursor, Read};
use vstd::prelude::*;

verus! {

/// `std::io::Cursor`, carried through as an opaque value.
#[verifier::external_type_specification]
#[verifier::external_body]
#[verifier::reject_recursive_types(T)]
pub struct ExCursor<T>(Cursor<T>);

/// `zip::ZipArchive`, carried through as an opaque value; what it was opened
/// on is [`archive_bytes`].
#[verifier::external_type_specification]
#[verifier::external_body]
#[verifier::reject_recursive_types(R)]
pub struct ExZipArchive<R>(::zip::ZipArchive<R>);

/// An open container.
pub type Archive = ::zip::ZipArchive<Cursor<Vec<u8>>>;

/// The bytes that an archive was opened on.
pub uninterp spec fn archive_bytes(a: Archive) -> Seq<u8>;

/// Why the bytes cannot be opened: whether the container itself is invalid,
/// and the message.
pub uninterp spec fn archive_fault(bytes: Seq<u8>) -> Option<(bool, Seq<char>)>;

/// How many members the container has.
pub uninterp spec fn archive_count(bytes: Seq<u8>) -> nat;

/// A member's name, declared size, and whether it is encrypted; nothing where
/// it cannot be located.
pub uninterp spec fn archive_member(bytes: Seq<u8>, i: int) -> Option<(Seq<char>, u64, bool)>;

/// What reading at most so many bytes of a member gives: nothing where the
/// member cannot be opened, else its bytes or a message.
pub uninterp spec fn archive_data(bytes: Seq<u8>, i: int, limit: u64) -> Option<
    Result<Seq<u8>, Seq<char>>,
>;

/// The same for a member looked up by its name.
pub uninterp spec fn archive_part(bytes: Seq<u8>, name: Seq<char>, limit: u64) -> Option<
    Result<Seq<u8>, Seq<char>>,
>;

/// The members' names in the container's order.
pub uninterp spec fn archive_names(bytes: Seq<u8>) -> Seq<Seq<char>>;

/// The value of what reading a member gave.
pub open spec fn read_view(r: Option<Result<Vec<u8>, String>>) -> Option<
    Result<Seq<u8>, Seq<char>>,
> {
    match r {
        Some(Ok(v)) => Some(Ok(v@)),
        Some(Err(m)) => Some(Err(m@)),
        None => None,
    }
}

/// `ZipArchive::new`: whether the bytes open, and with which error they do
/// not, depends on the bytes alone.
#[verifier::external_body]
pub(crate) fn open(bytes: &[u8]) -> (r: Result<Archive, (bool, String)>)
    ensures
        r matches Ok(a) ==> archive_fault(bytes@) is None && archive_bytes(a) == bytes@,
        r matches Err(e) ==> archive_fault(bytes@) == Some((e.0, e.1@)),
{
    ::zip::ZipArchive::new(Cursor::new(bytes.to_vec()))
        .map_err(|e| (matches!(e, ::zip::result::ZipError::InvalidArchive(_)), e.to_string()))
}

/// `ZipArchive::len`: a function of the bytes.
#[verifier::external_body]
pub(crate) fn count(a: &Archive) -> (r: usize)
    ensures
        r == archive_count(archive_bytes(*a)),
{
    a.len()
}

/// `ZipArchive::by_index_raw`: finds a member without decompressing it. Its
/// name, declared size and encryption flag depend on the bytes alone.
#[verifier::external_body]
pub(crate) fn member(a: &mut Archive, i: usize) -> (r: Option<(String, u64, bool)>)
    ensures
        archive_bytes(*final(a)) == archive_bytes(*old(a)),
        r matches Some(m) ==> archive_member(archive_bytes(*old(a)), i as int) == Some(
            (m.0@, m.1, m.2),
        ),
        r is None ==> archive_member(archive_bytes(*old(a)), i as int) is None,
{
    a.by_index_raw(i).ok().map(|e| (e.name().to_owned(), e.size(), e.encrypted()))
}

/// `ZipArchive::by_index`, read through `Read::take` and `read_to_end`: what
/// comes back depends on the bytes, the index and the limit, and holds no more
/// than `limit` bytes.
#[verifier::external_body]
pub(crate) fn read_member(a: &mut Archive, i: usize, limit: u64) -> (r: Option<Result<Vec<u8>, String>>)
    ensures
        archive_bytes(*final(a)) == archive_bytes(*old(a)),
        read_view(r) == archive_data(archive_bytes(*old(a)), i as int, limit),
        r matches Some(Ok(v)) ==> v@.len() <= limit,
{
    let mut buf = Vec::new();
    a.by_index(i).ok().map(|e| match e.take(limit).read_to_end(&mut buf) {
        Ok(_) => Ok(buf),
        Err(e) => Err(e.to_string()),
    })
}

/// `ZipArchive::by_name`, read through `Read::take` and `read_to_end`: what
/// comes back depends on the bytes, the name and the limit, and holds no more
/// than `limit` bytes.
#[verifier::external_body]
pub(crate) fn read_named(a: &mut Archive, name: &str, limit: u64) -> (r: Option<Result<Vec<u8>, String>>)
    ensures
        archive_bytes(*final(a)) == archive_bytes(*old(a)),
        read_view(r) == archive_part(archive_bytes(*old(a)), name@, limit),
        r matches Some(Ok(v)) ==> v@.len() <= limit,
{
    let mut buf = Vec::new();
    a.by_name(name).ok().map(|e| match e.take(limit).read_to_end(&mut buf) {
        Ok(_) => Ok(buf),
        Err(e) => Err(e.to_string()),
    })
}

/// `ZipArchive::file_names`: the names in the container's order, a function of
/// the bytes.
#[verifier::external_body]
pub(crate) fn names(a: &Archive) -> (r: Vec<String>)
    ensures
        crate::chars::texts(r@) == archive_names(archive_bytes(*a)),
{
    a.file_names().map(|n| n.to_owned()).collect()
}

} // verus!

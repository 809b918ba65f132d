//! Extraction of the embedded `Cargo.lock` from a fetched crate archive: a
//! gzipped tar archive is listed by outside crates, and the first entry
//! named `Cargo.lock` is decoded as UTF-8 text.

use vstd::prelude::*;
use vstd::utf8::{encode_utf8, valid_utf8};

use crate::record::Error;
use crate::text::Cmp;

verus! {

/// What listing a gzipped tar archive yields: `None` when the bytes do not
/// decode, else each entry's file name with its raw contents, in archive
/// order. The listing is a function of the archive bytes alone.
pub uninterp spec fn archive_listing(pkg: Seq<u8>) -> Option<Seq<(Seq<char>, Seq<u8>)>>;

/// The entries as pairs of views.
pub open spec fn entries_view(v: Seq<(String, Vec<u8>)>) -> Seq<(Seq<char>, Seq<u8>)> {
    v.map_values(|e: (String, Vec<u8>)| (e.0@, e.1@))
}

#[verifier::external_type_specification]
#[verifier::external_body]
pub struct ExIoError(std::io::Error);

/// Relies on `std::io::Error::kind` and the `Display` of
/// `std::io::ErrorKind`: names the coarse kind of an I/O failure.
#[verifier::external_body]
fn io_error(e: std::io::Error) -> (r: Error)
    ensures
        r is Tar,
{
    Error::Tar(e.kind().to_string())
}

/// Relies on `flate2::read::GzDecoder` and `tar::Archive` (its `entries`,
/// and each entry's raw `path_bytes` and contents): decompresses a gzipped
/// tar archive held in memory and lists, in order, each entry's file name —
/// the part of its raw path after the last `'/'`, decoded lossily as UTF-8,
/// empty when the path ends in `'/'` — together with its raw contents.
/// Decoding is deterministic in the bytes on every machine; every failure
/// is reported by its I/O error kind.
#[verifier::external_body]
fn archive_entries(pkg: &[u8]) -> (r: Result<Vec<(String, Vec<u8>)>, Error>)
    ensures
        r is Ok <==> archive_listing(pkg@) is Some,
        r is Ok ==> entries_view(r->Ok_0@) == archive_listing(pkg@)->Some_0,
        r is Err ==> r->Err_0 is Tar,
{
    let mut archive = tar::Archive::new(flate2::read::GzDecoder::new(std::io::Cursor::new(pkg)));
    let mut out = Vec::new();
    for entry in archive.entries().map_err(io_error)? {
        let mut entry = entry.map_err(io_error)?;
        let raw = entry.path_bytes().into_owned();
        let last = raw.rsplit(|b| *b == b'/').next().unwrap_or(&[]);
        let name = String::from_utf8_lossy(last).into_owned();
        let mut data = Vec::new();
        std::io::Read::read_to_end(&mut entry, &mut data).map_err(io_error)?;
        out.push((name, data));
    }
    Ok(out)
}

/// Relies on `std::str::from_utf8`: succeeds exactly on valid UTF-8, and
/// the returned text's UTF-8 encoding is the given bytes.
#[verifier::external_body]
fn string_from_utf8(bytes: &Vec<u8>) -> (r: Option<String>)
    ensures
        r is Some <==> valid_utf8(bytes@),
        r is Some ==> encode_utf8(r->Some_0@) == bytes@,
{
    match std::str::from_utf8(bytes.as_slice()) {
        Ok(s) => Some(s.to_string()),
        Err(_) => None,
    }
}

/// `j` indexes the first entry named `Cargo.lock`.
pub open spec fn lockfile_entry_at(es: Seq<(Seq<char>, Seq<u8>)>, j: int) -> bool {
    0 <= j < es.len() && es[j].0 == "Cargo.lock"@ && forall|k: int|
        0 <= k < j ==> (#[trigger] es[k]).0 != "Cargo.lock"@
}

/// No entry is named `Cargo.lock`.
pub open spec fn no_lockfile_entry(es: Seq<(Seq<char>, Seq<u8>)>) -> bool {
    forall|k: int| 0 <= k < es.len() ==> (#[trigger] es[k]).0 != "Cargo.lock"@
}

/// Find the first entry named `Cargo.lock`.
pub fn find_lockfile_entry(entries: &Vec<(String, Vec<u8>)>) -> (r: Option<usize>)
    ensures
        match r {
            Option::Some(i) => i < entries@.len() && lockfile_entry_at(
                entries_view(entries@),
                i as int,
            ),
            Option::None => no_lockfile_entry(entries_view(entries@)),
        },
{
    let ghost es = entries_view(entries@);
    let n = entries.len();
    let mut i: usize = 0;
    while i < n
        invariant
            es == entries_view(entries@),
            n == entries@.len(),
            i <= n,
            forall|k: int| 0 <= k < i ==> (#[trigger] es[k]).0 != "Cargo.lock"@,
        decreases n - i,
    {
        let e = &entries[i];
        match crate::text::str_cmp(e.0.as_str(), "Cargo.lock") {
            Cmp::Eq => {
                proof {
                    assert(es[i as int].0 == entries@[i as int].0@);
                }
                return Some(i);
            },
            _ => {
                proof {
                    assert(es[i as int].0 == entries@[i as int].0@);
                }
            },
        }
        i = i + 1;
    }
    None
}

/// Extract the text of the first `Cargo.lock` entry from a fetched crate
/// archive (a gzipped tar archive given as bytes). An archive that cannot
/// be read reports the I/O failure; one with no `Cargo.lock` entry reports
/// the missing lockfile; a `Cargo.lock` entry that is not UTF-8 text
/// reports the invalid data.
pub fn extract_cargo_lock_from_pkg(pkg: &[u8]) -> (r: Result<String, Error>)
    ensures
        archive_listing(pkg@) is None ==> r is Err && r->Err_0 is Tar,
        archive_listing(pkg@) is Some && no_lockfile_entry(archive_listing(pkg@)->Some_0) ==> r
            is Err && r->Err_0 is MissingLockfile,
        archive_listing(pkg@) is Some ==> forall|j: int|
            #[trigger] lockfile_entry_at(archive_listing(pkg@)->Some_0, j) ==> {
                let bytes = archive_listing(pkg@)->Some_0[j].1;
                if valid_utf8(bytes) {
                    r is Ok && encode_utf8(r->Ok_0@) == bytes
                } else {
                    r is Err && r->Err_0 is Tar
                }
            },
{
    let entries = match archive_entries(pkg) {
        Ok(e) => e,
        Err(e) => {
            return Err(e);
        },
    };
    let ghost es = archive_listing(pkg@)->Some_0;
    match find_lockfile_entry(&entries) {
        Some(i) => {
            proof {
                assert(es[i as int].1 == entries@[i as int].1@);
                assert forall|j: int| #[trigger] lockfile_entry_at(es, j) implies j == i by {
                    if j < i {
                        assert(es[j].0 == "Cargo.lock"@);
                    }
                    if j > i {
                        assert(es[i as int].0 != "Cargo.lock"@);
                    }
                }
            }
            match string_from_utf8(&entries[i].1) {
                Some(s) => Ok(s),
                None => Err(Error::Tar("invalid data".to_owned())),
            }
        },
        None => Err(Error::MissingLockfile),
    }
}

} // verus!

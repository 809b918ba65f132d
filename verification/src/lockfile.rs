//! The parsing boundary: lockfile text is handed to the `cargo_lock` crate,
//! and each parsed package is copied into a plain record of this library.
//! The parse is deterministic in the text, so its outcome is given a name;
//! nothing is assumed about which texts parse.

use std::str::FromStr;

use vstd::prelude::*;

use crate::record::{ck_view, Error, LockfileDoc, PackageRecord};
use crate::version::Version;

verus! {

/// The view of one package record: its name, its version as the five
/// fields `(major, minor, patch, pre, build)`, and its optional checksum.
pub open spec fn rec_view(p: PackageRecord) -> (
    Seq<char>,
    (u64, u64, u64, Seq<char>, Seq<char>),
    Option<Seq<char>>,
) {
    (
        p.name@,
        (p.version.major, p.version.minor, p.version.patch, p.version.pre@, p.version.build@),
        ck_view(p.checksum),
    )
}

/// The record views of a sequence of package records.
pub open spec fn records_view(v: Seq<PackageRecord>) -> Seq<
    (Seq<char>, (u64, u64, u64, Seq<char>, Seq<char>), Option<Seq<char>>),
> {
    v.map_values(|p: PackageRecord| rec_view(p))
}

/// What parsing lockfile text yields: `None` when the text is not a valid
/// lockfile, else each package's name, version fields and optional
/// checksum, in document order. The parse is a function of the text alone.
pub uninterp spec fn lock_parse(s: Seq<char>) -> Option<
    Seq<(Seq<char>, (u64, u64, u64, Seq<char>, Seq<char>), Option<Seq<char>>)>,
>;

/// Relies on `cargo_lock::Lockfile::from_str` (a deterministic TOML parse),
/// `cargo_lock::Name::as_str`, the public numeric fields and the
/// `Prerelease` / `BuildMetadata` identifiers of `semver::Version`, and the
/// lower-hex `Display` of `cargo_lock::Checksum`: parses lockfile text and
/// copies each package into a plain record, field for field; on failure it
/// hands back the parser's message.
#[verifier::external_body]
fn parse_records(contents: &str) -> (r: Result<Vec<PackageRecord>, Error>)
    ensures
        r is Ok <==> lock_parse(contents@) is Some,
        r is Ok ==> records_view(r->Ok_0@) == lock_parse(contents@)->Some_0,
        r is Err ==> r->Err_0 is CargoLock,
{
    let lf = match cargo_lock::Lockfile::from_str(contents) {
        Ok(lf) => lf,
        Err(e) => return Err(Error::CargoLock(e.to_string())),
    };
    let mut records = Vec::new();
    for p in &lf.packages {
        let v = &p.version;
        let (pre, build) = (v.pre.as_str().to_string(), v.build.as_str().to_string());
        let version = Version { major: v.major, minor: v.minor, patch: v.patch, pre, build };
        let name = p.name.as_str().to_string();
        records.push(PackageRecord { name, version, checksum: p.checksum.as_ref().map(|c| c.to_string()) });
    }
    Ok(records)
}

/// Parse a `Cargo.lock` document from the text provided: the document's
/// records are exactly the parse of the text, in order, and a text that
/// does not parse is reported with the parser's error.
pub fn lockfile_from_str(contents: &str) -> (r: Result<LockfileDoc, Error>)
    ensures
        r is Ok <==> lock_parse(contents@) is Some,
        r is Ok ==> records_view(r->Ok_0.packages@) == lock_parse(contents@)->Some_0,
        r is Err ==> r->Err_0 is CargoLock,
{
    match parse_records(contents) {
        Ok(records) => Ok(LockfileDoc { packages: records }),
        Err(e) => Err(e),
    }
}

} // verus!

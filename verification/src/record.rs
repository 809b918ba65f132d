//! Package records, lockfile documents, and the error type.

use vstd::prelude::*;

use crate::text::{chars_lt, lemma_chars_lt_trans, lemma_chars_lt_trichotomy, str_cmp, Cmp};
use crate::version::{
    lemma_ver_lt_trans, lemma_ver_lt_trichotomy, ver_eq, ver_lt, version_cmp, Version,
};

verus! {

/// One resolved dependency: a package name, its version, and the optional
/// checksum of its source archive. A record without a checksum stands for
/// the lockfile's own package rather than an external dependency.
#[derive(Debug)]
pub struct PackageRecord {
    pub name: String,
    pub version: Version,
    pub checksum: Option<String>,
}

/// One parsed lockfile: the ordered sequence of its package records.
#[derive(Debug)]
pub struct LockfileDoc {
    pub packages: Vec<PackageRecord>,
}

/// The checksum as an optional character sequence.
pub open spec fn ck_view(c: Option<String>) -> Option<Seq<char>> {
    match c {
        Option::None => Option::None,
        Option::Some(s) => Option::Some(s@),
    }
}

/// Order on optional checksums: absent sorts before present; two present
/// checksums compare lexicographically.
pub open spec fn ck_lt(a: Option<String>, b: Option<String>) -> bool {
    match (a, b) {
        (Option::None, Option::Some(_)) => true,
        (Option::Some(x), Option::Some(y)) => chars_lt(x@, y@),
        _ => false,
    }
}

/// Two records denote the same entity: identical `(name, version, checksum)`.
pub open spec fn rec_eq(a: PackageRecord, b: PackageRecord) -> bool {
    a.name@ == b.name@ && ver_eq(a.version, b.version) && ck_view(a.checksum) == ck_view(b.checksum)
}

/// Strict total order on records: by name, then version, then checksum.
/// Its `(name, version)` prefix is the sort order of the canonical output;
/// the checksum only breaks ties between distinct entities.
pub open spec fn rec_lt(a: PackageRecord, b: PackageRecord) -> bool {
    chars_lt(a.name@, b.name@) || (a.name@ == b.name@ && (ver_lt(a.version, b.version) || (ver_eq(
        a.version,
        b.version,
    ) && ck_lt(a.checksum, b.checksum))))
}

/// Exactly one of `rec_lt(a, b)`, `rec_eq(a, b)`, `rec_lt(b, a)` holds.
pub proof fn lemma_rec_lt_trichotomy(a: PackageRecord, b: PackageRecord)
    ensures
        rec_lt(a, b) || rec_eq(a, b) || rec_lt(b, a),
        rec_lt(a, b) ==> !rec_eq(a, b) && !rec_lt(b, a),
        rec_eq(a, b) ==> !rec_lt(a, b) && !rec_lt(b, a),
{
    lemma_chars_lt_trichotomy(a.name@, b.name@);
    lemma_ver_lt_trichotomy(a.version, b.version);
    match (a.checksum, b.checksum) {
        (Option::Some(x), Option::Some(y)) => {
            lemma_chars_lt_trichotomy(x@, y@);
        },
        _ => {},
    }
}

/// The order on records is transitive.
pub proof fn lemma_rec_lt_trans(a: PackageRecord, b: PackageRecord, c: PackageRecord)
    requires
        rec_lt(a, b),
        rec_lt(b, c),
    ensures
        rec_lt(a, c),
{
    if chars_lt(a.name@, b.name@) && chars_lt(b.name@, c.name@) {
        lemma_chars_lt_trans(a.name@, b.name@, c.name@);
    }
    if ver_lt(a.version, b.version) && ver_lt(b.version, c.version) {
        lemma_ver_lt_trans(a.version, b.version, c.version);
    }
    lemma_ver_lt_trichotomy(a.version, b.version);
    lemma_ver_lt_trichotomy(b.version, c.version);
    match (a.checksum, b.checksum, c.checksum) {
        (Option::Some(x), Option::Some(y), Option::Some(z)) => {
            if chars_lt(x@, y@) && chars_lt(y@, z@) {
                lemma_chars_lt_trans(x@, y@, z@);
            }
        },
        _ => {},
    }
}

/// A record equal to `a` relates to any third record exactly as `a` does.
pub proof fn lemma_rec_eq_congruence(a: PackageRecord, b: PackageRecord, c: PackageRecord)
    requires
        rec_eq(a, b),
    ensures
        rec_lt(a, c) == rec_lt(b, c),
        rec_lt(c, a) == rec_lt(c, b),
        rec_eq(a, c) == rec_eq(b, c),
        rec_eq(c, a) == rec_eq(c, b),
{
}

impl Clone for PackageRecord {
    /// A clone denotes the same record value.
    fn clone(&self) -> (r: PackageRecord)
        ensures
            r == *self,
    {
        PackageRecord {
            name: self.name.clone(),
            version: self.version.clone(),
            checksum: match &self.checksum {
                Option::None => Option::None,
                Option::Some(s) => Option::Some(s.clone()),
            },
        }
    }
}

/// Compare two records under the order that `rec_lt` describes.
pub fn record_cmp(a: &PackageRecord, b: &PackageRecord) -> (c: Cmp)
    ensures
        c is Lt <==> rec_lt(*a, *b),
        c is Eq <==> rec_eq(*a, *b),
        c is Gt <==> rec_lt(*b, *a),
{
    proof {
        lemma_chars_lt_trichotomy(a.name@, b.name@);
        lemma_ver_lt_trichotomy(a.version, b.version);
    }
    match str_cmp(a.name.as_str(), b.name.as_str()) {
        Cmp::Lt => {
            return Cmp::Lt;
        },
        Cmp::Gt => {
            return Cmp::Gt;
        },
        Cmp::Eq => {
        },
    }
    match version_cmp(&a.version, &b.version) {
        Cmp::Lt => {
            return Cmp::Lt;
        },
        Cmp::Gt => {
            return Cmp::Gt;
        },
        Cmp::Eq => {
        },
    }
    match (&a.checksum, &b.checksum) {
        (Option::None, Option::None) => Cmp::Eq,
        (Option::None, Option::Some(_)) => Cmp::Lt,
        (Option::Some(_), Option::None) => Cmp::Gt,
        (Option::Some(x), Option::Some(y)) => {
            proof {
                lemma_chars_lt_trichotomy(x@, y@);
            }
            match str_cmp(x.as_str(), y.as_str()) {
                Cmp::Lt => Cmp::Lt,
                Cmp::Gt => Cmp::Gt,
                Cmp::Eq => Cmp::Eq,
            }
        },
    }
}

/// What can go wrong while gathering lockfiles. The resolver and formatter
/// themselves never fail; every variant originates in a collaborator and is
/// passed through unchanged.
#[derive(Debug)]
#[non_exhaustive]
pub enum Error {
    /// The lockfile parser rejected its input; the payload is its message.
    CargoLock(String),
    /// A crate archive could not be retrieved; the payload is the transport
    /// error's message.
    Download(String),
    /// Reading the crate archive failed; the payload names the I/O error
    /// kind.
    Tar(String),
    /// The fetched crate archive holds no recognizable lockfile entry.
    MissingLockfile,
    /// A remote-source specifier is missing its `@version` separator; the
    /// payload is the offending specifier.
    Spec(String),
}

/// The message that describes an error.
pub open spec fn error_message(e: Error) -> Seq<char> {
    match e {
        Error::CargoLock(m) => m@,
        Error::Download(m) => m@,
        Error::Tar(m) => m@,
        Error::MissingLockfile => "crate missing Cargo.lock file"@,
        Error::Spec(m) => "invalid crate specifier: "@ + m@,
    }
}

impl Error {
    /// Render the error as a human-readable message.
    pub fn message(&self) -> (r: String)
        ensures
            r@ == error_message(*self),
    {
        match self {
            Error::CargoLock(m) => m.clone(),
            Error::Download(m) => m.clone(),
            Error::Tar(m) => m.clone(),
            Error::MissingLockfile => "crate missing Cargo.lock file".to_owned(),
            Error::Spec(m) => {
                let mut s = "invalid crate specifier: ".to_owned();
                s.append(m.as_str());
                s
            },
        }
    }
}

} // verus!

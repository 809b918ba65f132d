use std::io::Write;

use cargo2port::{
    extract_cargo_lock_from_pkg, format_cargo_crates, lockfile_from_str,
    resolve_lockfile_packages, AlignmentMode, Error,
};

const LOCKFILE_TEXT: &str = "\
version = 3

[[package]]
name = \"mypkg\"
version = \"0.1.0\"

[[package]]
name = \"serde\"
version = \"1.0.200\"
source = \"registry+https://github.com/rust-lang/crates.io-index\"
checksum = \"0123456789abcdef0123456789abcdef0123456789abcdef0123456789abcdef\"
";

#[test]
fn lockfile_parses_and_resolves() {
    let doc = lockfile_from_str(LOCKFILE_TEXT).unwrap();
    assert_eq!(doc.packages.len(), 2);
    let out = resolve_lockfile_packages(&vec![doc]).unwrap();
    assert_eq!(out.len(), 1);
    assert_eq!(out[0].name.as_str(), "serde");
    assert_eq!(
        out[0].checksum.as_ref().unwrap().as_str(),
        "0123456789abcdef0123456789abcdef0123456789abcdef0123456789abcdef"
    );
    let text = format_cargo_crates(out, AlignmentMode::Multiline);
    assert_eq!(
        text,
        "cargo.crates \\\n    serde \\\n    1.0.200 \\\n    \
         0123456789abcdef0123456789abcdef0123456789abcdef0123456789abcdef"
    );
}

#[test]
fn prerelease_versions_survive_parsing() {
    let text = "\
version = 3

[[package]]
name = \"beta-crate\"
version = \"1.0.0-beta.1\"
source = \"registry+https://github.com/rust-lang/crates.io-index\"
checksum = \"ffffffffffffffffffffffffffffffffffffffffffffffffffffffffffffffff\"
";
    let doc = lockfile_from_str(text).unwrap();
    let out = resolve_lockfile_packages(&vec![doc]).unwrap();
    assert_eq!(out.len(), 1);
    assert_eq!(out[0].version.major, 1);
    assert_eq!(out[0].version.pre.as_str(), "beta.1");
    assert_eq!(
        cargo2port::version_string(&out[0].version).as_str(),
        "1.0.0-beta.1"
    );
}

#[test]
fn malformed_lockfile_reports_parse_error() {
    let err = lockfile_from_str("this is not a lockfile [[").unwrap_err();
    assert!(matches!(err, Error::CargoLock(_)));
}

fn gzipped_tar(entries: &[(&str, &[u8])]) -> Vec<u8> {
    let mut builder = tar::Builder::new(Vec::new());
    for (path, data) in entries {
        let mut header = tar::Header::new_gnu();
        header.set_size(data.len() as u64);
        header.set_mode(0o644);
        header.set_cksum();
        builder.append_data(&mut header, path, *data).unwrap();
    }
    let tar_bytes = builder.into_inner().unwrap();
    let mut encoder =
        flate2::write::GzEncoder::new(Vec::new(), flate2::Compression::default());
    encoder.write_all(&tar_bytes).unwrap();
    encoder.finish().unwrap()
}

#[test]
fn archive_with_lockfile_extracts_its_text() {
    let pkg = gzipped_tar(&[
        ("mypkg-0.1.0/src/lib.rs", b"pub fn f() {}\n"),
        ("mypkg-0.1.0/Cargo.lock", LOCKFILE_TEXT.as_bytes()),
    ]);
    let text = extract_cargo_lock_from_pkg(&pkg).unwrap();
    assert_eq!(text.as_str(), LOCKFILE_TEXT);
    let doc = lockfile_from_str(&text).unwrap();
    assert_eq!(doc.packages.len(), 2);
}

#[test]
fn archive_without_lockfile_reports_missing() {
    let pkg = gzipped_tar(&[("mypkg-0.1.0/src/lib.rs", b"pub fn f() {}\n")]);
    let err = extract_cargo_lock_from_pkg(&pkg).unwrap_err();
    assert!(matches!(err, Error::MissingLockfile));
}

#[test]
fn garbage_bytes_report_an_archive_error() {
    let err = extract_cargo_lock_from_pkg(b"not a gzip stream").unwrap_err();
    assert!(matches!(err, Error::Tar(_)));
}

#[test]
fn lockfile_entry_must_be_the_file_name() {
    // An entry merely ending in the text `Cargo.lock` is not a lockfile.
    let pkg = gzipped_tar(&[("mypkg-0.1.0/notCargo.lock", b"version = 3\n")]);
    let err = extract_cargo_lock_from_pkg(&pkg).unwrap_err();
    assert!(matches!(err, Error::MissingLockfile));
}

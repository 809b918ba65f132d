//! Resolution and formatting of Cargo lockfile packages for portfile
//! `cargo.crates` blocks: merging the packages of several lockfiles into one
//! deduplicated, sorted sequence, and rendering that sequence under several
//! alignment policies.

mod archive;
mod idents;
mod lockfile;
mod record;
mod render;
mod resolve;
mod source;
mod text;
mod version;

pub use archive::{
    archive_listing, entries_view, extract_cargo_lock_from_pkg, find_lockfile_entry,
    lockfile_entry_at, no_lockfile_entry,
};
pub use idents::{
    dot_pos, ident_list_lt, ident_lt, idents_cmp, idents_view, is_num_ident, split_dots,
    trim_zeros,
};
pub use lockfile::{lock_parse, lockfile_from_str, rec_view, records_view};
pub use record::{
    ck_lt, ck_view, error_message, rec_eq, rec_lt, record_cmp, Error, LockfileDoc, PackageRecord,
};
pub use render::{
    block_chars, blocks_chars, checksummed, combined_len, cont_chars, format_cargo_crates,
    format_chars, header_chars, indent_chars, lemma_format_empty, lemma_format_lines, line_chars,
    max_combined_len, max_name_len, max_ver_len, pad_left, pad_right, sep_chars, AlignmentMode,
    JUSTIFIED_BASE_WIDTH,
};
pub use resolve::{
    has_rec, input_has, lemma_resolve_dedup, lemma_resolve_order_independent,
    lemma_sorted_adjacent_pairs, lemma_sorted_same_members, name_version_le,
    resolve_lockfile_packages, resolved, strict_sorted,
};
pub use source::{at_pos, classify_source, has_crate_prefix, parse_crate_spec, SourceKind};
pub use text::{chars_lt, dec_chars, digit_char, spaces, str_cmp, Cmp};
pub use version::{
    build_lt, pre_lt, ver_chars, ver_eq, ver_lt, version_cmp, version_string, Version,
};

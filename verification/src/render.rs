//! The formatter: render a canonical package sequence as a portfile
//! `cargo.crates` block under one of four alignment policies.

use vstd::prelude::*;

use crate::record::PackageRecord;
use crate::text::{append_spaces, spaces};
use crate::version::{ver_chars, version_string};

verus! {

/// How the name and version columns of each line are aligned.
#[derive(Clone, Copy, Debug, PartialEq, Eq, Structural)]
pub enum AlignmentMode {
    /// Fixed columns: names left-aligned to width 28, versions right-aligned
    /// to width 8.
    Normal,
    /// Columns exactly as wide as the longest name and the longest version
    /// in the sequence, both left-aligned.
    Maxlen,
    /// No columns: name, version and checksum on three indented lines.
    Multiline,
    /// A per-package gap sized so that name plus gap plus version spans the
    /// same width on every line.
    Justify,
}

/// The amount of space always placed between name and version in
/// `AlignmentMode::Justify`, in addition to the computed compensation.
pub const JUSTIFIED_BASE_WIDTH: u64 = 5;

/// The token that opens every rendered block.
pub open spec fn header_chars() -> Seq<char> {
    "cargo.crates"@
}

/// The line-continuation marker: a space, a backslash, a newline.
pub open spec fn cont_chars() -> Seq<char> {
    seq![' ', '\\', '\n']
}

/// The fixed indent of every continuation line.
pub open spec fn indent_chars() -> Seq<char> {
    spaces(4)
}

/// The fixed two-space separator before the checksum column.
pub open spec fn sep_chars() -> Seq<char> {
    seq![' ', ' ']
}

/// `s` left-aligned in a field of width `w`; never truncated.
pub open spec fn pad_right(s: Seq<char>, w: nat) -> Seq<char> {
    if s.len() >= w {
        s
    } else {
        s + spaces((w - s.len()) as nat)
    }
}

/// `s` right-aligned in a field of width `w`; never truncated.
pub open spec fn pad_left(s: Seq<char>, w: nat) -> Seq<char> {
    if s.len() >= w {
        s
    } else {
        spaces((w - s.len()) as nat) + s
    }
}

/// The length of a record's name together with its rendered version.
pub open spec fn combined_len(p: PackageRecord) -> nat {
    p.name@.len() + ver_chars(p.version).len()
}

/// The longest name length in the sequence (zero when empty); every record
/// counts, checksummed or not.
pub open spec fn max_name_len(s: Seq<PackageRecord>) -> nat
    decreases s.len(),
{
    if s.len() == 0 {
        0
    } else {
        let m = max_name_len(s.drop_last());
        let l = s.last().name@.len();
        if l > m {
            l
        } else {
            m
        }
    }
}

/// The longest rendered-version length in the sequence (zero when empty).
pub open spec fn max_ver_len(s: Seq<PackageRecord>) -> nat
    decreases s.len(),
{
    if s.len() == 0 {
        0
    } else {
        let m = max_ver_len(s.drop_last());
        let l = ver_chars(s.last().version).len();
        if l > m {
            l
        } else {
            m
        }
    }
}

/// The longest combined name-plus-version length in the sequence.
pub open spec fn max_combined_len(s: Seq<PackageRecord>) -> nat
    decreases s.len(),
{
    if s.len() == 0 {
        0
    } else {
        let m = max_combined_len(s.drop_last());
        let l = combined_len(s.last());
        if l > m {
            l
        } else {
            m
        }
    }
}

/// One rendered line for a checksummed record, under the given mode and the
/// column widths computed over the whole sequence.
pub open spec fn line_chars(
    p: PackageRecord,
    mode: AlignmentMode,
    nw: nat,
    vw: nat,
    mc: nat,
) -> Seq<char>
    recommends
        p.checksum is Some,
{
    let name = p.name@;
    let ver = ver_chars(p.version);
    let ck = match p.checksum {
        Option::Some(c) => c@,
        Option::None => Seq::<char>::empty(),
    };
    match mode {
        AlignmentMode::Normal => indent_chars() + pad_right(name, 28) + sep_chars() + pad_left(
            ver,
            8,
        ) + sep_chars() + ck,
        AlignmentMode::Maxlen => indent_chars() + pad_right(name, nw) + sep_chars() + pad_right(
            ver,
            vw,
        ) + sep_chars() + ck,
        AlignmentMode::Multiline => indent_chars() + name + cont_chars() + indent_chars() + ver
            + cont_chars() + indent_chars() + ck,
        AlignmentMode::Justify => {
            let combined = name.len() + ver.len();
            let gap: nat = if combined <= mc {
                (mc + (JUSTIFIED_BASE_WIDTH as nat) - combined) as nat
            } else {
                JUSTIFIED_BASE_WIDTH as nat
            };
            indent_chars() + name + spaces(gap) + ver + sep_chars() + ck
        },
    }
}

/// What one record contributes to the output: nothing without a checksum,
/// else the continuation marker and its line.
pub open spec fn block_chars(
    p: PackageRecord,
    mode: AlignmentMode,
    nw: nat,
    vw: nat,
    mc: nat,
) -> Seq<char> {
    if p.checksum is Some {
        cont_chars() + line_chars(p, mode, nw, vw, mc)
    } else {
        Seq::<char>::empty()
    }
}

/// The contributions of every record, in sequence order.
pub open spec fn blocks_chars(
    s: Seq<PackageRecord>,
    mode: AlignmentMode,
    nw: nat,
    vw: nat,
    mc: nat,
) -> Seq<char>
    decreases s.len(),
{
    if s.len() == 0 {
        Seq::<char>::empty()
    } else {
        blocks_chars(s.drop_last(), mode, nw, vw, mc) + block_chars(s.last(), mode, nw, vw, mc)
    }
}

/// The full rendered block: the header token, then one contribution per
/// record in order, aligned under `mode` with widths measured over the whole
/// sequence.
pub open spec fn format_chars(s: Seq<PackageRecord>, mode: AlignmentMode) -> Seq<char> {
    header_chars() + blocks_chars(s, mode, max_name_len(s), max_ver_len(s), max_combined_len(s))
}

/// An empty sequence renders as the header token alone, in every mode.
pub proof fn lemma_format_empty(mode: AlignmentMode)
    ensures
        format_chars(Seq::<PackageRecord>::empty(), mode) == header_chars(),
{
    assert(format_chars(Seq::<PackageRecord>::empty(), mode) =~= header_chars());
}

/// The records that contribute a line: those with a checksum.
pub open spec fn checksummed(s: Seq<PackageRecord>) -> Seq<PackageRecord> {
    s.filter(|p: PackageRecord| p.checksum is Some)
}

/// The blocks of a sequence are exactly the blocks of its checksummed
/// records: records without a checksum contribute nothing.
proof fn lemma_blocks_of_checksummed(
    s: Seq<PackageRecord>,
    mode: AlignmentMode,
    nw: nat,
    vw: nat,
    mc: nat,
)
    ensures
        blocks_chars(s, mode, nw, vw, mc) == blocks_chars(checksummed(s), mode, nw, vw, mc),
    decreases s.len(),
{
    reveal(Seq::filter);
    if s.len() == 0 {
    } else {
        let s1 = s.drop_last();
        lemma_blocks_of_checksummed(s1, mode, nw, vw, mc);
        if s.last().checksum is Some {
            assert(checksummed(s) == checksummed(s1).push(s.last()));
            assert(checksummed(s).drop_last() =~= checksummed(s1));
            assert(checksummed(s).last() == s.last());
        } else {
            assert(checksummed(s) == checksummed(s1));
            assert(blocks_chars(s, mode, nw, vw, mc) =~= blocks_chars(s1, mode, nw, vw, mc));
        }
    }
}

/// Rendering is one-to-one with the checksummed records, in sequence order:
/// the output is the header followed by the contributions of exactly the
/// checksummed records, and each such record contributes exactly one
/// continuation marker followed by its line.
pub proof fn lemma_format_lines(s: Seq<PackageRecord>, mode: AlignmentMode)
    ensures
        format_chars(s, mode) == header_chars() + blocks_chars(
            checksummed(s),
            mode,
            max_name_len(s),
            max_ver_len(s),
            max_combined_len(s),
        ),
        forall|i: int|
            0 <= i < checksummed(s).len() ==> (#[trigger] checksummed(s)[i]).checksum is Some,
        forall|p: PackageRecord|
            p.checksum is Some ==> #[trigger] block_chars(
                p,
                mode,
                max_name_len(s),
                max_ver_len(s),
                max_combined_len(s),
            ) == cont_chars() + line_chars(
                p,
                mode,
                max_name_len(s),
                max_ver_len(s),
                max_combined_len(s),
            ),
{
    lemma_blocks_of_checksummed(s, mode, max_name_len(s), max_ver_len(s), max_combined_len(s));
    s.filter_lemma(|p: PackageRecord| p.checksum is Some);
}

/// No record's combined length exceeds the sequence maximum.
proof fn lemma_max_combined_bound(s: Seq<PackageRecord>, i: int)
    requires
        0 <= i < s.len(),
    ensures
        combined_len(s[i]) <= max_combined_len(s),
    decreases s.len(),
{
    if i == s.len() - 1 {
    } else {
        lemma_max_combined_bound(s.drop_last(), i);
        assert(s.drop_last()[i] == s[i]);
    }
}

/// Dropping the last element of a one-longer prefix gives the prefix.
proof fn lemma_take_succ(s: Seq<PackageRecord>, i: int)
    requires
        0 <= i < s.len(),
    ensures
        s.take(i + 1).drop_last() == s.take(i),
        s.take(i + 1).last() == s[i],
{
    assert(s.take(i + 1).drop_last() =~= s.take(i));
}

/// Append `s` left-aligned in a field of width `w`.
fn append_pad_right(out: &mut String, s: &str, w: usize)
    ensures
        final(out)@ == old(out)@ + pad_right(s@, w as nat),
{
    let l = s.unicode_len();
    out.append(s);
    if l < w {
        append_spaces(out, (w - l) as u128);
    } else {
        proof {
            assert(out@ =~= old(out)@ + pad_right(s@, w as nat));
        }
    }
}

/// Append `s` right-aligned in a field of width `w`.
fn append_pad_left(out: &mut String, s: &str, w: usize)
    ensures
        final(out)@ == old(out)@ + pad_left(s@, w as nat),
{
    let l = s.unicode_len();
    if l < w {
        append_spaces(out, (w - l) as u128);
    }
    out.append(s);
    proof {
        assert(out@ =~= old(out)@ + pad_left(s@, w as nat));
    }
}

/// Append one rendered line for a checksummed record.
#[verifier::rlimit(50)]
fn append_line(out: &mut String, p: &PackageRecord, mode: AlignmentMode, name_w: usize, ver_w: usize, max_comb: u128)
    requires
        p.checksum is Some,
        mode is Justify ==> combined_len(*p) <= max_comb as nat,
    ensures
        final(out)@ == old(out)@ + line_chars(
            *p,
            mode,
            name_w as nat,
            ver_w as nat,
            max_comb as nat,
        ),
{
    let ck = match &p.checksum {
        Option::Some(c) => c.as_str(),
        Option::None => "",
    };
    match mode {
        AlignmentMode::Normal => {
            append_spaces(out, 4);
            append_pad_right(out, p.name.as_str(), 28);
            append_spaces(out, 2);
            let vs = version_string(&p.version);
            append_pad_left(out, vs.as_str(), 8);
            append_spaces(out, 2);
            out.append(ck);
        },
        AlignmentMode::Maxlen => {
            append_spaces(out, 4);
            append_pad_right(out, p.name.as_str(), name_w);
            append_spaces(out, 2);
            let vs = version_string(&p.version);
            append_pad_right(out, vs.as_str(), ver_w);
            append_spaces(out, 2);
            out.append(ck);
        },
        AlignmentMode::Multiline => {
            append_spaces(out, 4);
            out.append(p.name.as_str());
            proof {
                reveal_strlit(" \\\n");
                assert(" \\\n"@ =~= cont_chars());
            }
            out.append(" \\\n");
            append_spaces(out, 4);
            let vs = version_string(&p.version);
            out.append(vs.as_str());
            out.append(" \\\n");
            append_spaces(out, 4);
            out.append(ck);
        },
        AlignmentMode::Justify => {
            append_spaces(out, 4);
            out.append(p.name.as_str());
            let nl = p.name.as_str().unicode_len();
            let vs = version_string(&p.version);
            let vl = vs.as_str().unicode_len();
            let comb: u128 = nl as u128 + vl as u128;
            let gap: u128 = max_comb - comb + JUSTIFIED_BASE_WIDTH as u128;
            append_spaces(out, gap);
            out.append(vs.as_str());
            append_spaces(out, 2);
            out.append(ck);
        },
    }
    proof {
        assert(spaces(4) == indent_chars());
        assert(spaces(2) =~= sep_chars());
        assert(out@ =~= old(out)@ + line_chars(
            *p,
            mode,
            name_w as nat,
            ver_w as nat,
            max_comb as nat,
        ));
    }
}

/// Render the portfile `cargo.crates` block for a package sequence under an
/// alignment mode. The sequence is expected to be already sorted and
/// deduplicated; it is rendered in the order given, and any record without
/// a checksum contributes nothing. This function is total: it never fails.
pub fn format_cargo_crates(packages: Vec<PackageRecord>, mode: AlignmentMode) -> (r: String)
    ensures
        r@ == format_chars(packages@, mode),
{
    let ghost pkgs = packages@;
    let n = packages.len();
    let mut name_w: usize = 0;
    let mut ver_w: usize = 0;
    let mut max_comb: u128 = 0;
    match mode {
        AlignmentMode::Maxlen => {
            let mut i: usize = 0;
            while i < n
                invariant
                    pkgs == packages@,
                    n == pkgs.len(),
                    i <= n,
                    name_w as nat == max_name_len(pkgs.take(i as int)),
                    ver_w as nat == max_ver_len(pkgs.take(i as int)),
                decreases n - i,
            {
                let p = &packages[i];
                let nl = p.name.as_str().unicode_len();
                if nl > name_w {
                    name_w = nl;
                }
                let vs = version_string(&p.version);
                let vl = vs.as_str().unicode_len();
                if vl > ver_w {
                    ver_w = vl;
                }
                proof {
                    lemma_take_succ(pkgs, i as int);
                }
                i = i + 1;
            }
            proof {
                assert(pkgs.take(n as int) =~= pkgs);
            }
        },
        AlignmentMode::Justify => {
            let mut i: usize = 0;
            while i < n
                invariant
                    pkgs == packages@,
                    n == pkgs.len(),
                    i <= n,
                    max_comb as nat == max_combined_len(pkgs.take(i as int)),
                decreases n - i,
            {
                let p = &packages[i];
                let nl = p.name.as_str().unicode_len();
                let vs = version_string(&p.version);
                let vl = vs.as_str().unicode_len();
                let comb: u128 = nl as u128 + vl as u128;
                if comb > max_comb {
                    max_comb = comb;
                }
                proof {
                    lemma_take_succ(pkgs, i as int);
                }
                i = i + 1;
            }
            proof {
                assert(pkgs.take(n as int) =~= pkgs);
            }
        },
        _ => {
        },
    }
    let ghost nw = max_name_len(pkgs);
    let ghost vw = max_ver_len(pkgs);
    let ghost mc = max_combined_len(pkgs);
    let mut out = String::new();
    proof {
        reveal_strlit("cargo.crates");
    }
    out.append("cargo.crates");
    proof {
        assert(out@ =~= header_chars() + blocks_chars(pkgs.take(0), mode, nw, vw, mc));
    }
    let mut i: usize = 0;
    while i < n
        invariant
            pkgs == packages@,
            n == pkgs.len(),
            i <= n,
            mode is Maxlen ==> name_w as nat == nw && ver_w as nat == vw,
            mode is Justify ==> max_comb as nat == mc,
            nw == max_name_len(pkgs),
            vw == max_ver_len(pkgs),
            mc == max_combined_len(pkgs),
            out@ == header_chars() + blocks_chars(pkgs.take(i as int), mode, nw, vw, mc),
        decreases n - i,
    {
        let ghost base = out@;
        let p = &packages[i];
        match &p.checksum {
            Option::Some(_) => {
                proof {
                    reveal_strlit(" \\\n");
                    assert(" \\\n"@ =~= cont_chars());
                }
                out.append(" \\\n");
                proof {
                    if mode is Justify {
                        lemma_max_combined_bound(pkgs, i as int);
                    }
                }
                append_line(&mut out, p, mode, name_w, ver_w, max_comb);
                proof {
                    lemma_take_succ(pkgs, i as int);
                    assert(out@ =~= base + block_chars(pkgs[i as int], mode, nw, vw, mc));
                    assert(out@ =~= header_chars() + blocks_chars(
                        pkgs.take(i as int + 1),
                        mode,
                        nw,
                        vw,
                        mc,
                    ));
                }
            },
            Option::None => {
                proof {
                    lemma_take_succ(pkgs, i as int);
                    assert(out@ =~= header_chars() + blocks_chars(
                        pkgs.take(i as int + 1),
                        mode,
                        nw,
                        vw,
                        mc,
                    ));
                }
            },
        }
        i = i + 1;
    }
    proof {
        assert(pkgs.take(n as int) =~= pkgs);
    }
    out
}

} // verus!

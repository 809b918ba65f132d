//! Source-string handling: telling standard input, remote crate specifiers
//! and local paths apart, and splitting a `name@version` crate specifier.

use vstd::prelude::*;

use crate::record::Error;

verus! {

/// The index of the first `'@'` in `s`, or `s.len()` when there is none.
pub open spec fn at_pos(s: Seq<char>) -> int
    decreases s.len(),
{
    if s.len() == 0 {
        0
    } else if s[0] == '@' {
        0
    } else {
        1 + at_pos(s.drop_first())
    }
}

/// `at_pos` lies in range, everything before it differs from `'@'`, and when
/// in range it indexes an `'@'`.
pub proof fn lemma_at_pos(s: Seq<char>)
    ensures
        0 <= at_pos(s) <= s.len(),
        forall|j: int| 0 <= j < at_pos(s) ==> s[j] != '@',
        at_pos(s) < s.len() ==> s[at_pos(s)] == '@',
    decreases s.len(),
{
    if s.len() == 0 {
    } else if s[0] == '@' {
    } else {
        lemma_at_pos(s.drop_first());
        assert forall|j: int| 0 <= j < at_pos(s) implies s[j] != '@' by {
            if j >= 1 {
                assert(s.drop_first()[j - 1] == s[j]);
            }
        }
        if at_pos(s) < s.len() {
            assert(s.drop_first()[at_pos(s) - 1] == s[at_pos(s)]);
        }
    }
}

/// A position that indexes an `'@'` with none before it is `at_pos`.
pub proof fn lemma_at_pos_unique(s: Seq<char>, i: int)
    requires
        0 <= i < s.len(),
        s[i] == '@',
        forall|j: int| 0 <= j < i ==> s[j] != '@',
    ensures
        at_pos(s) == i,
{
    lemma_at_pos(s);
}

/// When no character is an `'@'`, `at_pos` is the length.
pub proof fn lemma_at_pos_absent(s: Seq<char>)
    requires
        forall|j: int| 0 <= j < s.len() ==> s[j] != '@',
    ensures
        at_pos(s) == s.len(),
{
    lemma_at_pos(s);
}

/// Scan forward from `from` to the next `'@'`, or to the end.
fn scan_for_at(sp: &str, from: usize) -> (r: usize)
    requires
        from <= sp@.len(),
    ensures
        from <= r <= sp@.len(),
        forall|j: int| from <= j < r ==> sp@[j] != '@',
        r < sp@.len() ==> sp@[r as int] == '@',
{
    let len = sp.unicode_len();
    let mut i: usize = from;
    while i < len
        invariant
            len == sp@.len(),
            from <= i <= len,
            forall|j: int| from <= j < i ==> sp@[j] != '@',
        decreases len - i,
    {
        if sp.get_char(i) == '@' {
            return i;
        }
        i = i + 1;
    }
    i
}

/// Split a remote crate specifier `name@version` at its `'@'` separators:
/// the name is everything before the first `'@'`, the version everything
/// between the first and the second (or the end). A specifier without an
/// `'@'` is rejected and handed back inside the error.
pub fn parse_crate_spec(sp: &str) -> (r: Result<(String, String), Error>)
    ensures
        r is Ok <==> at_pos(sp@) < sp@.len(),
        r is Ok ==> r->Ok_0.0@ == sp@.take(at_pos(sp@)),
        r is Ok ==> r->Ok_0.1@ == sp@.subrange(
            at_pos(sp@) + 1,
            at_pos(sp@) + 1 + at_pos(sp@.skip(at_pos(sp@) + 1)),
        ),
        r is Err ==> r->Err_0 is Spec && r->Err_0->Spec_0@ == sp@,
{
    let len = sp.unicode_len();
    let i = scan_for_at(sp, 0);
    if i == len {
        proof {
            lemma_at_pos_absent(sp@);
        }
        return Err(Error::Spec(sp.to_owned()));
    }
    proof {
        lemma_at_pos_unique(sp@, i as int);
    }
    let name = sp.substring_char(0, i).to_owned();
    let j = scan_for_at(sp, i + 1);
    proof {
        let rest = sp@.skip(i as int + 1);
        assert forall|k: int| 0 <= k < j - (i + 1) implies rest[k] != '@' by {
            assert(rest[k] == sp@[k + i + 1]);
        }
        if j < len {
            assert(rest[j - (i + 1)] == sp@[j as int]);
            lemma_at_pos_unique(rest, j - (i + 1));
        } else {
            lemma_at_pos_absent(rest);
        }
    }
    let version = sp.substring_char(i + 1, j).to_owned();
    proof {
        assert(name@ == sp@.take(i as int));
    }
    Ok((name, version))
}

/// Where one lockfile source comes from, read off its source string.
#[derive(Debug)]
pub enum SourceKind {
    /// The source string `-`: read the lockfile from standard input.
    Stdin,
    /// A `crate:` prefix: fetch the named crate remotely; the payload is the
    /// specifier after the prefix.
    CratesIo(String),
    /// Anything else: a local path to a lockfile.
    Path(String),
}

/// Whether `s` begins with the remote-source prefix `crate:`.
pub open spec fn has_crate_prefix(s: Seq<char>) -> bool {
    s.len() >= 6 && s.take(6) == "crate:"@
}

/// Classify a lockfile source string: exactly `-` means standard input, a
/// `crate:` prefix means a remote crate (the rest of the string being the
/// specifier), anything else is a local path.
pub fn classify_source(name: &str) -> (r: SourceKind)
    ensures
        name@ == "-"@ ==> r is Stdin,
        name@ != "-"@ && has_crate_prefix(name@) ==> r is CratesIo && r->CratesIo_0@
            == name@.skip(6),
        name@ != "-"@ && !has_crate_prefix(name@) ==> r is Path && r->Path_0@ == name@,
{
    proof {
        reveal_strlit("-");
        reveal_strlit("crate:");
    }
    let len = name.unicode_len();
    if len == 1 {
        if name.get_char(0) == '-' {
            proof {
                assert(name@ =~= "-"@);
            }
            return SourceKind::Stdin;
        }
    }
    proof {
        if name@ == "-"@ {
            assert(name@.len() == 1 && name@[0] == '-');
            assert(false);
        }
    }
    if len >= 6 {
        let prefix = name.substring_char(0, 6);
        match crate::text::str_cmp(prefix, "crate:") {
            crate::text::Cmp::Eq => {
                proof {
                    assert(name@.take(6) == prefix@);
                }
                return SourceKind::CratesIo(name.substring_char(6, len).to_owned());
            },
            _ => {
                proof {
                    assert(name@.take(6) == prefix@);
                }
            },
        }
    }
    proof {
        if has_crate_prefix(name@) {
            assert(false);
        }
    }
    SourceKind::Path(name.to_owned())
}

} // verus!

//! Semantic-version values: canonical rendering and the total order used to
//! sort package records.

use vstd::prelude::*;

use crate::idents::{
    ident_list_lt, idents_cmp, lemma_ident_list_trans, lemma_ident_list_trichotomy,
    lemma_split_injective, split_dots,
};
use crate::text::{append_dec, dec_chars, Cmp};

verus! {

/// A parsed semantic version: the three numeric components together with the
/// pre-release and build-metadata identifiers (empty strings when absent).
#[derive(Debug)]
pub struct Version {
    pub major: u64,
    pub minor: u64,
    pub patch: u64,
    pub pre: String,
    pub build: String,
}

/// Two versions denote the same value: equal numeric components and equal
/// pre-release and build identifiers.
pub open spec fn ver_eq(a: Version, b: Version) -> bool {
    a.major == b.major && a.minor == b.minor && a.patch == b.patch && a.pre@ == b.pre@
        && a.build@ == b.build@
}

/// Order on pre-release suffixes: a release (empty suffix) sorts after
/// every pre-release; two pre-releases compare by semantic-version
/// identifier precedence.
pub open spec fn pre_lt(a: Seq<char>, b: Seq<char>) -> bool {
    if a.len() == 0 {
        false
    } else if b.len() == 0 {
        true
    } else {
        ident_list_lt(split_dots(a), split_dots(b), false)
    }
}

/// Order on build-metadata suffixes: identifier precedence with the
/// build-metadata numeric rule (zero-trimmed value first, then the count
/// of leading zeros); the empty suffix sorts first.
pub open spec fn build_lt(a: Seq<char>, b: Seq<char>) -> bool {
    ident_list_lt(split_dots(a), split_dots(b), true)
}

/// Strict total order on versions: numeric components first, then the
/// pre-release order, then build metadata.
pub open spec fn ver_lt(a: Version, b: Version) -> bool {
    a.major < b.major || (a.major == b.major && (a.minor < b.minor || (a.minor == b.minor && (
    a.patch < b.patch || (a.patch == b.patch && (pre_lt(a.pre@, b.pre@) || (a.pre@ == b.pre@
        && build_lt(a.build@, b.build@))))))))
}

/// The canonical rendering of a version: `major.minor.patch`, then `-pre`
/// when a pre-release identifier is present, then `+build` when build
/// metadata is present.
pub open spec fn ver_chars(v: Version) -> Seq<char> {
    dec_chars(v.major as nat) + seq!['.'] + dec_chars(v.minor as nat) + seq!['.'] + dec_chars(
        v.patch as nat,
    ) + (if v.pre@.len() > 0 {
        seq!['-'] + v.pre@
    } else {
        Seq::<char>::empty()
    }) + (if v.build@.len() > 0 {
        seq!['+'] + v.build@
    } else {
        Seq::<char>::empty()
    })
}

/// Exactly one of `pre_lt(a, b)`, `a == b`, `pre_lt(b, a)` holds.
pub proof fn lemma_pre_lt_trichotomy(a: Seq<char>, b: Seq<char>)
    ensures
        pre_lt(a, b) || a == b || pre_lt(b, a),
        pre_lt(a, b) ==> a != b && !pre_lt(b, a),
        a == b ==> !pre_lt(a, b) && !pre_lt(b, a),
{
    if a.len() == 0 && b.len() == 0 {
        assert(a =~= b);
    } else if a.len() > 0 && b.len() > 0 {
        lemma_ident_list_trichotomy(split_dots(a), split_dots(b), false);
        if split_dots(a) == split_dots(b) {
            lemma_split_injective(a, b);
        }
    }
}

/// The pre-release order is transitive.
pub proof fn lemma_pre_lt_trans(a: Seq<char>, b: Seq<char>, c: Seq<char>)
    requires
        pre_lt(a, b),
        pre_lt(b, c),
    ensures
        pre_lt(a, c),
{
    if c.len() > 0 {
        lemma_ident_list_trans(split_dots(a), split_dots(b), split_dots(c), false);
    }
}

/// Exactly one of `build_lt(a, b)`, `a == b`, `build_lt(b, a)` holds.
pub proof fn lemma_build_lt_trichotomy(a: Seq<char>, b: Seq<char>)
    ensures
        build_lt(a, b) || a == b || build_lt(b, a),
        build_lt(a, b) ==> a != b && !build_lt(b, a),
        a == b ==> !build_lt(a, b) && !build_lt(b, a),
{
    lemma_ident_list_trichotomy(split_dots(a), split_dots(b), true);
    if split_dots(a) == split_dots(b) {
        lemma_split_injective(a, b);
    }
}

/// The build-metadata order is transitive.
pub proof fn lemma_build_lt_trans(a: Seq<char>, b: Seq<char>, c: Seq<char>)
    requires
        build_lt(a, b),
        build_lt(b, c),
    ensures
        build_lt(a, c),
{
    lemma_ident_list_trans(split_dots(a), split_dots(b), split_dots(c), true);
}

/// Exactly one of `ver_lt(a, b)`, `ver_eq(a, b)`, `ver_lt(b, a)` holds.
pub proof fn lemma_ver_lt_trichotomy(a: Version, b: Version)
    ensures
        ver_lt(a, b) || ver_eq(a, b) || ver_lt(b, a),
        ver_lt(a, b) ==> !ver_eq(a, b) && !ver_lt(b, a),
        ver_eq(a, b) ==> !ver_lt(a, b) && !ver_lt(b, a),
{
    lemma_pre_lt_trichotomy(a.pre@, b.pre@);
    lemma_build_lt_trichotomy(a.build@, b.build@);
}

/// The order on versions is transitive.
pub proof fn lemma_ver_lt_trans(a: Version, b: Version, c: Version)
    requires
        ver_lt(a, b),
        ver_lt(b, c),
    ensures
        ver_lt(a, c),
{
    lemma_pre_lt_trichotomy(a.pre@, b.pre@);
    lemma_pre_lt_trichotomy(b.pre@, c.pre@);
    if pre_lt(a.pre@, b.pre@) && pre_lt(b.pre@, c.pre@) {
        lemma_pre_lt_trans(a.pre@, b.pre@, c.pre@);
    }
    if build_lt(a.build@, b.build@) && build_lt(b.build@, c.build@) {
        lemma_build_lt_trans(a.build@, b.build@, c.build@);
    }
}

impl Clone for Version {
    /// A clone denotes the same version value.
    fn clone(&self) -> (r: Version)
        ensures
            r == *self,
    {
        Version {
            major: self.major,
            minor: self.minor,
            patch: self.patch,
            pre: self.pre.clone(),
            build: self.build.clone(),
        }
    }
}

/// Compare two versions under the order that `ver_lt` describes.
pub fn version_cmp(a: &Version, b: &Version) -> (c: Cmp)
    ensures
        c is Lt <==> ver_lt(*a, *b),
        c is Eq <==> ver_eq(*a, *b),
        c is Gt <==> ver_lt(*b, *a),
{
    if a.major < b.major {
        return Cmp::Lt;
    }
    if b.major < a.major {
        return Cmp::Gt;
    }
    if a.minor < b.minor {
        return Cmp::Lt;
    }
    if b.minor < a.minor {
        return Cmp::Gt;
    }
    if a.patch < b.patch {
        return Cmp::Lt;
    }
    if b.patch < a.patch {
        return Cmp::Gt;
    }
    let a_release = a.pre.as_str().is_empty();
    let b_release = b.pre.as_str().is_empty();
    if a_release && !b_release {
        return Cmp::Gt;
    }
    if !a_release && b_release {
        return Cmp::Lt;
    }
    if !a_release && !b_release {
        proof {
            lemma_pre_lt_trichotomy(a.pre@, b.pre@);
        }
        match idents_cmp(a.pre.as_str(), b.pre.as_str(), false) {
            Cmp::Lt => {
                return Cmp::Lt;
            },
            Cmp::Gt => {
                return Cmp::Gt;
            },
            Cmp::Eq => {
            },
        }
    }
    proof {
        if a.pre@.len() == 0 && b.pre@.len() == 0 {
            assert(a.pre@ =~= b.pre@);
        }
        lemma_build_lt_trichotomy(a.build@, b.build@);
    }
    match idents_cmp(a.build.as_str(), b.build.as_str(), true) {
        Cmp::Lt => Cmp::Lt,
        Cmp::Gt => Cmp::Gt,
        Cmp::Eq => Cmp::Eq,
    }
}

/// Render a version in its canonical form.
pub fn version_string(v: &Version) -> (s: String)
    ensures
        s@ == ver_chars(*v),
{
    let mut s = String::new();
    append_dec(&mut s, v.major);
    proof {
        reveal_strlit(".");
    }
    s.append(".");
    append_dec(&mut s, v.minor);
    s.append(".");
    append_dec(&mut s, v.patch);
    if !v.pre.as_str().is_empty() {
        proof {
            reveal_strlit("-");
        }
        s.append("-");
        s.append(v.pre.as_str());
    }
    if !v.build.as_str().is_empty() {
        proof {
            reveal_strlit("+");
        }
        s.append("+");
        s.append(v.build.as_str());
    }
    proof {
        assert("."@ =~= seq!['.']);
        if v.pre@.len() > 0 {
            assert("-"@ =~= seq!['-']);
        }
        if v.build@.len() > 0 {
            assert("+"@ =~= seq!['+']);
        }
        assert(s@ =~= ver_chars(*v));
    }
    s
}

} // verus!

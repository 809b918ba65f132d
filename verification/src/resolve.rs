//! The resolver: merge the packages of several lockfile documents into one
//! canonical sequence — checksummed records only, deduplicated by
//! `(name, version, checksum)` identity, sorted ascending.

use vstd::prelude::*;

use crate::record::{
    lemma_rec_eq_congruence, lemma_rec_lt_trans, lemma_rec_lt_trichotomy, rec_eq, rec_lt,
    record_cmp, Error, LockfileDoc, PackageRecord,
};
use crate::text::Cmp;

verus! {

/// The sequence is strictly ascending under the record order; in particular
/// no two elements share an identity.
pub open spec fn strict_sorted(s: Seq<PackageRecord>) -> bool {
    forall|i: int, j: int| 0 <= i < j < s.len() ==> rec_lt(s[i], s[j])
}

/// Some document holds a record with `rec`'s identity.
pub open spec fn input_has(docs: Seq<LockfileDoc>, rec: PackageRecord) -> bool {
    exists|d: int, k: int|
        0 <= d < docs.len() && 0 <= k < docs[d].packages@.len() && rec_eq(docs[d].packages@[k], rec)
}

/// `rec`'s identity occurs in `s`.
pub open spec fn has_rec(s: Seq<PackageRecord>, rec: PackageRecord) -> bool {
    exists|i: int| 0 <= i < s.len() && rec_eq(s[i], rec)
}

/// What resolution guarantees of its output: strictly sorted, every element
/// checksummed and drawn from the input, and every checksummed input record
/// represented exactly once. These clauses determine the output uniquely.
pub open spec fn resolved(docs: Seq<LockfileDoc>, out: Seq<PackageRecord>) -> bool {
    &&& strict_sorted(out)
    &&& forall|i: int| 0 <= i < out.len() ==> (#[trigger] out[i]).checksum is Some
    &&& forall|i: int| 0 <= i < out.len() ==> input_has(docs, #[trigger] out[i])
    &&& forall|rec: PackageRecord|
        #[trigger] input_has(docs, rec) && rec.checksum is Some ==> has_rec(out, rec)
}

/// Insert `rec` into the strictly sorted `out`, keeping it sorted and
/// dropping `rec` when its identity is already present.
fn insert_record(out: &mut Vec<PackageRecord>, rec: PackageRecord)
    requires
        strict_sorted(old(out)@),
    ensures
        strict_sorted(final(out)@),
        forall|x: PackageRecord|
            #[trigger] has_rec(final(out)@, x) <==> has_rec(old(out)@, x) || rec_eq(rec, x),
        forall|i: int|
            0 <= i < final(out)@.len() ==> old(out)@.contains(#[trigger] final(out)@[i])
                || final(out)@[i] == rec,
{
    let ghost orig = out@;
    let mut i: usize = 0;
    loop
        invariant
            orig == old(out)@,
            out@ == orig,
            strict_sorted(out@),
            i <= out@.len(),
            forall|j: int| 0 <= j < i ==> rec_lt(#[trigger] out@[j], rec),
        decreases out@.len() - i,
    {
        if i == out.len() {
            out.push(rec);
            proof {
                assert forall|a: int, b: int| 0 <= a < b < out@.len() implies rec_lt(
                    out@[a],
                    out@[b],
                ) by {
                    if b < out@.len() - 1 {
                        assert(rec_lt(orig[a], orig[b]));
                    }
                }
                assert forall|x: PackageRecord| #[trigger] has_rec(out@, x) implies has_rec(
                    orig,
                    x,
                ) || rec_eq(rec, x) by {
                    let w = choose|w: int| 0 <= w < out@.len() && rec_eq(out@[w], x);
                    if w < out@.len() - 1 {
                        assert(rec_eq(orig[w], x));
                    }
                }
                assert forall|x: PackageRecord|
                    has_rec(orig, x) || rec_eq(rec, x) implies #[trigger] has_rec(out@, x) by {
                    if has_rec(orig, x) {
                        let w = choose|w: int| 0 <= w < orig.len() && rec_eq(orig[w], x);
                        assert(rec_eq(out@[w], x));
                    } else {
                        assert(rec_eq(out@[out@.len() - 1], x));
                    }
                }
            }
            return ;
        }
        let c = record_cmp(&out[i], &rec);
        match c {
            Cmp::Lt => {
                i = i + 1;
            },
            Cmp::Eq => {
                proof {
                    assert forall|x: PackageRecord|
                        has_rec(out@, x) || rec_eq(rec, x) implies #[trigger] has_rec(
                        out@,
                        x,
                    ) by {
                        if !has_rec(out@, x) {
                            lemma_rec_eq_congruence(out@[i as int], rec, x);
                            assert(rec_eq(out@[i as int], x));
                        }
                    }
                }
                return ;
            },
            Cmp::Gt => {
                proof {
                    out@.insert_ensures(i as int, rec);
                }
                out.insert(i, rec);
                proof {
                    let n = out@.len();
                    assert(out@[i as int] == rec);
                    assert forall|a: int, b: int| 0 <= a < b < n implies rec_lt(
                        out@[a],
                        out@[b],
                    ) by {
                        if a < i && b < i {
                            assert(rec_lt(orig[a], orig[b]));
                        } else if a < i && b == i {
                            assert(rec_lt(orig[a], rec));
                        } else if a < i && b > i {
                            assert(rec_lt(orig[a], orig[b - 1]));
                        } else if a == i && b > i {
                            if b - 1 == i {
                                assert(rec_lt(rec, orig[i as int]));
                            } else {
                                lemma_rec_lt_trans(rec, orig[i as int], orig[b - 1]);
                            }
                        } else {
                            assert(rec_lt(orig[a - 1], orig[b - 1]));
                        }
                    }
                    assert forall|x: PackageRecord| #[trigger] has_rec(out@, x) implies has_rec(
                        orig,
                        x,
                    ) || rec_eq(rec, x) by {
                        let w = choose|w: int| 0 <= w < out@.len() && rec_eq(out@[w], x);
                        if w < i {
                            assert(rec_eq(orig[w], x));
                        } else if w > i {
                            assert(rec_eq(orig[w - 1], x));
                        }
                    }
                    assert forall|x: PackageRecord|
                        has_rec(orig, x) || rec_eq(rec, x) implies #[trigger] has_rec(
                        out@,
                        x,
                    ) by {
                        if has_rec(orig, x) {
                            let w = choose|w: int| 0 <= w < orig.len() && rec_eq(orig[w], x);
                            if w < i {
                                assert(rec_eq(out@[w], x));
                            } else {
                                assert(out@[w + 1] == orig[w]);
                                assert(rec_eq(out@[w + 1], x));
                            }
                        } else {
                            assert(rec_eq(out@[i as int], x));
                        }
                    }
                    assert forall|j: int|
                        0 <= j < out@.len() implies orig.contains(#[trigger] out@[j]) || out@[j]
                        == rec by {
                        if j < i {
                            assert(out@[j] == orig[j]);
                        } else if j > i {
                            assert(out@[j] == orig[j - 1]);
                        }
                    }
                }
                return ;
            },
        }
    }
}

/// Resolve the packages of several lockfile documents into one canonical
/// sequence: records without a checksum are dropped, records sharing a full
/// `(name, version, checksum)` identity collapse to one, and the result is
/// sorted ascending by `(name, version)` (checksum breaking ties). This
/// step itself never fails.
pub fn resolve_lockfile_packages(lockfiles: &Vec<LockfileDoc>) -> (r: Result<
    Vec<PackageRecord>,
    Error,
>)
    ensures
        r is Ok,
        resolved(lockfiles@, r->Ok_0@),
{
    let ghost docs = lockfiles@;
    let mut out: Vec<PackageRecord> = Vec::new();
    let mut d: usize = 0;
    while d < lockfiles.len()
        invariant
            docs == lockfiles@,
            d <= docs.len(),
            strict_sorted(out@),
            forall|i: int| 0 <= i < out@.len() ==> (#[trigger] out@[i]).checksum is Some,
            forall|i: int| 0 <= i < out@.len() ==> input_has(docs, #[trigger] out@[i]),
            forall|rec: PackageRecord|
                #[trigger] input_has(docs.take(d as int), rec) && rec.checksum is Some ==> has_rec(
                    out@,
                    rec,
                ),
        decreases docs.len() - d,
    {
        let doc = &lockfiles[d];
        let mut k: usize = 0;
        while k < doc.packages.len()
            invariant
                docs == lockfiles@,
                d < docs.len(),
                doc == docs[d as int],
                k <= doc.packages@.len(),
                strict_sorted(out@),
                forall|i: int| 0 <= i < out@.len() ==> (#[trigger] out@[i]).checksum is Some,
                forall|i: int| 0 <= i < out@.len() ==> input_has(docs, #[trigger] out@[i]),
                forall|rec: PackageRecord|
                    #[trigger] input_has(docs.take(d as int), rec) && rec.checksum is Some
                        ==> has_rec(out@, rec),
                forall|rec: PackageRecord|
                    (exists|j: int|
                        0 <= j < k && rec_eq(#[trigger] doc.packages@[j], rec))
                        && rec.checksum is Some ==> has_rec(out@, rec),
            decreases doc.packages@.len() - k,
        {
            let p = &doc.packages[k];
            if p.checksum.is_some() {
                let ghost before = out@;
                insert_record(&mut out, p.clone());
                proof {
                    assert(rec_eq(doc.packages@[k as int], *p));
                    assert forall|i: int|
                        0 <= i < out@.len() implies (#[trigger] out@[i]).checksum is Some by {
                        if !before.contains(out@[i]) {
                            assert(out@[i] == *p);
                        }
                    }
                    assert forall|i: int|
                        0 <= i < out@.len() implies input_has(docs, #[trigger] out@[i]) by {
                        if before.contains(out@[i]) {
                            let w = choose|w: int| 0 <= w < before.len() && before[w] == out@[i];
                            assert(input_has(docs, before[w]));
                        } else {
                            assert(out@[i] == *p);
                            assert(0 <= d < docs.len() && 0 <= k < docs[d as int].packages@.len()
                                && rec_eq(docs[d as int].packages@[k as int], out@[i]));
                        }
                    }
                    assert forall|rec: PackageRecord|
                        (exists|j: int|
                            0 <= j < k + 1 && rec_eq(#[trigger] doc.packages@[j], rec))
                            && rec.checksum is Some implies has_rec(out@, rec) by {
                        let j = choose|j: int|
                            0 <= j < k + 1 && rec_eq(doc.packages@[j], rec);
                        if j < k {
                            assert(has_rec(before, rec));
                        } else {
                            lemma_rec_eq_congruence(doc.packages@[k as int], *p, rec);
                            assert(rec_eq(*p, rec));
                        }
                    }
                }
            } else {
                proof {
                    assert forall|rec: PackageRecord|
                        (exists|j: int|
                            0 <= j < k + 1 && rec_eq(#[trigger] doc.packages@[j], rec))
                            && rec.checksum is Some implies has_rec(out@, rec) by {
                        let j = choose|j: int|
                            0 <= j < k + 1 && rec_eq(doc.packages@[j], rec);
                        if j == k {
                            assert(doc.packages@[j].checksum is None);
                        }
                    }
                }
            }
            k = k + 1;
        }
        proof {
            assert forall|rec: PackageRecord|
                #[trigger] input_has(docs.take(d as int + 1), rec) && rec.checksum
                    is Some implies has_rec(out@, rec) by {
                let (dd, kk) = choose|dd: int, kk: int|
                    0 <= dd < docs.take(d as int + 1).len() && 0 <= kk < docs.take(
                        d as int + 1,
                    )[dd].packages@.len() && #[trigger] rec_eq(
                        docs.take(d as int + 1)[dd].packages@[kk],
                        rec,
                    );
                assert(docs.take(d as int + 1)[dd] == docs[dd]);
                if dd < d {
                    assert(docs.take(d as int)[dd] == docs[dd]);
                    assert(input_has(docs.take(d as int), rec));
                } else {
                    assert(rec_eq(doc.packages@[kk], rec));
                }
            }
        }
        d = d + 1;
    }
    proof {
        assert(docs.take(d as int) =~= docs);
    }
    Ok(out)
}

/// `(name, version)` of `a` is at most `(name, version)` of `b`.
pub open spec fn name_version_le(a: PackageRecord, b: PackageRecord) -> bool {
    crate::text::chars_lt(a.name@, b.name@) || (a.name@ == b.name@ && (crate::version::ver_lt(
        a.version,
        b.version,
    ) || crate::version::ver_eq(a.version, b.version)))
}

/// In a strictly sorted sequence — in particular in any resolved output —
/// every adjacent pair is ordered by `(name, version)`.
pub proof fn lemma_sorted_adjacent_pairs(s: Seq<PackageRecord>)
    requires
        strict_sorted(s),
    ensures
        forall|i: int| 0 <= i && i + 1 < s.len() ==> #[trigger] name_version_le(s[i], s[i + 1]),
{
    assert forall|i: int|
        0 <= i && i + 1 < s.len() implies #[trigger] name_version_le(s[i], s[i + 1]) by {
        assert(rec_lt(s[i], s[i + 1]));
    }
}

/// Resolution is canonical: two resolved outputs drawn from inputs that hold
/// the same record identities are the same sequence, whatever the order and
/// grouping of the input documents.
pub proof fn lemma_resolve_order_independent(
    docs1: Seq<LockfileDoc>,
    docs2: Seq<LockfileDoc>,
    r1: Seq<PackageRecord>,
    r2: Seq<PackageRecord>,
)
    requires
        resolved(docs1, r1),
        resolved(docs2, r2),
        forall|rec: PackageRecord| #[trigger] input_has(docs1, rec) <==> input_has(docs2, rec),
    ensures
        r1.len() == r2.len(),
        forall|i: int| 0 <= i < r1.len() ==> rec_eq(r1[i], r2[i]),
{
    assert forall|x: PackageRecord| #[trigger] has_rec(r1, x) implies has_rec(r2, x) by {
        let w = choose|w: int| 0 <= w < r1.len() && rec_eq(r1[w], x);
        assert(input_has(docs1, r1[w]));
        assert(has_rec(r2, r1[w]));
        let v = choose|v: int| 0 <= v < r2.len() && rec_eq(r2[v], r1[w]);
        lemma_rec_eq_congruence(r1[w], x, r2[v]);
        assert(rec_eq(r2[v], x));
    }
    assert forall|x: PackageRecord| #[trigger] has_rec(r2, x) implies has_rec(r1, x) by {
        let w = choose|w: int| 0 <= w < r2.len() && rec_eq(r2[w], x);
        assert(input_has(docs2, r2[w]));
        assert(input_has(docs1, r2[w]));
        assert(has_rec(r1, r2[w]));
        let v = choose|v: int| 0 <= v < r1.len() && rec_eq(r1[v], r2[w]);
        lemma_rec_eq_congruence(r2[w], x, r1[v]);
        assert(rec_eq(r1[v], x));
    }
    lemma_sorted_same_members(r1, r2);
}

/// Two strictly sorted sequences with the same member identities agree
/// pointwise.
pub proof fn lemma_sorted_same_members(a: Seq<PackageRecord>, b: Seq<PackageRecord>)
    requires
        strict_sorted(a),
        strict_sorted(b),
        forall|x: PackageRecord| #[trigger] has_rec(a, x) <==> has_rec(b, x),
    ensures
        a.len() == b.len(),
        forall|i: int| 0 <= i < a.len() ==> rec_eq(a[i], b[i]),
    decreases a.len(),
{
    if a.len() == 0 {
        if b.len() > 0 {
            assert(rec_eq(b[0], b[0]));
            assert(has_rec(b, b[0]));
            assert(!has_rec(a, b[0]));
            assert(false);
        }
    } else if b.len() == 0 {
        assert(rec_eq(a[0], a[0]));
        assert(has_rec(a, a[0]));
        assert(!has_rec(b, a[0]));
        assert(false);
    } else {
        assert(rec_eq(a[0], a[0]));
        assert(has_rec(a, a[0]));
        assert(has_rec(b, a[0]));
        let j = choose|j: int| 0 <= j < b.len() && rec_eq(b[j], a[0]);
        assert(rec_eq(b[0], b[0]));
        assert(has_rec(b, b[0]));
        assert(has_rec(a, b[0]));
        let i = choose|i: int| 0 <= i < a.len() && rec_eq(a[i], b[0]);
        if j > 0 && i > 0 {
            assert(rec_lt(b[0], b[j]));
            lemma_rec_eq_congruence(b[j], a[0], b[0]);
            assert(rec_lt(b[0], a[0]));
            assert(rec_lt(a[0], a[i]));
            lemma_rec_eq_congruence(a[i], b[0], a[0]);
            assert(rec_lt(a[0], b[0]));
            lemma_rec_lt_trans(a[0], b[0], a[0]);
            lemma_rec_lt_trichotomy(a[0], a[0]);
            assert(false);
        }
        assert(rec_eq(a[0], b[0])) by {
            if j == 0 {
                lemma_rec_eq_congruence(b[0], a[0], a[0]);
            }
        }
        let a1 = a.drop_first();
        let b1 = b.drop_first();
        assert forall|p: int, q: int| 0 <= p < q < a1.len() implies rec_lt(a1[p], a1[q]) by {
            assert(a1[p] == a[p + 1]);
            assert(a1[q] == a[q + 1]);
        }
        assert forall|p: int, q: int| 0 <= p < q < b1.len() implies rec_lt(b1[p], b1[q]) by {
            assert(b1[p] == b[p + 1]);
            assert(b1[q] == b[q + 1]);
        }
        assert forall|x: PackageRecord| #[trigger] has_rec(a1, x) implies has_rec(b1, x) by {
            let w = choose|w: int| 0 <= w < a1.len() && rec_eq(a1[w], x);
            assert(a1[w] == a[w + 1]);
            assert(has_rec(a, x));
            assert(has_rec(b, x));
            let v = choose|v: int| 0 <= v < b.len() && rec_eq(b[v], x);
            if v == 0 {
                lemma_rec_eq_congruence(b[0], a[0], x);
                lemma_rec_eq_congruence(a[w + 1], x, a[0]);
                assert(rec_eq(a[0], a[w + 1]));
                assert(rec_lt(a[0], a[w + 1]));
                lemma_rec_lt_trichotomy(a[0], a[w + 1]);
                assert(false);
            }
            assert(b1[v - 1] == b[v]);
            assert(rec_eq(b1[v - 1], x));
        }
        assert forall|x: PackageRecord| #[trigger] has_rec(b1, x) implies has_rec(a1, x) by {
            let w = choose|w: int| 0 <= w < b1.len() && rec_eq(b1[w], x);
            assert(b1[w] == b[w + 1]);
            assert(has_rec(b, x));
            assert(has_rec(a, x));
            let v = choose|v: int| 0 <= v < a.len() && rec_eq(a[v], x);
            if v == 0 {
                lemma_rec_eq_congruence(a[0], b[0], x);
                lemma_rec_eq_congruence(b[w + 1], x, b[0]);
                assert(rec_eq(b[0], b[w + 1]));
                assert(rec_lt(b[0], b[w + 1]));
                lemma_rec_lt_trichotomy(b[0], b[w + 1]);
                assert(false);
            }
            assert(a1[v - 1] == a[v]);
            assert(rec_eq(a1[v - 1], x));
        }
        lemma_sorted_same_members(a1, b1);
        assert forall|i2: int| 0 <= i2 < a.len() implies rec_eq(a[i2], b[i2]) by {
            if i2 > 0 {
                assert(rec_eq(a1[i2 - 1], b1[i2 - 1]));
                assert(a1[i2 - 1] == a[i2]);
                assert(b1[i2 - 1] == b[i2]);
            }
        }
    }
}

/// A checksummed record that any input document holds appears in the
/// resolved output exactly once.
pub proof fn lemma_resolve_dedup(
    docs: Seq<LockfileDoc>,
    r: Seq<PackageRecord>,
    rec: PackageRecord,
)
    requires
        resolved(docs, r),
        input_has(docs, rec),
        rec.checksum is Some,
    ensures
        exists|i: int| 0 <= i < r.len() && rec_eq(r[i], rec),
        forall|i: int, j: int|
            0 <= i < r.len() && 0 <= j < r.len() && rec_eq(r[i], rec) && rec_eq(r[j], rec) ==> i
                == j,
{
    assert(has_rec(r, rec));
    assert forall|i: int, j: int|
        0 <= i < r.len() && 0 <= j < r.len() && rec_eq(r[i], rec) && rec_eq(
            r[j],
            rec,
        ) implies i == j by {
        if i < j {
            lemma_rec_eq_congruence(r[i], rec, r[j]);
            lemma_rec_eq_congruence(r[j], rec, r[j]);
            assert(rec_eq(r[i], r[j]));
            lemma_rec_lt_trichotomy(r[i], r[j]);
            assert(false);
        }
        if j < i {
            lemma_rec_eq_congruence(r[j], rec, r[i]);
            assert(rec_eq(r[j], r[i]));
            lemma_rec_lt_trichotomy(r[j], r[i]);
            assert(false);
        }
    }
}

} // verus!

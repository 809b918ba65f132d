//! Semantic-version identifier precedence: pre-release and build-metadata
//! strings are split on `'.'` into identifiers; identifiers consisting only
//! of digits compare numerically, numeric identifiers sort below
//! alphanumeric ones, alphanumeric identifiers compare lexically, and a
//! shorter identifier list sorts below any extension of it.

use vstd::prelude::*;

use crate::text::{chars_lt, lemma_chars_lt_trans, lemma_chars_lt_trichotomy, str_cmp, Cmp};

verus! {

/// Every character is a decimal digit (vacuously true of the empty
/// sequence, as in the comparison this models).
pub open spec fn is_num_ident(s: Seq<char>) -> bool {
    forall|i: int| 0 <= i < s.len() ==> '0' <= #[trigger] s[i] && s[i] <= '9'
}

/// `s` without its leading `'0'` characters.
pub open spec fn trim_zeros(s: Seq<char>) -> Seq<char>
    decreases s.len(),
{
    if s.len() > 0 && s[0] == '0' {
        trim_zeros(s.drop_first())
    } else {
        s
    }
}

/// The trimmed sequence is a suffix of `s`, preceded only by zeros, and
/// does not itself start with a zero.
pub proof fn lemma_trim_zeros(s: Seq<char>)
    ensures
        trim_zeros(s).len() <= s.len(),
        forall|i: int| 0 <= i < s.len() - trim_zeros(s).len() ==> s[i] == '0',
        forall|i: int|
            0 <= i < trim_zeros(s).len() ==> #[trigger] trim_zeros(s)[i] == s[i + s.len()
                - trim_zeros(s).len()],
        trim_zeros(s).len() > 0 ==> trim_zeros(s)[0] != '0',
    decreases s.len(),
{
    if s.len() > 0 && s[0] == '0' {
        let s1 = s.drop_first();
        let t = trim_zeros(s);
        lemma_trim_zeros(s1);
        assert(t == trim_zeros(s1));
        assert forall|i: int| 0 <= i < s.len() - t.len() implies s[i] == '0' by {
            if i >= 1 {
                assert(s1[i - 1] == s[i]);
            }
        }
        assert forall|i: int| 0 <= i < t.len() implies #[trigger] t[i] == s[i + s.len()
            - t.len()] by {
            assert(t[i] == s1[i + s1.len() - t.len()]);
            assert(s1[i + s1.len() - t.len()] == s[i + s.len() - t.len()]);
        }
    }
}

/// Sequences with equal trimmings and equal lengths are equal.
pub proof fn lemma_trim_eq(a: Seq<char>, b: Seq<char>)
    requires
        trim_zeros(a) == trim_zeros(b),
        a.len() == b.len(),
    ensures
        a == b,
{
    lemma_trim_zeros(a);
    lemma_trim_zeros(b);
    let k = a.len() - trim_zeros(a).len();
    assert forall|i: int| 0 <= i < a.len() implies a[i] == b[i] by {
        if i >= k {
            assert(trim_zeros(a)[i - k] == a[i]);
            assert(trim_zeros(b)[i - k] == b[i]);
        }
    }
    assert(a =~= b);
}

/// A position preceded only by zeros and not itself a zero marks the
/// trimming point.
pub proof fn lemma_trim_at(s: Seq<char>, t: int)
    requires
        0 <= t <= s.len(),
        forall|j: int| 0 <= j < t ==> s[j] == '0',
        t < s.len() ==> s[t] != '0',
    ensures
        trim_zeros(s) == s.skip(t),
    decreases t,
{
    if t == 0 {
        assert(trim_zeros(s) =~= s.skip(0));
    } else {
        assert(s[0] == '0');
        let s1 = s.drop_first();
        assert(forall|j: int| 0 <= j < t - 1 ==> #[trigger] s1[j] == s[j + 1]);
        lemma_trim_at(s1, t - 1);
        assert(s1.skip(t - 1) =~= s.skip(t));
    }
}

/// Strict order on single identifiers, as semantic versioning compares
/// them. Pre-release numeric identifiers compare by length then lexically
/// (numeric order, leading zeros never being produced by a parse); build
/// numeric identifiers compare by their zero-trimmed value and then by
/// their number of leading zeros. A numeric identifier sorts below an
/// alphanumeric one; alphanumeric identifiers compare lexically.
pub open spec fn ident_lt(a: Seq<char>, b: Seq<char>, build: bool) -> bool {
    if is_num_ident(a) && is_num_ident(b) {
        if build {
            let ta = trim_zeros(a);
            let tb = trim_zeros(b);
            ta.len() < tb.len() || (ta.len() == tb.len() && (chars_lt(ta, tb) || (ta == tb
                && a.len() < b.len())))
        } else {
            a.len() < b.len() || (a.len() == b.len() && chars_lt(a, b))
        }
    } else if is_num_ident(a) {
        true
    } else if is_num_ident(b) {
        false
    } else {
        chars_lt(a, b)
    }
}

/// Distinct identifiers are ordered one way or the other, never both.
pub proof fn lemma_ident_lt_trichotomy(a: Seq<char>, b: Seq<char>, build: bool)
    ensures
        a != b ==> ident_lt(a, b, build) || ident_lt(b, a, build),
        ident_lt(a, b, build) ==> a != b && !ident_lt(b, a, build),
{
    lemma_chars_lt_trichotomy(a, b);
    lemma_chars_lt_trichotomy(trim_zeros(a), trim_zeros(b));
    if is_num_ident(a) && is_num_ident(b) && build {
        if trim_zeros(a) == trim_zeros(b) && a.len() == b.len() {
            lemma_trim_eq(a, b);
        }
    }
}

/// The identifier order is transitive.
pub proof fn lemma_ident_lt_trans(a: Seq<char>, b: Seq<char>, c: Seq<char>, build: bool)
    requires
        ident_lt(a, b, build),
        ident_lt(b, c, build),
    ensures
        ident_lt(a, c, build),
{
    if chars_lt(a, b) && chars_lt(b, c) {
        lemma_chars_lt_trans(a, b, c);
    }
    if chars_lt(trim_zeros(a), trim_zeros(b)) && chars_lt(trim_zeros(b), trim_zeros(c)) {
        lemma_chars_lt_trans(trim_zeros(a), trim_zeros(b), trim_zeros(c));
    }
}

/// The index of the first `'.'` in `s`, or `s.len()` when there is none.
pub open spec fn dot_pos(s: Seq<char>) -> int
    decreases s.len(),
{
    if s.len() == 0 {
        0
    } else if s[0] == '.' {
        0
    } else {
        1 + dot_pos(s.drop_first())
    }
}

/// `dot_pos` lies in range, everything before it differs from `'.'`, and
/// when in range it indexes a `'.'`.
pub proof fn lemma_dot_pos(s: Seq<char>)
    ensures
        0 <= dot_pos(s) <= s.len(),
        forall|j: int| 0 <= j < dot_pos(s) ==> s[j] != '.',
        dot_pos(s) < s.len() ==> s[dot_pos(s)] == '.',
    decreases s.len(),
{
    if s.len() == 0 {
    } else if s[0] == '.' {
    } else {
        lemma_dot_pos(s.drop_first());
        assert forall|j: int| 0 <= j < dot_pos(s) implies s[j] != '.' by {
            if j >= 1 {
                assert(s.drop_first()[j - 1] == s[j]);
            }
        }
        if dot_pos(s) < s.len() {
            assert(s.drop_first()[dot_pos(s) - 1] == s[dot_pos(s)]);
        }
    }
}

/// A position that indexes a `'.'` with none before it is `dot_pos`.
pub proof fn lemma_dot_pos_unique(s: Seq<char>, i: int)
    requires
        0 <= i <= s.len(),
        i < s.len() ==> s[i] == '.',
        forall|j: int| 0 <= j < i ==> s[j] != '.',
        i == s.len() ==> forall|j: int| 0 <= j < s.len() ==> s[j] != '.',
    ensures
        dot_pos(s) == i,
{
    lemma_dot_pos(s);
}

/// `s` split on `'.'`: the identifiers in order. The empty sequence
/// splits into one empty identifier.
pub open spec fn split_dots(s: Seq<char>) -> Seq<Seq<char>>
    decreases s.len(),
{
    let p = dot_pos(s);
    if 0 <= p < s.len() {
        seq![s.take(p)] + split_dots(s.skip(p + 1))
    } else {
        seq![s]
    }
}

/// A split holds at least one identifier, and a string with a dot is its
/// first identifier, the dot, and the split remainder.
pub proof fn lemma_split_shape(s: Seq<char>)
    ensures
        split_dots(s).len() >= 1,
        dot_pos(s) < s.len() ==> s == s.take(dot_pos(s)) + seq!['.'] + s.skip(dot_pos(s) + 1),
{
    lemma_dot_pos(s);
    if dot_pos(s) < s.len() {
        assert(s =~= s.take(dot_pos(s)) + seq!['.'] + s.skip(dot_pos(s) + 1));
    }
}

/// Splitting is injective: equal splits come from equal strings.
pub proof fn lemma_split_injective(a: Seq<char>, b: Seq<char>)
    requires
        split_dots(a) == split_dots(b),
    ensures
        a == b,
    decreases a.len(),
{
    lemma_dot_pos(a);
    lemma_dot_pos(b);
    lemma_split_shape(a);
    lemma_split_shape(b);
    let pa = dot_pos(a);
    let pb = dot_pos(b);
    if pa < a.len() && pb < b.len() {
        lemma_split_shape(a.skip(pa + 1));
        lemma_split_shape(b.skip(pb + 1));
        assert(split_dots(a)[0] == a.take(pa));
        assert(split_dots(b)[0] == b.take(pb));
        assert(a.take(pa) == b.take(pb));
        assert(pa == pb);
        assert(split_dots(a).drop_first() =~= split_dots(a.skip(pa + 1)));
        assert(split_dots(b).drop_first() =~= split_dots(b.skip(pb + 1)));
        lemma_split_injective(a.skip(pa + 1), b.skip(pb + 1));
    } else if pa < a.len() {
        lemma_split_shape(a.skip(pa + 1));
        assert(split_dots(a).len() >= 2);
        assert(false);
    } else if pb < b.len() {
        lemma_split_shape(b.skip(pb + 1));
        assert(split_dots(b).len() >= 2);
        assert(false);
    } else {
        assert(split_dots(a)[0] == a);
        assert(split_dots(b)[0] == b);
    }
}

/// Strict order on identifier lists: compare identifier by identifier;
/// when all shared positions agree, the shorter list sorts first.
pub open spec fn ident_list_lt(x: Seq<Seq<char>>, y: Seq<Seq<char>>, build: bool) -> bool
    decreases x.len(),
{
    if x.len() == 0 {
        y.len() > 0
    } else if y.len() == 0 {
        false
    } else if x[0] == y[0] {
        ident_list_lt(x.drop_first(), y.drop_first(), build)
    } else {
        ident_lt(x[0], y[0], build)
    }
}

/// Distinct identifier lists are ordered one way or the other, never both.
pub proof fn lemma_ident_list_trichotomy(x: Seq<Seq<char>>, y: Seq<Seq<char>>, build: bool)
    ensures
        x != y ==> ident_list_lt(x, y, build) || ident_list_lt(y, x, build),
        ident_list_lt(x, y, build) ==> x != y && !ident_list_lt(y, x, build),
    decreases x.len(),
{
    if x.len() == 0 {
        if y.len() == 0 {
            assert(x =~= y);
        }
    } else if y.len() == 0 {
    } else if x[0] == y[0] {
        lemma_ident_list_trichotomy(x.drop_first(), y.drop_first(), build);
        if x.drop_first() == y.drop_first() {
            assert forall|k: int| 0 <= k < x.len() implies x[k] == y[k] by {
                if k >= 1 {
                    assert(x[k] == x.drop_first()[k - 1]);
                    assert(y[k] == y.drop_first()[k - 1]);
                }
            }
            assert(x =~= y);
        }
        if x == y {
            assert(x.drop_first() =~= y.drop_first());
        }
    } else {
        lemma_ident_lt_trichotomy(x[0], y[0], build);
    }
}

/// The identifier-list order is transitive.
pub proof fn lemma_ident_list_trans(
    x: Seq<Seq<char>>,
    y: Seq<Seq<char>>,
    z: Seq<Seq<char>>,
    build: bool,
)
    requires
        ident_list_lt(x, y, build),
        ident_list_lt(y, z, build),
    ensures
        ident_list_lt(x, z, build),
    decreases x.len(),
{
    if x.len() == 0 {
    } else if z.len() == 0 {
    } else if y.len() == 0 {
    } else {
        lemma_ident_lt_trichotomy(x[0], y[0], build);
        lemma_ident_lt_trichotomy(y[0], z[0], build);
        if x[0] == y[0] && y[0] == z[0] {
            lemma_ident_list_trans(x.drop_first(), y.drop_first(), z.drop_first(), build);
        } else if x[0] != y[0] && y[0] != z[0] {
            lemma_ident_lt_trans(x[0], y[0], z[0], build);
        }
    }
}

/// If `x` and `y` agree on their first `i` identifiers and either `x` ends
/// there while `y` goes on, or the identifiers at `i` differ and order `x`
/// below `y`, then `x` sorts strictly below `y`.
pub proof fn lemma_ident_list_lt_at(x: Seq<Seq<char>>, y: Seq<Seq<char>>, i: int, build: bool)
    requires
        0 <= i <= x.len(),
        i <= y.len(),
        forall|j: int| 0 <= j < i ==> x[j] == y[j],
        (i == x.len() && i < y.len()) || (i < x.len() && i < y.len() && x[i] != y[i] && ident_lt(
            x[i],
            y[i],
            build,
        )),
    ensures
        ident_list_lt(x, y, build),
    decreases i,
{
    if i == 0 {
    } else {
        assert(x[0] == y[0]);
        let x1 = x.drop_first();
        let y1 = y.drop_first();
        assert(forall|j: int| 0 <= j < i - 1 ==> x1[j] == y1[j]);
        if i < x.len() {
            assert(x1[i - 1] == x[i]);
            assert(y1[i - 1] == y[i]);
        }
        lemma_ident_list_lt_at(x1, y1, i - 1, build);
    }
}

/// Identifier lists that agree on their first `i` entries and both end
/// there are equal.
pub proof fn lemma_ident_list_eq_at(x: Seq<Seq<char>>, y: Seq<Seq<char>>, i: int)
    requires
        0 <= i,
        i == x.len(),
        i == y.len(),
        forall|j: int| 0 <= j < i ==> x[j] == y[j],
    ensures
        x == y,
{
    assert(x =~= y);
}

/// Scan forward from `from` to the next `'.'`, or to the end.
fn scan_dot(s: &str, from: usize) -> (r: usize)
    requires
        from <= s@.len(),
    ensures
        from <= r <= s@.len(),
        forall|j: int| from <= j < r ==> s@[j] != '.',
        r < s@.len() ==> s@[r as int] == '.',
{
    let len = s.unicode_len();
    let mut i: usize = from;
    while i < len
        invariant
            len == s@.len(),
            from <= i <= len,
            forall|j: int| from <= j < i ==> s@[j] != '.',
        decreases len - i,
    {
        if s.get_char(i) == '.' {
            return i;
        }
        i = i + 1;
    }
    i
}

/// Whether every character of `s` is a decimal digit.
fn is_numeric(s: &str) -> (r: bool)
    ensures
        r == is_num_ident(s@),
{
    let len = s.unicode_len();
    let mut i: usize = 0;
    while i < len
        invariant
            len == s@.len(),
            i <= len,
            forall|j: int| 0 <= j < i ==> '0' <= #[trigger] s@[j] && s@[j] <= '9',
        decreases len - i,
    {
        let c = s.get_char(i);
        if (c as u32) < ('0' as u32) || (c as u32) > ('9' as u32) {
            return false;
        }
        i = i + 1;
    }
    true
}

/// The index of the first character of `s` that is not a `'0'`, or the
/// length.
fn scan_zeros(s: &str) -> (r: usize)
    ensures
        r <= s@.len(),
        forall|j: int| 0 <= j < r ==> s@[j] == '0',
        r < s@.len() ==> s@[r as int] != '0',
{
    let len = s.unicode_len();
    let mut i: usize = 0;
    while i < len
        invariant
            len == s@.len(),
            i <= len,
            forall|j: int| 0 <= j < i ==> s@[j] == '0',
        decreases len - i,
    {
        if s.get_char(i) != '0' {
            return i;
        }
        i = i + 1;
    }
    i
}

/// Compare two identifiers under the order that `ident_lt` describes.
fn ident_cmp(a: &str, b: &str, build: bool) -> (c: Cmp)
    ensures
        c is Lt <==> ident_lt(a@, b@, build),
        c is Eq <==> a@ == b@,
        c is Gt <==> ident_lt(b@, a@, build),
{
    proof {
        lemma_ident_lt_trichotomy(a@, b@, build);
    }
    let an = is_numeric(a);
    let bn = is_numeric(b);
    let alen = a.unicode_len();
    let blen = b.unicode_len();
    if an && bn {
        if build {
            let za = scan_zeros(a);
            let zb = scan_zeros(b);
            proof {
                lemma_trim_at(a@, za as int);
                lemma_trim_at(b@, zb as int);
            }
            let ta = a.substring_char(za, alen);
            let tb = b.substring_char(zb, blen);
            if alen - za < blen - zb {
                return Cmp::Lt;
            }
            if blen - zb < alen - za {
                return Cmp::Gt;
            }
            match str_cmp(ta, tb) {
                Cmp::Lt => {
                    return Cmp::Lt;
                },
                Cmp::Gt => {
                    return Cmp::Gt;
                },
                Cmp::Eq => {
                },
            }
            if alen < blen {
                return Cmp::Lt;
            }
            if blen < alen {
                return Cmp::Gt;
            }
            proof {
                lemma_trim_eq(a@, b@);
            }
            Cmp::Eq
        } else {
            if alen < blen {
                return Cmp::Lt;
            }
            if blen < alen {
                return Cmp::Gt;
            }
            str_cmp(a, b)
        }
    } else if an {
        Cmp::Lt
    } else if bn {
        Cmp::Gt
    } else {
        str_cmp(a, b)
    }
}

/// The identifier views of a split.
pub open spec fn idents_view(v: Seq<String>) -> Seq<Seq<char>> {
    v.map_values(|t: String| t@)
}

/// Split a string into its dot-separated identifiers.
fn split_idents(s: &str) -> (r: Vec<String>)
    ensures
        idents_view(r@) == split_dots(s@),
    decreases s@.len(),
{
    let len = s.unicode_len();
    let p = scan_dot(s, 0);
    proof {
        lemma_dot_pos_unique(s@, p as int);
    }
    if p == len {
        let mut v: Vec<String> = Vec::new();
        v.push(s.to_owned());
        proof {
            assert(idents_view(v@) =~= seq![s@]);
        }
        v
    } else {
        let head = s.substring_char(0, p).to_owned();
        let rest = s.substring_char(p + 1, len);
        let mut tail = split_idents(rest);
        let ghost tail0 = tail@;
        proof {
            tail@.insert_ensures(0, head);
        }
        tail.insert(0, head);
        proof {
            assert(rest@ == s@.skip(p as int + 1));
            assert forall|k: int| 0 <= k < tail@.len() implies idents_view(tail@)[k] == (seq![
                s@.take(p as int),
            ] + split_dots(s@.skip(p as int + 1)))[k] by {
                if k == 0 {
                    assert(tail@[0] == head);
                } else {
                    assert(tail@[k] == tail0[k - 1]);
                    assert(idents_view(tail0)[k - 1] == tail0[k - 1]@);
                }
            }
            assert(idents_view(tail@) =~= seq![s@.take(p as int)] + split_dots(
                s@.skip(p as int + 1),
            ));
        }
        tail
    }
}

/// Compare two identifier lists under the order that `ident_list_lt`
/// describes.
fn ident_list_cmp(xs: &Vec<String>, ys: &Vec<String>, build: bool) -> (c: Cmp)
    ensures
        c is Lt <==> ident_list_lt(idents_view(xs@), idents_view(ys@), build),
        c is Eq <==> idents_view(xs@) == idents_view(ys@),
        c is Gt <==> ident_list_lt(idents_view(ys@), idents_view(xs@), build),
{
    let ghost xv = idents_view(xs@);
    let ghost yv = idents_view(ys@);
    proof {
        lemma_ident_list_trichotomy(xv, yv, build);
    }
    let xn = xs.len();
    let yn = ys.len();
    let mut i: usize = 0;
    loop
        invariant
            xv == idents_view(xs@),
            yv == idents_view(ys@),
            xn == xv.len(),
            yn == yv.len(),
            i <= xn,
            i <= yn,
            forall|j: int| 0 <= j < i ==> xv[j] == yv[j],
            ident_list_lt(xv, yv, build) ==> xv != yv && !ident_list_lt(yv, xv, build),
            xv != yv ==> ident_list_lt(xv, yv, build) || ident_list_lt(yv, xv, build),
        decreases xn - i,
    {
        if i == xn {
            if i == yn {
                proof {
                    lemma_ident_list_eq_at(xv, yv, i as int);
                }
                return Cmp::Eq;
            } else {
                proof {
                    lemma_ident_list_lt_at(xv, yv, i as int, build);
                }
                return Cmp::Lt;
            }
        }
        if i == yn {
            proof {
                lemma_ident_list_lt_at(yv, xv, i as int, build);
            }
            return Cmp::Gt;
        }
        let c = ident_cmp(xs[i].as_str(), ys[i].as_str(), build);
        proof {
            assert(xv[i as int] == xs@[i as int]@);
            assert(yv[i as int] == ys@[i as int]@);
        }
        match c {
            Cmp::Lt => {
                proof {
                    lemma_ident_list_lt_at(xv, yv, i as int, build);
                }
                return Cmp::Lt;
            },
            Cmp::Gt => {
                proof {
                    lemma_ident_list_lt_at(yv, xv, i as int, build);
                }
                return Cmp::Gt;
            },
            Cmp::Eq => {
            },
        }
        i = i + 1;
    }
}

/// Compare two identifier strings (a whole pre-release or build-metadata
/// suffix) under the identifier-list order of their splits.
pub fn idents_cmp(a: &str, b: &str, build: bool) -> (c: Cmp)
    ensures
        c is Lt <==> ident_list_lt(split_dots(a@), split_dots(b@), build),
        c is Eq <==> a@ == b@,
        c is Gt <==> ident_list_lt(split_dots(b@), split_dots(a@), build),
{
    let xs = split_idents(a);
    let ys = split_idents(b);
    let c = ident_list_cmp(&xs, &ys, build);
    proof {
        if idents_view(xs@) == idents_view(ys@) {
            lemma_split_injective(a@, b@);
        }
        if a@ == b@ {
            assert(split_dots(a@) == split_dots(b@));
        }
    }
    c
}

} // verus!

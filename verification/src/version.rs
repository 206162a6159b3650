//! Ordering of mod versions: `major.minor.patch`, each part compared as text.

use vstd::prelude::*;
use crate::text::{
    Order, chars_of, compare_chars, lemma_text_lt_asymmetric,
    lemma_text_lt_total, lemma_text_lt_transitive, text_lt, views,
};

verus! {

broadcast use vstd::seq_lib::group_to_multiset_ensures;

/// `i` is the position of the first `c` in `s`.
pub open spec fn is_first_sep(s: Seq<char>, i: int, c: char) -> bool {
    &&& 0 <= i < s.len()
    &&& s[i] == c
    &&& forall|j: int| 0 <= j < i ==> s[j] != c
}

/// The text before the first `c` (all of `s` when there is none).
pub open spec fn head_piece(s: Seq<char>, c: char) -> Seq<char> {
    if exists|i: int| #[trigger] is_first_sep(s, i, c) {
        s.take(choose|i: int| #[trigger] is_first_sep(s, i, c))
    } else {
        s
    }
}

/// The text after the first `c`, if there is one.
pub open spec fn rest_piece(s: Seq<char>, c: char) -> Option<Seq<char>> {
    if exists|i: int| #[trigger] is_first_sep(s, i, c) {
        Some(s.skip((choose|i: int| #[trigger] is_first_sep(s, i, c)) + 1))
    } else {
        None
    }
}

/// The three parts a version is ordered by: the first three `.`-separated
/// pieces, a missing piece counting as empty text; further pieces are ignored.
pub open spec fn version_key(v: Seq<char>) -> Seq<Seq<char>> {
    let p0 = head_piece(v, '.');
    match rest_piece(v, '.') {
        None => seq![p0, Seq::empty(), Seq::empty()],
        Some(r) => {
            let p1 = head_piece(r, '.');
            match rest_piece(r, '.') {
                None => seq![p0, p1, Seq::empty()],
                Some(r2) => seq![p0, p1, head_piece(r2, '.')],
            }
        },
    }
}

/// Lexicographic order on sequences of texts.
pub open spec fn key_lt(a: Seq<Seq<char>>, b: Seq<Seq<char>>) -> bool
    decreases a.len(),
{
    if a.len() == 0 {
        b.len() > 0
    } else if b.len() == 0 {
        false
    } else if a[0] != b[0] {
        text_lt(a[0], b[0])
    } else {
        key_lt(a.drop_first(), b.drop_first())
    }
}

/// Version `a` orders strictly below version `b`.
pub open spec fn version_lt(a: Seq<char>, b: Seq<char>) -> bool {
    key_lt(version_key(a), version_key(b))
}

/// Newest first: no version is below one that comes after it.
pub open spec fn newest_first(s: Seq<Seq<char>>) -> bool {
    forall|i: int, j: int| 0 <= i < j < s.len() ==> !version_lt(s[i], s[j])
}

pub proof fn lemma_key_lt_irreflexive(a: Seq<Seq<char>>)
    ensures
        !key_lt(a, a),
    decreases a.len(),
{
    if a.len() > 0 {
        lemma_key_lt_irreflexive(a.drop_first());
    }
}

pub proof fn lemma_key_lt_transitive(a: Seq<Seq<char>>, b: Seq<Seq<char>>, c: Seq<Seq<char>>)
    requires
        key_lt(a, b),
        key_lt(b, c),
    ensures
        key_lt(a, c),
    decreases a.len(),
{
    if a.len() > 0 && b.len() > 0 && c.len() > 0 {
        if a[0] == b[0] && b[0] == c[0] {
            lemma_key_lt_transitive(a.drop_first(), b.drop_first(), c.drop_first());
        } else if a[0] == b[0] {
        } else if b[0] == c[0] {
        } else {
            lemma_text_lt_transitive(a[0], b[0], c[0]);
            if a[0] == c[0] {
                lemma_text_lt_asymmetric(a[0], b[0]);
            }
        }
    }
}

pub proof fn lemma_key_lt_total(a: Seq<Seq<char>>, b: Seq<Seq<char>>)
    ensures
        a == b || key_lt(a, b) || key_lt(b, a),
    decreases a.len(),
{
    if a.len() > 0 && b.len() > 0 && a[0] == b[0] {
        lemma_key_lt_total(a.drop_first(), b.drop_first());
        if a.drop_first() == b.drop_first() {
            assert(a =~= seq![a[0]] + a.drop_first());
            assert(b =~= seq![b[0]] + b.drop_first());
        }
    } else if a.len() == 0 && b.len() == 0 {
        assert(a =~= b);
    } else if a.len() > 0 && b.len() > 0 {
        lemma_text_lt_total(a[0], b[0]);
    }
}

/// The version order is a strict order: irreflexive ...
pub proof fn lemma_version_lt_irreflexive(a: Seq<char>)
    ensures
        !version_lt(a, a),
{
    lemma_key_lt_irreflexive(version_key(a));
}

/// ... and transitive.
pub proof fn lemma_version_lt_transitive(a: Seq<char>, b: Seq<char>, c: Seq<char>)
    requires
        version_lt(a, b),
        version_lt(b, c),
    ensures
        version_lt(a, c),
{
    lemma_key_lt_transitive(version_key(a), version_key(b), version_key(c));
}

/// Position of the first `c` at or after `lo`, if any.
pub(crate) fn find_from(v: &Vec<char>, lo: usize, c: char) -> (r: Option<usize>)
    requires
        lo <= v.len(),
    ensures
        match r {
            Some(i) => lo <= i < v.len() && v@[i as int] == c && forall|j: int|
                lo <= j < i ==> v@[j] != c,
            None => forall|j: int| lo <= j < v.len() ==> v@[j] != c,
        },
{
    let mut i = lo;
    while i < v.len()
        invariant
            lo <= i <= v.len(),
            forall|j: int| lo <= j < i ==> v@[j] != c,
        decreases v.len() - i,
    {
        if v[i] == c {
            return Some(i);
        }
        i = i + 1;
    }
    None
}

pub(crate) proof fn lemma_pieces(s: Seq<char>, lo: int, r: Option<usize>, c: char)
    requires
        0 <= lo <= s.len(),
        match r {
            Some(i) => lo <= i < s.len() && s[i as int] == c && forall|j: int|
                lo <= j < i ==> s[j] != c,
            None => forall|j: int| lo <= j < s.len() ==> s[j] != c,
        },
    ensures
        match r {
            Some(i) => head_piece(s.skip(lo), c) == s.subrange(lo, i as int) && rest_piece(
                s.skip(lo),
                c,
            ) == Some(s.skip(i + 1)),
            None => head_piece(s.skip(lo), c) == s.skip(lo) && rest_piece(s.skip(lo), c)
                is None,
        },
{
    let t = s.skip(lo);
    match r {
        Some(i) => {
            let k = i - lo;
            assert(is_first_sep(t, k, c));
            let k2 = choose|k2: int| #[trigger] is_first_sep(t, k2, c);
            assert(k2 == k) by {
                if k2 < k {
                    assert(t[k2] == s[lo + k2]);
                }
                if k < k2 {
                    assert(t[k] == c);
                }
            }
            assert(t.take(k) =~= s.subrange(lo, i as int));
            assert(t.skip(k + 1) =~= s.skip(i + 1));
        },
        None => {
            assert forall|k: int| !is_first_sep(t, k, c) by {
                if 0 <= k < t.len() {
                    assert(t[k] == s[lo + k]);
                }
            }
        },
    }
}

/// The three ordering parts of a version, as in `version_key`.
pub fn version_parts(v: &str) -> (parts: Vec<Vec<char>>)
    ensures
        parts.len() == 3,
        forall|k: int| 0 <= k < 3 ==> #[trigger] parts@[k]@ == version_key(v@)[k],
{
    let s = chars_of(v);
    let n = s.len();
    let ghost g = s@;
    assert(g.skip(0) =~= g);
    let r0 = find_from(&s, 0, '.');
    proof {
        lemma_pieces(g, 0, r0, '.');
    }
    let mut parts: Vec<Vec<char>> = Vec::new();
    match r0 {
        None => {
            parts.push(s);
            parts.push(Vec::new());
            parts.push(Vec::new());
        },
        Some(i0) => {
            let p0 = slice_chars(&s, 0, i0);
            let r1 = find_from(&s, i0 + 1, '.');
            proof {
                lemma_pieces(g, i0 + 1, r1, '.');
            }
            match r1 {
                None => {
                    let p1 = slice_chars(&s, i0 + 1, n);
                    assert(p1@ =~= g.skip(i0 + 1));
                    parts.push(p0);
                    parts.push(p1);
                    parts.push(Vec::new());
                },
                Some(i1) => {
                    let p1 = slice_chars(&s, i0 + 1, i1);
                    let r2 = find_from(&s, i1 + 1, '.');
                    proof {
                        lemma_pieces(g, i1 + 1, r2, '.');
                    }
                    let p2 = match r2 {
                        None => slice_chars(&s, i1 + 1, n),
                        Some(i2) => slice_chars(&s, i1 + 1, i2),
                    };
                    assert(g.skip(i1 + 1) =~= g.subrange(i1 + 1, n as int));
                    parts.push(p0);
                    parts.push(p1);
                    parts.push(p2);
                },
            }
        },
    }
    assert(parts@[0]@ == version_key(v@)[0]);
    assert(parts@[1]@ == version_key(v@)[1]);
    assert(parts@[2]@ == version_key(v@)[2]);
    parts
}

/// `v[lo..hi]` as a new vector.
fn slice_chars(v: &Vec<char>, lo: usize, hi: usize) -> (r: Vec<char>)
    requires
        lo <= hi <= v.len(),
    ensures
        r@ == v@.subrange(lo as int, hi as int),
{
    let mut r: Vec<char> = Vec::new();
    let mut i = lo;
    while i < hi
        invariant
            lo <= i <= hi <= v.len(),
            r@ == v@.subrange(lo as int, i as int),
        decreases hi - i,
    {
        r.push(v[i]);
        i = i + 1;
        assert(r@ =~= v@.subrange(lo as int, i as int));
    }
    r
}

/// Orders two versions by their three parts, as the version list is sorted.
pub fn compare_versions(a: &str, b: &str) -> (r: Order)
    ensures
        r == Order::Less <==> version_lt(a@, b@),
        r == Order::Greater <==> version_lt(b@, a@),
        r == Order::Equal <==> version_key(a@) == version_key(b@),
{
    let pa = version_parts(a);
    let pb = version_parts(b);
    let ghost ka = version_key(a@);
    let ghost kb = version_key(b@);
    assert(ka.len() == 3 && kb.len() == 3);
    assert(ka.drop_first().drop_first().drop_first().len() == 0);
    assert(kb.drop_first().drop_first().drop_first().len() == 0);
    proof {
        lemma_key_lt_irreflexive(ka);
        lemma_key_lt_total(ka, kb);
    }
    assert(ka.skip(0) =~= ka);
    assert(kb.skip(0) =~= kb);
    let mut k: usize = 0;
    while k < 3
        invariant
            pa.len() == 3,
            pb.len() == 3,
            forall|j: int| 0 <= j < 3 ==> #[trigger] pa@[j]@ == ka[j],
            forall|j: int| 0 <= j < 3 ==> #[trigger] pb@[j]@ == kb[j],
            ka == version_key(a@),
            kb == version_key(b@),
            ka.len() == 3,
            kb.len() == 3,
            k <= 3,
            ka.take(k as int) == kb.take(k as int),
            key_lt(ka, kb) == key_lt(ka.skip(k as int), kb.skip(k as int)),
            key_lt(kb, ka) == key_lt(kb.skip(k as int), ka.skip(k as int)),
        decreases 3 - k,
    {
        let o = compare_chars(&pa[k], &pb[k]);
        assert(pa@[k as int]@ == ka[k as int]);
        assert(pb@[k as int]@ == kb[k as int]);
        let ghost sa = ka.skip(k as int);
        let ghost sb = kb.skip(k as int);
        assert(sa[0] == ka[k as int]);
        assert(sb[0] == kb[k as int]);
        assert(sa.drop_first() =~= ka.skip(k + 1));
        assert(sb.drop_first() =~= kb.skip(k + 1));
        match o {
            Order::Less => {
                proof {
                    lemma_text_lt_asymmetric(ka[k as int], kb[k as int]);
                    assert(key_lt(sa, sb) == text_lt(sa[0], sb[0]));
                    assert(key_lt(sb, sa) == text_lt(sb[0], sa[0]));
                    assert(ka != kb) by {
                        assert(ka[k as int] != kb[k as int]);
                    }
                }
                return Order::Less;
            },
            Order::Greater => {
                proof {
                    lemma_text_lt_total(ka[k as int], kb[k as int]);
                    lemma_text_lt_asymmetric(kb[k as int], ka[k as int]);
                    assert(key_lt(sa, sb) == text_lt(sa[0], sb[0]));
                    assert(key_lt(sb, sa) == text_lt(sb[0], sa[0]));
                    assert(ka != kb) by {
                        assert(ka[k as int] != kb[k as int]);
                    }
                }
                return Order::Greater;
            },
            Order::Equal => {
                assert(key_lt(sa, sb) == key_lt(sa.drop_first(), sb.drop_first()));
                assert(key_lt(sb, sa) == key_lt(sb.drop_first(), sa.drop_first()));
            },
        }
        k = k + 1;
        assert(ka.take(k as int) =~= ka.take(k - 1).push(ka[k - 1]));
        assert(kb.take(k as int) =~= kb.take(k - 1).push(kb[k - 1]));
    }
    assert(ka =~= ka.take(3));
    assert(kb =~= kb.take(3));
    Order::Equal
}

/// Transitivity of "not below" for versions.
pub proof fn lemma_version_le_transitive(a: Seq<char>, b: Seq<char>, c: Seq<char>)
    requires
        !version_lt(b, a),
        !version_lt(c, b),
    ensures
        !version_lt(c, a),
{
    let (ka, kb, kc) = (version_key(a), version_key(b), version_key(c));
    if key_lt(kc, ka) {
        lemma_key_lt_total(ka, kb);
        lemma_key_lt_total(kb, kc);
        if ka == kb {
        } else if kb == kc {
        } else {
            lemma_key_lt_transitive(ka, kb, kc);
            lemma_key_lt_transitive(ka, kc, ka);
            lemma_key_lt_irreflexive(ka);
        }
    }
}

/// The versions whose ordering parts are `k`.
pub open spec fn key_is(k: Seq<Seq<char>>) -> spec_fn(Seq<char>) -> bool {
    |v: Seq<char>| version_key(v) == k
}

proof fn lemma_filter_none<A>(s: Seq<A>, p: spec_fn(A) -> bool)
    requires
        forall|i: int| 0 <= i < s.len() ==> !p(#[trigger] s[i]),
    ensures
        s.filter(p) == Seq::<A>::empty(),
{
    broadcast use vstd::seq_lib::group_filter_ensures;

    if s.filter(p).len() > 0 {
        let y = s.filter(p)[0];
        assert(p(y));
        assert(s.filter(p).contains(y));
        s.lemma_filter_contains_rev(p, y);
    }
    assert(s.filter(p) =~= Seq::<A>::empty());
}

proof fn lemma_filter_insert_front_of_ties(
    old: Seq<Seq<char>>,
    p: int,
    x: Seq<char>,
    k: Seq<Seq<char>>,
)
    requires
        0 <= p <= old.len(),
        forall|q: int| 0 <= q < p ==> version_lt(x, #[trigger] old[q]),
    ensures
        old.insert(p, x).filter(key_is(k)) == if version_key(x) == k {
            seq![x] + old.filter(key_is(k))
        } else {
            old.filter(key_is(k))
        },
{
    let f = key_is(k);
    let a = old.take(p);
    let b = old.skip(p);
    assert(old =~= a + b);
    assert(old.insert(p, x) =~= a + (seq![x] + b));
    Seq::filter_distributes_over_add(a, b, f);
    Seq::filter_distributes_over_add(a, seq![x] + b, f);
    Seq::filter_distributes_over_add(seq![x], b, f);
    assert(seq![x] =~= Seq::<Seq<char>>::empty().push(x));
    Seq::<Seq<char>>::empty().lemma_filter_push(x, f);
    lemma_filter_none(Seq::<Seq<char>>::empty(), f);
    if version_key(x) == k {
        assert forall|q: int| 0 <= q < a.len() implies !f(#[trigger] a[q]) by {
            assert(a[q] == old[q]);
            assert(version_lt(x, old[q]));
            lemma_key_lt_irreflexive(k);
        }
        lemma_filter_none(a, f);
        assert(Seq::<Seq<char>>::empty() + (seq![x] + b.filter(f)) =~= seq![x] + (Seq::<Seq<char>>::empty() + b.filter(f)));
    } else {
        assert(a.filter(f) + (Seq::<Seq<char>>::empty() + b.filter(f)) =~= a.filter(f) + b.filter(f));
    }
}

/// Sorts versions newest first, as the mod index lists them: the versions
/// are sorted oldest first (keeping the order of versions with equal parts)
/// and the result is reversed, so versions with equal parts come in reverse.
pub fn sort_versions_newest_first(v: &Vec<String>) -> (r: Vec<String>)
    ensures
        views(r@).to_multiset() == views(v@).to_multiset(),
        newest_first(views(r@)),
        forall|k: Seq<Seq<char>>|
            #[trigger] views(r@).filter(key_is(k)) == views(v@).filter(key_is(k)).reverse(),
{
    let mut res: Vec<String> = Vec::new();
    let mut i: usize = 0;
    while i < v.len()
        invariant
            i <= v.len(),
            views(res@).to_multiset() == views(v@.take(i as int)).to_multiset(),
            newest_first(views(res@)),
            forall|k: Seq<Seq<char>>|
                #[trigger] views(res@).filter(key_is(k)) == views(v@.take(i as int)).filter(
                    key_is(k),
                ).reverse(),
        decreases v.len() - i,
    {
        let x = v[i].clone();
        let mut p: usize = 0;
        while p < res.len() && compare_versions(&res[p], &x) == Order::Greater
            invariant
                p <= res.len(),
                x@ == v@[i as int]@,
                forall|q: int| 0 <= q < p ==> version_lt(x@, #[trigger] res@[q]@),
            decreases res.len() - p,
        {
            p = p + 1;
        }
        let ghost old_res = views(res@);
        proof {
            assert forall|q: int| 0 <= q < p implies version_lt(x@, #[trigger] old_res[q]) by {
                assert(old_res[q] == res@[q]@);
            }
            if p < res.len() {
                assert(!version_lt(x@, old_res[p as int]));
            }
        }
        res.insert(p, x);
        proof {
            let nv = views(res@);
            assert(nv =~= old_res.insert(p as int, x@));
            assert(newest_first(nv)) by {
                assert forall|a: int, b: int| 0 <= a < b < nv.len() implies !version_lt(
                    nv[a],
                    nv[b],
                ) by {
                    if b < p {
                    } else if a < p && b == p {
                        assert(version_lt(x@, old_res[a]));
                        if version_lt(old_res[a], x@) {
                            lemma_version_lt_transitive(x@, old_res[a], x@);
                            lemma_version_lt_irreflexive(x@);
                        }
                    } else if a < p {
                        assert(nv[b] == old_res[b - 1]);
                    } else if a == p {
                        assert(nv[b] == old_res[b - 1]);
                        assert(!version_lt(x@, old_res[p as int]));
                        if b - 1 > p {
                            assert(!version_lt(old_res[p as int], old_res[b - 1]));
                        } else {
                            lemma_version_lt_irreflexive(old_res[p as int]);
                        }
                        lemma_version_le_transitive(old_res[b - 1], old_res[p as int], x@);
                    } else {
                        assert(nv[a] == old_res[a - 1]);
                        assert(nv[b] == old_res[b - 1]);
                    }
                }
            }
            let taken = views(v@.take(i as int));
            assert(views(v@.take(i + 1)) =~= taken.push(x@));
            assert forall|k: Seq<Seq<char>>|
                #[trigger] nv.filter(key_is(k)) == views(v@.take(i + 1)).filter(key_is(k)).reverse() by {
                lemma_filter_insert_front_of_ties(old_res, p as int, x@, k);
                taken.lemma_filter_push(x@, key_is(k));
                if version_key(x@) == k {
                    assert(taken.filter(key_is(k)).push(x@).reverse() =~= seq![x@] + taken.filter(key_is(k)).reverse());
                }
            }
        }
        i = i + 1;
    }
    assert(v@.take(v.len() as int) =~= v@);
    res
}

} // verus!

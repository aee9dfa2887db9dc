//! Byte strings in lexicographic order, and sets of them kept as strictly
//! sorted vectors. Spend sets and register operation sets are both held this
//! way, so that their contents never depend on the order of arrival.
use vstd::prelude::*;

verus! {

/// Strict lexicographic order on byte strings; a proper prefix comes first.
pub open spec fn lex_lt(a: Seq<u8>, b: Seq<u8>) -> bool
    decreases a.len(),
{
    if a.len() == 0 {
        b.len() > 0
    } else if b.len() == 0 {
        false
    } else if a[0] != b[0] {
        a[0] < b[0]
    } else {
        lex_lt(a.drop_first(), b.drop_first())
    }
}

/// The contents of a vector of byte strings, each as a sequence.
pub open spec fn views(v: Seq<Vec<u8>>) -> Seq<Seq<u8>> {
    v.map_values(|e: Vec<u8>| e@)
}

/// Every element is smaller than every later one.
pub open spec fn strictly_sorted(s: Seq<Seq<u8>>) -> bool {
    forall|i: int, j: int| 0 <= i < j < s.len() ==> #[trigger] lex_lt(s[i], s[j])
}

/// The strictly sorted sequence whose elements are exactly those of `s`.
pub open spec fn is_sorted_listing(q: Seq<Seq<u8>>, s: Set<Seq<u8>>) -> bool {
    strictly_sorted(q) && q.to_set() == s
}

pub proof fn lemma_lex_irreflexive(a: Seq<u8>)
    ensures
        !lex_lt(a, a),
    decreases a.len(),
{
    if a.len() > 0 {
        lemma_lex_irreflexive(a.drop_first());
    }
}

pub proof fn lemma_lex_transitive(a: Seq<u8>, b: Seq<u8>, c: Seq<u8>)
    requires
        lex_lt(a, b),
        lex_lt(b, c),
    ensures
        lex_lt(a, c),
    decreases a.len(),
{
    if a.len() > 0 && b.len() > 0 && c.len() > 0 && a[0] == b[0] && b[0] == c[0] {
        lemma_lex_transitive(a.drop_first(), b.drop_first(), c.drop_first());
    }
}

pub proof fn lemma_lex_total(a: Seq<u8>, b: Seq<u8>)
    ensures
        a == b || lex_lt(a, b) || lex_lt(b, a),
    decreases a.len(),
{
    if a.len() > 0 && b.len() > 0 && a[0] == b[0] {
        lemma_lex_total(a.drop_first(), b.drop_first());
        if a.drop_first() == b.drop_first() {
            assert(a =~= seq![a[0]] + a.drop_first());
            assert(b =~= seq![b[0]] + b.drop_first());
        }
    } else if a.len() == 0 && b.len() == 0 {
        assert(a =~= b);
    }
}

pub proof fn lemma_lex_asymmetric(a: Seq<u8>, b: Seq<u8>)
    requires
        lex_lt(a, b),
    ensures
        !lex_lt(b, a),
{
    if lex_lt(b, a) {
        lemma_lex_transitive(a, b, a);
        lemma_lex_irreflexive(a);
    }
}

/// Two strictly sorted sequences with the same elements are the same sequence.
pub proof fn lemma_sorted_listing_unique(a: Seq<Seq<u8>>, b: Seq<Seq<u8>>)
    requires
        strictly_sorted(a),
        strictly_sorted(b),
        a.to_set() == b.to_set(),
    ensures
        a == b,
    decreases a.len(),
{
    if a.len() == 0 {
        if b.len() > 0 {
            assert(b.to_set().contains(b[0]));
        }
        assert(a =~= b);
    } else {
        assert(a.to_set().contains(a[0]));
        assert(b.contains(a[0]));
        assert(b.len() > 0);
        assert(b.to_set().contains(b[0]));
        assert(a.contains(b[0]));
        if a[0] != b[0] {
            let k = choose|k: int| 0 <= k < b.len() && b[k] == a[0];
            let m = choose|m: int| 0 <= m < a.len() && a[m] == b[0];
            assert(k > 0);
            assert(m > 0);
            assert(lex_lt(b[0], b[k]));
            assert(lex_lt(a[0], a[m]));
            lemma_lex_asymmetric(a[0], b[0]);
        }
        let ra = a.drop_first();
        let rb = b.drop_first();
        assert forall|x: Seq<u8>| ra.to_set().contains(x) <==> rb.to_set().contains(x) by {
            if ra.contains(x) {
                let i = choose|i: int| 0 <= i < ra.len() && ra[i] == x;
                assert(a[i + 1] == x);
                assert(lex_lt(a[0], a[i + 1]));
                lemma_lex_irreflexive(x);
                assert(a.to_set().contains(x));
                assert(b.to_set().contains(x));
                let j = choose|j: int| 0 <= j < b.len() && b[j] == x;
                assert(j != 0);
                assert(rb[j - 1] == x);
            }
            if rb.contains(x) {
                let i = choose|i: int| 0 <= i < rb.len() && rb[i] == x;
                assert(b[i + 1] == x);
                assert(lex_lt(b[0], b[i + 1]));
                lemma_lex_irreflexive(x);
                assert(b.to_set().contains(x));
                assert(a.to_set().contains(x));
                let j = choose|j: int| 0 <= j < a.len() && a[j] == x;
                assert(j != 0);
                assert(ra[j - 1] == x);
            }
        }
        assert(ra.to_set() =~= rb.to_set());
        lemma_sorted_listing_unique(ra, rb);
        assert(a =~= seq![a[0]] + ra);
        assert(b =~= seq![b[0]] + rb);
    }
}

/// Appending an element adds it to the set of elements.
pub proof fn lemma_push_to_set(s: Seq<Seq<u8>>, x: Seq<u8>)
    ensures
        s.push(x).to_set() == s.to_set().insert(x),
{
    let t = s.push(x);
    assert forall|y: Seq<u8>| t.to_set().contains(y) <==> s.to_set().insert(x).contains(y) by {
        if t.contains(y) && y != x {
            let k = choose|k: int| 0 <= k < t.len() && t[k] == y;
            assert(s[k] == y);
        }
        if s.contains(y) {
            let k = choose|k: int| 0 <= k < s.len() && s[k] == y;
            assert(t[k] == y);
        }
        if y == x {
            assert(t[s.len() as int] == y);
        }
    }
    assert(t.to_set() =~= s.to_set().insert(x));
}

/// Compares two byte strings: negative, zero or positive as `a` comes before,
/// equals or comes after `b`.
pub fn compare_bytes(a: &Vec<u8>, b: &Vec<u8>) -> (r: i8)
    ensures
        r < 0 <==> lex_lt(a@, b@),
        r == 0 <==> a@ == b@,
        r > 0 <==> lex_lt(b@, a@),
{
    proof {
        lemma_lex_asymmetric_both(a@, b@);
        lemma_lex_total(a@, b@);
        lemma_lex_irreflexive(a@);
        assert(a@.skip(0) =~= a@);
        assert(b@.skip(0) =~= b@);
        assert(a@.take(0) =~= b@.take(0));
    }
    let mut i: usize = 0;
    while i < a.len() && i < b.len()
        invariant
            i <= a.len(),
            i <= b.len(),
            a@.take(i as int) == b@.take(i as int),
            lex_lt(a@, b@) == lex_lt(a@.skip(i as int), b@.skip(i as int)),
            lex_lt(b@, a@) == lex_lt(b@.skip(i as int), a@.skip(i as int)),
        decreases a.len() - i,
    {
        if a[i] < b[i] {
            return -1;
        }
        if a[i] > b[i] {
            return 1;
        }
        proof {
            assert(a@.skip(i as int).drop_first() =~= a@.skip(i + 1));
            assert(b@.skip(i as int).drop_first() =~= b@.skip(i + 1));
            assert(a@.take(i + 1) =~= a@.take(i as int).push(a@[i as int]));
            assert(b@.take(i + 1) =~= b@.take(i as int).push(b@[i as int]));
        }
        i = i + 1;
    }
    if i < b.len() {
        -1
    } else if i < a.len() {
        1
    } else {
        proof {
            assert(a@ =~= a@.take(i as int));
            assert(b@ =~= b@.take(i as int));
        }
        0
    }
}

proof fn lemma_lex_asymmetric_both(a: Seq<u8>, b: Seq<u8>)
    ensures
        lex_lt(a, b) ==> !lex_lt(b, a),
        lex_lt(b, a) ==> !lex_lt(a, b),
{
    if lex_lt(a, b) {
        lemma_lex_asymmetric(a, b);
    }
    if lex_lt(b, a) {
        lemma_lex_asymmetric(b, a);
    }
}

/// Adds `x` to a sorted set of byte strings; nothing changes if it is there.
pub fn insert_sorted(v: &mut Vec<Vec<u8>>, x: Vec<u8>)
    requires
        strictly_sorted(views(old(v)@)),
    ensures
        strictly_sorted(views(final(v)@)),
        views(final(v)@).to_set() == views(old(v)@).to_set().insert(x@),
{
    let ghost s = views(v@);
    let mut i: usize = 0;
    while i < v.len() && compare_bytes(&v[i], &x) < 0
        invariant
            i <= v.len(),
            v@ == old(v)@,
            s == views(v@),
            strictly_sorted(s),
            forall|k: int| 0 <= k < i ==> #[trigger] lex_lt(s[k], x@),
        decreases v.len() - i,
    {
        i = i + 1;
    }
    if i < v.len() && compare_bytes(&v[i], &x) == 0 {
        proof {
            assert(s[i as int] == x@);
            assert(s.to_set().insert(x@) =~= s.to_set());
        }
        return;
    }
    let ghost xv = x@;
    v.insert(i, x);
    proof {
        let t = views(v@);
        assert(t =~= s.insert(i as int, xv));
        if i < s.len() {
            lemma_lex_total(s[i as int], xv);
            assert(lex_lt(xv, s[i as int]));
        }
        assert forall|p: int, q: int| 0 <= p < q < t.len() implies #[trigger] lex_lt(t[p], t[q]) by {
            if q < i {
                assert(lex_lt(s[p], s[q]));
            } else if q == i {
                assert(lex_lt(s[p], xv));
            } else if p == i {
                if q - 1 > i {
                    assert(lex_lt(s[i as int], s[q - 1]));
                    lemma_lex_transitive(xv, s[i as int], s[q - 1]);
                }
            } else if p < i {
                assert(lex_lt(s[p], s[q - 1]));
            } else {
                assert(lex_lt(s[p - 1], s[q - 1]));
            }
        }
        assert forall|y: Seq<u8>| t.to_set().contains(y) <==> s.to_set().insert(xv).contains(y) by {
            if t.contains(y) {
                let k = choose|k: int| 0 <= k < t.len() && t[k] == y;
                if k < i {
                    assert(s[k] == y);
                } else if k > i {
                    assert(s[k - 1] == y);
                }
            }
            if s.contains(y) {
                let k = choose|k: int| 0 <= k < s.len() && s[k] == y;
                if k < i {
                    assert(t[k] == y);
                } else {
                    assert(t[k + 1] == y);
                }
            }
            if y == xv {
                assert(t[i as int] == y);
            }
        }
        assert(t.to_set() =~= s.to_set().insert(xv));
    }
}

} // verus!

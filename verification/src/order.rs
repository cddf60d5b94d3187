//! Orders: lexicographic text order and stable sorting.

use vstd::prelude::*;
use crate::text;

verus! {

/// Text order by code points: the first differing character decides, and a
/// proper prefix comes first.
pub open spec fn text_less(a: Seq<char>, b: Seq<char>) -> bool
    decreases a.len(),
{
    if b.len() == 0 {
        false
    } else if a.len() == 0 {
        true
    } else if a[0] != b[0] {
        (a[0] as int) < (b[0] as int)
    } else {
        text_less(a.drop_first(), b.drop_first())
    }
}

/// Text order is asymmetric, negatively transitive and tells texts apart.
pub proof fn lemma_text_order(a: Seq<char>, b: Seq<char>, c: Seq<char>)
    ensures
        text_less(a, b) ==> !text_less(b, a),
        !text_less(a, b) && !text_less(b, c) ==> !text_less(a, c),
        !text_less(a, b) && !text_less(b, a) ==> a == b,
    decreases a.len(),
{
    if a.len() > 0 && b.len() > 0 && a[0] == b[0] {
        let c1 = if c.len() > 0 {
            c.drop_first()
        } else {
            c
        };
        lemma_text_order(a.drop_first(), b.drop_first(), c1);
        if !text_less(a, b) && !text_less(b, a) {
            assert(a =~= seq![a[0]] + a.drop_first());
            assert(b =~= seq![b[0]] + b.drop_first());
        }
    } else {
        if !text_less(a, b) && !text_less(b, a) {
            assert(a =~= b);
        }
    }
}

/// Whether the first text comes before the second in text order.
pub fn is_text_less(a: &str, b: &str) -> (r: bool)
    ensures
        r == text_less(a@, b@),
{
    let x: Vec<char> = text::chars_of(a);
    let y: Vec<char> = text::chars_of(b);
    let mut i: usize = 0;
    proof {
        assert(x@.skip(0) =~= x@);
        assert(y@.skip(0) =~= y@);
    }
    while i < x.len() && i < y.len()
        invariant
            x@ == a@,
            y@ == b@,
            i <= x.len(),
            i <= y.len(),
            text_less(a@, b@) == text_less(x@.skip(i as int), y@.skip(i as int)),
        decreases x.len() - i,
    {
        let p: u32 = x[i] as u32;
        let q: u32 = y[i] as u32;
        if x[i] != y[i] {
            proof {
                vstd::utf8::char_u32_cast(x@[i as int], p);
                vstd::utf8::char_u32_cast(y@[i as int], q);
            }
            return p < q;
        }
        proof {
            assert(x@.skip(i as int).drop_first() =~= x@.skip(i + 1));
            assert(y@.skip(i as int).drop_first() =~= y@.skip(i + 1));
        }
        i += 1;
    }
    i < y.len()
}

/// Values with a rank: a strict weak order.
pub trait Ranked: Sized {
    /// Whether this value ranks before the other.
    spec fn rank_less(&self, other: &Self) -> bool;

    /// The rank is asymmetric and negatively transitive.
    proof fn lemma_rank(a: &Self, b: &Self, c: &Self)
        ensures
            a.rank_less(b) ==> !b.rank_less(a),
            !a.rank_less(b) && !b.rank_less(c) ==> !a.rank_less(c),
    ;

    /// Decides the rank.
    fn is_less(&self, other: &Self) -> (r: bool)
        ensures
            r == self.rank_less(other),
    ;
}

/// Whether place `a` goes before place `b`: by rank, and by place within one
/// rank.
pub open spec fn precedes<T: Ranked>(s: Seq<T>, a: int, b: int) -> bool {
    s[a].rank_less(&s[b]) || (!s[b].rank_less(&s[a]) && a < b)
}

/// `p` lists every place of `s` once, in stable order by rank.
pub open spec fn stable_order<T: Ranked>(s: Seq<T>, p: Seq<usize>) -> bool {
    &&& p.len() == s.len()
    &&& forall|i: int| 0 <= i < p.len() ==> 0 <= #[trigger] p[i] < s.len()
    &&& forall|k: usize| 0 <= k < s.len() ==> #[trigger] p.contains(k)
    &&& forall|i: int, j: int|
        0 <= i < j < p.len() ==> precedes(s, #[trigger] p[i] as int, #[trigger] p[j] as int)
}

proof fn lemma_precedes<T: Ranked>(s: Seq<T>, a: int, b: int, c: int)
    ensures
        precedes(s, a, b) ==> !precedes(s, b, a),
        precedes(s, a, b) && precedes(s, b, c) ==> precedes(s, a, c),
        a != b ==> precedes(s, a, b) || precedes(s, b, a),
{
    T::lemma_rank(&s[a], &s[b], &s[c]);
    T::lemma_rank(&s[b], &s[a], &s[c]);
    T::lemma_rank(&s[c], &s[b], &s[a]);
    T::lemma_rank(&s[b], &s[c], &s[a]);
    T::lemma_rank(&s[a], &s[c], &s[b]);
    T::lemma_rank(&s[c], &s[a], &s[b]);
}

/// A place never goes before itself.
pub proof fn lemma_precedes_distinct<T: Ranked>(s: Seq<T>, a: int, b: int)
    requires
        precedes(s, a, b),
    ensures
        a != b,
{
    lemma_precedes(s, a, b, a);
}

/// There is only one stable order of a sequence.
pub proof fn lemma_stable_order_unique<T: Ranked>(s: Seq<T>, p: Seq<usize>, q: Seq<usize>)
    requires
        stable_order(s, p),
        stable_order(s, q),
    ensures
        p == q,
{
    assert forall|i: int| 0 <= i < p.len() implies p[i] == q[i] by {
        lemma_same_place(s, p, q, i);
    }
    assert(p =~= q);
}

proof fn lemma_same_place<T: Ranked>(s: Seq<T>, p: Seq<usize>, q: Seq<usize>, i: int)
    requires
        stable_order(s, p),
        stable_order(s, q),
        0 <= i < p.len(),
    ensures
        p[i] == q[i],
    decreases i,
{
    assert forall|k: int| 0 <= k < i implies p[k] == q[k] by {
        lemma_same_place(s, p, q, k);
    }
    let a = p[i];
    let b = q[i];
    assert(q.contains(a));
    let j = choose|j: int| 0 <= j < q.len() && q[j] == a;
    assert(p.contains(b));
    let m = choose|m: int| 0 <= m < p.len() && p[m] == b;
    lemma_precedes(s, a as int, b as int, a as int);
    lemma_precedes(s, a as int, a as int, a as int);
    lemma_precedes(s, b as int, b as int, b as int);
    if j < i {
        assert(p[j] == a);
        assert(precedes(s, p[j] as int, p[i] as int));
    }
    if m < i {
        assert(q[m] == b);
        assert(precedes(s, q[m] as int, q[i] as int));
    }
    if j > i && m > i {
        assert(precedes(s, q[i] as int, q[j] as int));
        assert(precedes(s, p[i] as int, p[m] as int));
    }
}

/// `p` lists the first `n` places of `s` once, in stable order by rank.
spec fn ordered<T: Ranked>(s: Seq<T>, p: Seq<usize>, n: int) -> bool {
    &&& p.len() == n
    &&& forall|i: int| 0 <= i < p.len() ==> 0 <= #[trigger] p[i] < n
    &&& forall|k: usize| 0 <= k < n ==> #[trigger] p.contains(k)
    &&& forall|i: int, j: int|
        0 <= i < j < p.len() ==> precedes(s, #[trigger] p[i] as int, #[trigger] p[j] as int)
}

proof fn lemma_slot<T: Ranked>(s: Seq<T>, p: Seq<usize>, n: int, k: int) -> (at: int)
    requires
        ordered(s, p, n),
        0 <= k <= n < s.len(),
        forall|a: int| k <= a < n ==> precedes(s, n, #[trigger] p[a] as int),
    ensures
        0 <= at <= n,
        forall|a: int| 0 <= a < at ==> precedes(s, #[trigger] p[a] as int, n),
        forall|a: int| at <= a < n ==> precedes(s, n, #[trigger] p[a] as int),
    decreases k,
{
    if k == 0 {
        0
    } else if precedes(s, p[k - 1] as int, n) {
        assert forall|a: int| 0 <= a < k implies precedes(s, #[trigger] p[a] as int, n) by {
            if a < k - 1 {
                lemma_precedes(s, p[a] as int, p[k - 1] as int, n);
            }
        }
        k
    } else {
        lemma_precedes(s, p[k - 1] as int, n, n);
        lemma_slot(s, p, n, k - 1)
    }
}

proof fn lemma_ordered<T: Ranked>(s: Seq<T>, n: int) -> (p: Seq<usize>)
    requires
        0 <= n <= s.len(),
        s.len() <= usize::MAX,
    ensures
        ordered(s, p, n),
    decreases n,
{
    if n == 0 {
        Seq::empty()
    } else {
        let m = n - 1;
        let before = lemma_ordered(s, m);
        let at = lemma_slot(s, before, m, m);
        let p = before.insert(at, m as usize);
        assert forall|k: usize| 0 <= k < n implies #[trigger] p.contains(k) by {
            if k == m {
                assert(p[at] == k);
            } else {
                assert(before.contains(k));
                let i = choose|i: int| 0 <= i < before.len() && before[i] == k;
                let i1 = if i < at {
                    i
                } else {
                    i + 1
                };
                assert(p[i1] == k);
            }
        }
        assert forall|i: int, j: int| 0 <= i < j < p.len() implies precedes(
            s,
            #[trigger] p[i] as int,
            #[trigger] p[j] as int,
        ) by {
            let i1 = if i < at {
                i
            } else {
                i - 1
            };
            let j1 = if j < at {
                j
            } else {
                j - 1
            };
            if i != at && j != at {
                assert(p[i] == before[i1] && p[j] == before[j1]);
            } else if i == at {
                assert(p[j] == before[j1]);
            } else {
                assert(p[i] == before[i1]);
            }
        }
        p
    }
}

/// Every sequence has a stable order.
pub proof fn lemma_stable_order_exists<T: Ranked>(s: Seq<T>)
    requires
        s.len() <= usize::MAX,
    ensures
        exists|p: Seq<usize>| stable_order(s, p),
{
    let p = lemma_ordered(s, s.len() as int);
    assert(stable_order(s, p));
}

/// Sorts the places of a vector by rank, keeping the given order within one
/// rank.
pub fn sorted_places<T: Ranked>(v: &Vec<T>) -> (p: Vec<usize>)
    ensures
        stable_order(v@, p@),
{
    let mut p: Vec<usize> = Vec::new();
    let mut i: usize = 0;
    while i < v.len()
        invariant
            i <= v.len(),
            p.len() == i,
            forall|a: int| 0 <= a < p.len() ==> 0 <= #[trigger] p@[a] < i,
            forall|k: usize| 0 <= k < i ==> #[trigger] p@.contains(k),
            forall|a: int, b: int|
                0 <= a < b < p.len() ==> precedes(v@, #[trigger] p@[a] as int, #[trigger] p@[b] as int),
        decreases v.len() - i,
    {
        let mut at: usize = p.len();
        while at > 0 && v[i].is_less(&v[p[at - 1]])
            invariant
                i < v.len(),
                at <= p.len(),
                p.len() == i,
                forall|a: int| 0 <= a < p.len() ==> 0 <= #[trigger] p@[a] < i,
                forall|a: int| at <= a < p.len() ==> v@[i as int].rank_less(&v@[#[trigger] p@[a] as int]),
            decreases at,
        {
            at -= 1;
        }
        let ghost before = p@;
        proof {
            if at > 0 {
                assert(precedes(v@, before[at - 1] as int, i as int));
            }
            assert forall|a: int| 0 <= a < at implies precedes(v@, #[trigger] before[a] as int, i as int) by {
                if a < at - 1 {
                    lemma_precedes(v@, before[a] as int, before[at - 1] as int, i as int);
                }
            }
            assert forall|a: int| at <= a < before.len() implies precedes(v@, i as int, #[trigger] before[a] as int) by {}
        }
        p.insert(at, i);
        proof {
            assert forall|k: usize| 0 <= k < i + 1 implies #[trigger] p@.contains(k) by {
                if k == i {
                    assert(p@[at as int] == k);
                } else {
                    assert(before.contains(k));
                    let m = choose|m: int| 0 <= m < before.len() && before[m] == k;
                    let m1 = if m < at { m } else { m + 1 };
                    assert(p@[m1] == k);
                }
            }
        }
        i += 1;
    }
    p
}

/// Texts are ordered by the first character in which they differ, and a text comes
/// before every longer one that begins with it.
pub proof fn law_text_order(common: Seq<char>, a: Seq<char>, b: Seq<char>)
    ensures
        a.len() > 0 ==> text_less(common, common + a) && !text_less(common + a, common),
        a.len() > 0 && b.len() > 0 && a[0] < b[0] ==> text_less(common + a, common + b)
            && !text_less(common + b, common + a),
        !text_less(common, common),
    decreases common.len(),
{
    let x = common + a;
    let y = common + b;
    if common.len() == 0 {
        assert(x =~= a);
        assert(y =~= b);
    } else {
        let rest = common.drop_first();
        law_text_order(rest, a, b);
        assert(x.drop_first() =~= rest + a);
        assert(y.drop_first() =~= rest + b);
        assert(x[0] == common[0] && y[0] == common[0]);
    }
}

} // verus!

//! The order of texts, sorted lists of them, and joining.

use crate::text::{chars_of, same, views};
use vstd::prelude::*;

verus! {

/// `a` comes before `b`, character by character.
pub open spec fn less(a: Seq<char>, b: Seq<char>) -> bool
    decreases a.len(),
{
    if b.len() == 0 {
        false
    } else if a.len() == 0 {
        true
    } else if a[0] != b[0] {
        a[0] < b[0]
    } else {
        less(a.drop_first(), b.drop_first())
    }
}

pub proof fn lemma_less_irreflexive(a: Seq<char>)
    ensures
        !less(a, a),
    decreases a.len(),
{
    if a.len() > 0 {
        lemma_less_irreflexive(a.drop_first());
    }
}

pub proof fn lemma_less_total(a: Seq<char>, b: Seq<char>)
    ensures
        less(a, b) || less(b, a) || a == b,
    decreases a.len(),
{
    if a.len() > 0 && b.len() > 0 && a[0] == b[0] {
        lemma_less_total(a.drop_first(), b.drop_first());
        if a.drop_first() == b.drop_first() {
            assert(a =~= seq![a[0]] + a.drop_first());
            assert(b =~= seq![b[0]] + b.drop_first());
        }
    } else if a.len() == 0 && b.len() == 0 {
        assert(a =~= b);
    }
}

pub proof fn lemma_less_transitive(a: Seq<char>, b: Seq<char>, c: Seq<char>)
    requires
        less(a, b),
        less(b, c),
    ensures
        less(a, c),
    decreases a.len(),
{
    if a.len() > 0 && a[0] == b[0] && b[0] == c[0] {
        lemma_less_transitive(a.drop_first(), b.drop_first(), c.drop_first());
    }
}

/// Whether `a` comes before `b`.
pub fn is_less(a: &str, b: &str) -> (r: bool)
    ensures
        r == less(a@, b@),
{
    let x = chars_of(a);
    let y = chars_of(b);
    let mut i: usize = 0;
    assert(x@.skip(0) =~= x@);
    assert(y@.skip(0) =~= y@);
    loop
        invariant
            i <= x@.len(),
            i <= y@.len(),
            less(x@.skip(i as int), y@.skip(i as int)) == less(a@, b@),
        decreases x@.len() - i,
    {
        if i == y.len() {
            return false;
        }
        if i == x.len() {
            return true;
        }
        if x[i] != y[i] {
            return x[i] < y[i];
        }
        assert(x@.skip(i as int).drop_first() =~= x@.skip(i + 1));
        assert(y@.skip(i as int).drop_first() =~= y@.skip(i + 1));
        i = i + 1;
    }
}

/// How many leading entries of `s` do not come after `x`.
pub open spec fn rank(s: Seq<Seq<char>>, x: Seq<char>) -> int
    decreases s.len(),
{
    if s.len() == 0 || less(x, s[0]) {
        0
    } else {
        1 + rank(s.drop_first(), x)
    }
}

/// `s` with `x` put behind the last entry that does not come after it.
pub open spec fn placed(s: Seq<Seq<char>>, x: Seq<char>) -> Seq<Seq<char>> {
    s.take(rank(s, x)) + seq![x] + s.skip(rank(s, x))
}

/// `s` in order.
pub open spec fn sorted(s: Seq<Seq<char>>) -> Seq<Seq<char>>
    decreases s.len(),
{
    if s.len() == 0 {
        s
    } else {
        placed(sorted(s.drop_last()), s.last())
    }
}

/// No entry comes after a later one.
pub open spec fn ascending(s: Seq<Seq<char>>) -> bool {
    forall|i: int, j: int| 0 <= i < j < s.len() ==> !less(#[trigger] s[j], #[trigger] s[i])
}

/// Every entry comes before a later one, so none occurs twice.
pub open spec fn strictly_ascending(s: Seq<Seq<char>>) -> bool {
    forall|i: int, j: int| 0 <= i < j < s.len() ==> less(#[trigger] s[i], #[trigger] s[j])
}

/// A text that is not there yet, put in its place, keeps a list strictly ascending.
pub proof fn placing_keeps_strict_order(s: Seq<Seq<char>>, x: Seq<char>)
    requires
        strictly_ascending(s),
        !s.contains(x),
    ensures
        strictly_ascending(placed(s, x)),
{
    lemma_rank(s, x);
    let k = rank(s, x);
    let r = placed(s, x);
    assert forall|i: int, j: int| 0 <= i < j < r.len() implies less(#[trigger] r[i], #[trigger] r[j]) by {
        if j == k {
            assert(r[i] == s[i] && !less(x, s[i]));
            assert(s[i] != x);
            lemma_less_total(x, s[i]);
        } else if i == k {
            assert(r[j] == s[j - 1]);
            if j - 1 > k {
                assert(less(s[k], s[j - 1]));
                lemma_less_transitive(x, s[k], s[j - 1]);
            }
        } else {
            let a = if i < k {
                i
            } else {
                i - 1
            };
            let b = if j < k {
                j
            } else {
                j - 1
            };
            assert(r[i] == s[a] && r[j] == s[b]);
        }
    }
}

pub proof fn lemma_rank(s: Seq<Seq<char>>, x: Seq<char>)
    ensures
        0 <= rank(s, x) <= s.len(),
        forall|i: int| 0 <= i < rank(s, x) ==> !less(x, #[trigger] s[i]),
        rank(s, x) < s.len() ==> less(x, s[rank(s, x)]),
    decreases s.len(),
{
    if s.len() > 0 && !less(x, s[0]) {
        let t = s.drop_first();
        lemma_rank(t, x);
        assert forall|i: int| 0 <= i < rank(s, x) implies !less(x, #[trigger] s[i]) by {
            if i > 0 {
                assert(!less(x, t[i - 1]));
            }
        }
        if rank(s, x) < s.len() {
            assert(less(x, t[rank(t, x)]));
        }
    }
}

/// Sorting yields an ascending list of the same texts.
pub proof fn sorted_is_ascending(s: Seq<Seq<char>>)
    ensures
        ascending(sorted(s)),
        sorted(s).to_multiset() == s.to_multiset(),
        sorted(s).len() == s.len(),
    decreases s.len(),
{
    broadcast use vstd::seq_lib::group_to_multiset_ensures;

    if s.len() > 0 {
        let t = sorted(s.drop_last());
        let x = s.last();
        sorted_is_ascending(s.drop_last());
        lemma_rank(t, x);
        let k = rank(t, x);
        let r = placed(t, x);
        assert(r =~= t.insert(k, x));
        assert(s =~= s.drop_last().push(x));
        assert(r.to_multiset() =~= t.to_multiset().insert(x)) by {
            vstd::seq_lib::to_multiset_insert(t, k, x);
        }
        assert(s.to_multiset() =~= s.drop_last().to_multiset().insert(x)) by {
            vstd::seq_lib::to_multiset_insert(s.drop_last(), s.len() - 1, x);
            assert(s.drop_last().insert(s.len() - 1, x) =~= s);
        }
        assert forall|i: int, j: int| 0 <= i < j < r.len() implies !less(#[trigger] r[j], #[trigger] r[i]) by {
            let oi = if i < k {
                i
            } else {
                i - 1
            };
            let oj = if j < k {
                j
            } else {
                j - 1
            };
            if i != k && j != k {
                assert(r[i] == t[oi] && r[j] == t[oj]);
            } else if j == k {
                assert(r[i] == t[i]);
                assert(!less(x, t[i]));
            } else {
                assert(r[j] == t[oj]);
                if less(t[oj], x) {
                    if oj == k {
                        lemma_less_transitive(x, t[k], x);
                    } else {
                        assert(!less(t[oj], t[k]));
                        lemma_less_transitive(t[oj], x, t[k]);
                    }
                    lemma_less_irreflexive(x);
                }
            }
        }
    }
}

/// Texts in ascending order.
pub fn sort(texts: Vec<String>) -> (r: Vec<String>)
    ensures
        views(r@) == sorted(views(texts@)),
{
    let mut r: Vec<String> = Vec::new();
    let mut i: usize = 0;
    assert(views(r@) =~= sorted(views(texts@).take(0)));
    while i < texts.len()
        invariant
            i <= texts@.len(),
            views(r@) == sorted(views(texts@).take(i as int)),
        decreases texts@.len() - i,
    {
        let x = texts[i].clone();
        let ghost before = views(r@);
        let mut k: usize = 0;
        assert(before.skip(0) =~= before);
        while k < r.len() && !is_less(&x, &r[k])
            invariant
                k <= r@.len(),
                before == views(r@),
                k + rank(before.skip(k as int), x@) == rank(before, x@),
            decreases r@.len() - k,
        {
            assert(before.skip(k as int)[0] == r@[k as int]@);
            assert(before.skip(k as int).drop_first() =~= before.skip(k + 1));
            k = k + 1;
        }
        proof {
            if k < r@.len() {
                assert(before.skip(k as int)[0] == r@[k as int]@);
            }
            assert(rank(before, x@) == k);
        }
        r.insert(k, x);
        i = i + 1;
        proof {
            assert(views(r@) =~= placed(before, x@));
            assert(views(texts@).take(i as int).drop_last() =~= views(texts@).take(i - 1));
            assert(views(texts@).take(i as int).last() == x@);
        }
    }
    assert(views(texts@).take(i as int) =~= views(texts@));
    r
}

/// The texts with `sep` between them.
pub open spec fn joined(s: Seq<Seq<char>>, sep: Seq<char>) -> Seq<char>
    decreases s.len(),
{
    if s.len() == 0 {
        Seq::empty()
    } else if s.len() == 1 {
        s[0]
    } else {
        joined(s.drop_last(), sep) + sep + s.last()
    }
}

/// Texts with `sep` between them.
pub fn join(texts: &Vec<String>, sep: &str) -> (r: String)
    ensures
        r@ == joined(views(texts@), sep@),
{
    let mut r = String::new();
    let mut i: usize = 0;
    while i < texts.len()
        invariant
            i <= texts@.len(),
            r@ == joined(views(texts@).take(i as int), sep@),
        decreases texts@.len() - i,
    {
        let ghost done = views(texts@).take(i as int);
        let ghost more = views(texts@).take(i + 1);
        assert(more.drop_last() =~= done);
        assert(more.last() == texts@[i as int]@);
        if i > 0 {
            r.append(sep);
        }
        r.append(&texts[i]);
        assert(Seq::<char>::empty() + texts@[i as int]@ =~= texts@[i as int]@);
        i = i + 1;
    }
    assert(views(texts@).take(i as int) =~= views(texts@));
    r
}

/// Whether a text is among others.
pub fn has(texts: &Vec<String>, x: &str) -> (r: bool)
    ensures
        r == views(texts@).contains(x@),
{
    let mut i: usize = 0;
    while i < texts.len()
        invariant
            i <= texts@.len(),
            forall|j: int| 0 <= j < i ==> #[trigger] texts@[j]@ != x@,
        decreases texts@.len() - i,
    {
        if same(&texts[i], x) {
            assert(views(texts@)[i as int] == x@);
            return true;
        }
        i = i + 1;
    }
    proof {
        if views(texts@).contains(x@) {
            let j = choose|j: int| 0 <= j < views(texts@).len() && views(texts@)[j] == x@;
            assert(texts@[j]@ != x@);
        }
    }
    false
}

/// A list of texts begins with its first one.
pub proof fn lemma_joined_first(a: Seq<char>, rest: Seq<Seq<char>>, sep: Seq<char>)
    requires
        rest.len() > 0,
    ensures
        joined(seq![a] + rest, sep) == a + sep + joined(rest, sep),
    decreases rest.len(),
{
    let all = seq![a] + rest;
    assert(all.drop_last() =~= seq![a] + rest.drop_last());
    assert(all.last() == rest.last());
    if rest.len() > 1 {
        lemma_joined_first(a, rest.drop_last(), sep);
        assert(a + sep + joined(rest.drop_last(), sep) + sep + rest.last() =~= a + sep + (joined(rest.drop_last(), sep) + sep
            + rest.last()));
    } else {
        assert(all.drop_last() =~= seq![a]);
        assert(joined(seq![a], sep) == a);
        assert(joined(rest, sep) == rest[0]);
    }
}

/// Sorting keeps the texts: none is lost and none is added.
pub proof fn sorting_keeps_the_names(s: Seq<Seq<char>>, x: Seq<char>)
    ensures
        sorted(s).contains(x) <==> s.contains(x),
{
    broadcast use vstd::seq_lib::group_to_multiset_ensures;

    sorted_is_ascending(s);
    assert(sorted(s).contains(x) <==> sorted(s).to_multiset().count(x) > 0);
    assert(s.contains(x) <==> s.to_multiset().count(x) > 0);
}

} // verus!

//! Orders: the order of texts by their characters, and a stable sort for
//! anything that says which of two values goes first.

use vstd::prelude::*;

verus! {

/// `a` is at most `b` in the order of texts: character by character, by code
/// point, a text before each of its extensions.
pub open spec fn text_le(a: Seq<char>, b: Seq<char>) -> bool
    decreases a.len(),
{
    if a.len() == 0 {
        true
    } else if b.len() == 0 {
        false
    } else if a[0] == b[0] {
        text_le(a.skip(1), b.skip(1))
    } else {
        a[0] < b[0]
    }
}

/// `a` comes strictly before `b` in the order of texts.
pub open spec fn text_lt(a: Seq<char>, b: Seq<char>) -> bool {
    text_le(a, b) && a != b
}

/// Every text is at most itself.
pub proof fn lemma_text_le_reflexive(a: Seq<char>)
    ensures
        text_le(a, a),
    decreases a.len(),
{
    if a.len() > 0 {
        lemma_text_le_reflexive(a.skip(1));
    }
}

/// Of two texts one is at most the other.
pub proof fn lemma_text_le_total(a: Seq<char>, b: Seq<char>)
    ensures
        text_le(a, b) || text_le(b, a),
    decreases a.len(),
{
    if a.len() > 0 && b.len() > 0 && a[0] == b[0] {
        lemma_text_le_total(a.skip(1), b.skip(1));
    }
}

/// The order of texts is transitive.
pub proof fn lemma_text_le_transitive(a: Seq<char>, b: Seq<char>, c: Seq<char>)
    requires
        text_le(a, b),
        text_le(b, c),
    ensures
        text_le(a, c),
    decreases a.len(),
{
    if a.len() > 0 && b.len() > 0 && c.len() > 0 {
        if a[0] == b[0] && b[0] == c[0] {
            lemma_text_le_transitive(a.skip(1), b.skip(1), c.skip(1));
        }
    }
}

/// Two texts that are each at most the other are the same text.
pub proof fn lemma_text_le_antisymmetric(a: Seq<char>, b: Seq<char>)
    requires
        text_le(a, b),
        text_le(b, a),
    ensures
        a == b,
    decreases a.len(),
{
    if a.len() == 0 || b.len() == 0 {
        assert(a =~= b);
    } else {
        lemma_text_le_antisymmetric(a.skip(1), b.skip(1));
        assert(a =~= seq![a[0]] + a.skip(1));
        assert(b =~= seq![b[0]] + b.skip(1));
    }
}

/// Whether `a` is at most `b` in the order of texts.
pub fn chars_le(a: &Vec<char>, b: &Vec<char>) -> (r: bool)
    ensures
        r == text_le(a@, b@),
{
    let mut i: usize = 0;
    assert(a@.skip(0) =~= a@ && b@.skip(0) =~= b@);
    while i < a.len() && i < b.len()
        invariant
            i <= a.len(),
            i <= b.len(),
            text_le(a@, b@) == text_le(a@.skip(i as int), b@.skip(i as int)),
        decreases a.len() - i,
    {
        let x: char = a[i];
        let y: char = b[i];
        if x != y {
            return x < y;
        }
        assert(a@.skip(i as int).skip(1) =~= a@.skip(i + 1));
        assert(b@.skip(i as int).skip(1) =~= b@.skip(i + 1));
        i += 1;
    }
    i == a.len()
}

/// Whether `a` is at most `b` in the order of texts.
pub fn str_le(a: &str, b: &str) -> (r: bool)
    ensures
        r == text_le(a@, b@),
{
    let x = crate::text::chars_of(a);
    let y = crate::text::chars_of(b);
    chars_le(&x, &y)
}

/// A kind of value with a rule that says which of two goes first. The rule
/// is total and transitive, so a list can be put in order by it.
pub trait Rank: Sized {
    /// `self` may stand before `other`.
    spec fn precedes(&self, other: &Self) -> bool;

    /// Of two values one may stand before the other.
    proof fn lemma_total(a: &Self, b: &Self)
        ensures
            a.precedes(b) || b.precedes(a),
    ;

    /// What may stand before a value may stand before all that it may stand
    /// before.
    proof fn lemma_transitive(a: &Self, b: &Self, c: &Self)
        requires
            a.precedes(b),
            b.precedes(c),
        ensures
            a.precedes(c),
    ;
}

/// A kind of data that can be sorted: it has a model with a rank, and can
/// tell at run time which of two values goes first by it.
pub trait Sortable: Sized {
    /// What a value is, as far as its place in the order goes.
    type Model: Rank;

    /// The model of `self`.
    spec fn model(&self) -> Self::Model;

    /// Whether `self` may stand before `other`.
    fn goes_before(&self, other: &Self) -> (r: bool)
        ensures
            r == self.model().precedes(&other.model()),
    ;
}

/// The models of a list of values.
pub open spec fn models<T: Sortable>(s: Seq<T>) -> Seq<T::Model> {
    s.map_values(|x: T| x.model())
}

/// Each element of `s` may stand before all that follow it.
pub open spec fn in_rank_order<T: Rank>(s: Seq<T>) -> bool {
    forall|i: int, j: int|
        #![trigger s[i], s[j]]
        0 <= i < j < s.len() ==> s[i].precedes(&s[j])
}

/// Where `x` enters the ordered list `s`: behind the leading elements that it
/// may not stand before.
pub open spec fn rank_position<T: Rank>(x: T, s: Seq<T>) -> nat
    decreases s.len(),
{
    if s.len() == 0 || x.precedes(&s[0]) {
        0
    } else {
        1 + rank_position(x, s.skip(1))
    }
}

/// `s` in rank order. Elements of which each may stand before the other keep
/// the order they had in `s`.
pub open spec fn ranked<T: Rank>(s: Seq<T>) -> Seq<T>
    decreases s.len(),
{
    if s.len() == 0 {
        s
    } else {
        let rest = ranked(s.skip(1));
        rest.insert(rank_position(s[0], rest) as int, s[0])
    }
}

/// `x` may stand before none of the elements ahead of its position, and may
/// stand before the element at its position.
pub proof fn lemma_rank_position<T: Rank>(x: T, s: Seq<T>)
    ensures
        rank_position(x, s) <= s.len(),
        forall|i: int| #![trigger s[i]] 0 <= i < rank_position(x, s) ==> !x.precedes(&s[i]),
        rank_position(x, s) < s.len() ==> x.precedes(&s[rank_position(x, s) as int]),
    decreases s.len(),
{
    if s.len() == 0 || x.precedes(&s[0]) {
    } else {
        let t = s.skip(1);
        lemma_rank_position(x, t);
        assert forall|i: int| #![trigger s[i]] 0 <= i < rank_position(x, s) implies !x.precedes(
            &s[i],
        ) by {
            if i > 0 {
                assert(s[i] == t[i - 1]);
            }
        }
    }
}

/// An ordered list stays ordered when a value enters at its position.
pub proof fn lemma_insert_keeps_order<T: Rank>(x: T, s: Seq<T>)
    requires
        in_rank_order(s),
    ensures
        in_rank_order(s.insert(rank_position(x, s) as int, x)),
{
    let p = rank_position(x, s) as int;
    let r = s.insert(p, x);
    lemma_rank_position(x, s);
    s.insert_ensures(p, x);
    assert forall|i: int, j: int| #![trigger r[i], r[j]] 0 <= i < j < r.len() implies r[i].precedes(
        &r[j],
    ) by {
        if j < p {
            assert(r[i] == s[i] && r[j] == s[j]);
        } else if j == p {
            assert(r[i] == s[i]);
            T::lemma_total(&x, &s[i]);
        } else if i < p {
            assert(r[i] == s[i] && r[j] == s[j - 1]);
            if i < j - 1 {
            } else {
                T::lemma_total(&s[i], &s[i]);
            }
        } else if i == p {
            assert(r[j] == s[j - 1]);
            if j - 1 > p {
                T::lemma_transitive(&x, &s[p], &s[j - 1]);
            }
        } else {
            assert(r[i] == s[i - 1] && r[j] == s[j - 1]);
        }
    }
}

/// `ranked(s)` is in rank order.
pub proof fn lemma_ranked_in_order<T: Rank>(s: Seq<T>)
    ensures
        in_rank_order(ranked(s)),
    decreases s.len(),
{
    if s.len() > 0 {
        lemma_ranked_in_order(s.skip(1));
        lemma_insert_keeps_order(s[0], ranked(s.skip(1)));
    }
}

/// `ranked(s)` holds the elements of `s`, each as often as `s` does.
pub proof fn lemma_ranked_same_elements<T: Rank>(s: Seq<T>)
    ensures
        ranked(s).to_multiset() == s.to_multiset(),
        ranked(s).len() == s.len(),
        forall|x: T| ranked(s).contains(x) <==> s.contains(x),
    decreases s.len(),
{
    broadcast use vstd::seq_lib::to_multiset_len, vstd::seq_lib::to_multiset_contains;

    if s.len() > 0 {
        let rest = ranked(s.skip(1));
        let p = rank_position(s[0], rest) as int;
        lemma_ranked_same_elements(s.skip(1));
        lemma_rank_position(s[0], rest);
        vstd::seq_lib::to_multiset_insert(rest, p, s[0]);
        vstd::seq_lib::to_multiset_insert(s.skip(1), 0, s[0]);
        assert(s.skip(1).insert(0, s[0]) =~= s);
    }
    assert forall|x: T| ranked(s).contains(x) <==> s.contains(x) by {
        assert(ranked(s).to_multiset().count(x) == s.to_multiset().count(x));
    }
}

/// No two elements of `s` have the same key.
pub open spec fn distinct_keys<T, K>(s: Seq<T>, key: spec_fn(T) -> K) -> bool {
    forall|i: int, j: int| 0 <= i < j < s.len() ==> key(#[trigger] s[i]) != key(#[trigger] s[j])
}

/// Where no two elements of `s` have the same key, none of `ranked(s)` do.
pub proof fn lemma_ranked_keeps_distinct<T: Rank, K>(s: Seq<T>, key: spec_fn(T) -> K)
    requires
        distinct_keys(s, key),
    ensures
        distinct_keys(ranked(s), key),
    decreases s.len(),
{
    if s.len() > 0 {
        let t = s.skip(1);
        let rest = ranked(t);
        let p = rank_position(s[0], rest) as int;
        let r = rest.insert(p, s[0]);
        assert forall|i: int, j: int| 0 <= i < j < t.len() implies key(#[trigger] t[i]) != key(
            #[trigger] t[j],
        ) by {
            assert(t[i] == s[i + 1] && t[j] == s[j + 1]);
        }
        lemma_ranked_keeps_distinct(t, key);
        lemma_ranked_same_elements(t);
        lemma_rank_position(s[0], rest);
        rest.insert_ensures(p, s[0]);
        assert forall|k: int| 0 <= k < rest.len() implies key(#[trigger] rest[k]) != key(s[0]) by {
            assert(rest.contains(rest[k]));
            assert(t.contains(rest[k]));
            let m = choose|m: int| 0 <= m < t.len() && t[m] == rest[k];
            assert(t[m] == s[m + 1]);
        }
        assert forall|i: int, j: int| 0 <= i < j < r.len() implies key(#[trigger] r[i]) != key(
            #[trigger] r[j],
        ) by {
            let a = if i < p {
                i
            } else {
                i - 1
            };
            let b = if j < p {
                j
            } else {
                j - 1
            };
            if i == p {
                assert(r[j] == rest[b]);
            } else if j == p {
                assert(r[i] == rest[a]);
            } else {
                assert(r[i] == rest[a] && r[j] == rest[b]);
            }
        }
    }
}

/// Puts `v` in rank order.
pub fn sort_ranked<T: Sortable>(v: Vec<T>) -> (out: Vec<T>)
    ensures
        models(out@) == ranked(models(v@)),
{
    let ghost whole = models(v@);
    let mut v = v;
    let mut out: Vec<T> = Vec::new();
    assert(whole.skip(whole.len() as int) =~= Seq::<T::Model>::empty());
    assert(models(out@) =~= Seq::<T::Model>::empty());
    while v.len() > 0
        invariant
            models(v@) == whole.take(v.len() as int),
            v.len() <= whole.len(),
            models(out@) == ranked(whole.skip(v.len() as int)),
        decreases v.len(),
    {
        let ghost n = v.len() as int;
        let ghost before = v@;
        let x = v.pop().unwrap();
        assert(x.model() == models(before)[n - 1]);
        assert(models(v@) =~= whole.take(n - 1));
        assert(whole.skip(n - 1).skip(1) =~= whole.skip(n));
        assert(whole.skip(n - 1)[0] == x.model());
        let ghost sorted = models(out@);
        let mut p: usize = 0;
        assert(sorted.skip(0) =~= sorted);
        while p < out.len() && !x.goes_before(&out[p])
            invariant
                p <= out.len(),
                sorted == models(out@),
                rank_position(x.model(), sorted) == p + rank_position(
                    x.model(),
                    sorted.skip(p as int),
                ),
            decreases out.len() - p,
        {
            assert(sorted.skip(p as int)[0] == out@[p as int].model());
            assert(sorted.skip(p as int).skip(1) =~= sorted.skip(p + 1));
            p += 1;
        }
        assert(rank_position(x.model(), sorted) == p) by {
            if p < out.len() {
                assert(sorted.skip(p as int)[0] == out@[p as int].model());
            }
        }
        out.insert(p, x);
        assert(models(out@) =~= sorted.insert(p as int, x.model()));
    }
    assert(whole.skip(0) =~= whole);
    out
}

} // verus!

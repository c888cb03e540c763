//! Ordering node names: the order `String`'s `Ord` gives (byte-wise on
//! UTF-8, which is code-point order character by character), and a sort.
use vstd::prelude::*;
use crate::text::{chars_of, texts};

verus! {

broadcast use vstd::seq_lib::group_to_multiset_ensures;

/// `a` comes no later than `b`: lexicographic order by code point, a prefix first.
pub open spec fn text_le(a: Seq<char>, b: Seq<char>) -> bool
    decreases a.len(),
{
    if a.len() == 0 {
        true
    } else if b.len() == 0 {
        false
    } else if a[0] < b[0] {
        true
    } else if a[0] > b[0] {
        false
    } else {
        text_le(a.drop_first(), b.drop_first())
    }
}

/// Each name comes no later than the next.
pub open spec fn ascending(s: Seq<Seq<char>>) -> bool {
    forall|i: int| 0 <= i < s.len() - 1 ==> text_le(#[trigger] s[i], s[i + 1])
}

/// Any two names are ordered one way or the other.
pub proof fn lemma_text_le_total(a: Seq<char>, b: Seq<char>)
    ensures
        text_le(a, b) || text_le(b, a),
    decreases a.len(),
{
    if a.len() > 0 && b.len() > 0 && a[0] == b[0] {
        lemma_text_le_total(a.drop_first(), b.drop_first());
    }
}

/// Whether `a` comes no later than `b`.
pub fn le_text(a: &str, b: &str) -> (r: bool)
    ensures
        r == text_le(a@, b@),
{
    let x = chars_of(a);
    let y = chars_of(b);
    let mut k: usize = 0;
    assert(x@.skip(0) == x@);
    assert(y@.skip(0) == y@);
    while k < x.len() && k < y.len() && x[k] == y[k]
        invariant
            k <= x.len(),
            k <= y.len(),
            text_le(x@, y@) == text_le(x@.skip(k as int), y@.skip(k as int)),
        decreases x.len() - k,
    {
        assert(x@.skip(k as int).drop_first() == x@.skip(k + 1));
        assert(y@.skip(k as int).drop_first() == y@.skip(k + 1));
        assert(x@.skip(k as int)[0] == x@[k as int]);
        assert(y@.skip(k as int)[0] == y@[k as int]);
        k += 1;
    }
    if k == x.len() {
        return true;
    }
    if k == y.len() {
        return false;
    }
    assert(x@.skip(k as int)[0] == x@[k as int]);
    assert(y@.skip(k as int)[0] == y@[k as int]);
    x[k] < y[k]
}

/// The names in ascending order (`sort` on a `Vec<String>`): the same names,
/// as many times each, each no later than the next.
pub fn sort_texts(v: Vec<String>) -> (r: Vec<String>)
    ensures
        texts(r@).to_multiset() == texts(v@).to_multiset(),
        ascending(texts(r@)),
{
    let mut out: Vec<String> = Vec::new();
    let mut i: usize = 0;
    while i < v.len()
        invariant
            i <= v.len(),
            texts(out@).to_multiset() == texts(v@.take(i as int)).to_multiset(),
            ascending(texts(out@)),
        decreases v.len() - i,
    {
        let x = v[i].clone();
        let mut p: usize = 0;
        while p < out.len() && !le_text(x.as_str(), out[p].as_str())
            invariant
                p <= out.len(),
                p > 0 ==> !text_le(x@, out@[p - 1]@),
            decreases out.len() - p,
        {
            p += 1;
        }
        let ghost before = texts(out@);
        let ghost xv = x@;
        proof {
            if p > 0 {
                lemma_text_le_total(xv, before[p - 1]);
            }
        }
        out.insert(p, x);
        let ghost after = texts(out@);
        assert(after =~= before.insert(p as int, xv));
        assert(ascending(after)) by {
            assert forall|k: int| 0 <= k < after.len() - 1 implies text_le(
                #[trigger] after[k],
                after[k + 1],
            ) by {
                if k < p - 1 {
                    assert(after[k] == before[k] && after[k + 1] == before[k + 1]);
                } else if k == p - 1 {
                    assert(after[k] == before[k] && after[k + 1] == xv);
                } else if k == p {
                    assert(after[k] == xv && after[k + 1] == before[k]);
                } else {
                    assert(after[k] == before[k - 1] && after[k + 1] == before[k]);
                }
            }
        }
        assert(texts(v@.take(i + 1)) =~= texts(v@.take(i as int)).push(v@[i as int]@));
        i += 1;
    }
    assert(v@.take(v.len() as int) == v@);
    out
}

/// Two names that each come no later than the other are the same name.
pub proof fn law_text_le_antisymmetric(a: Seq<char>, b: Seq<char>)
    requires
        text_le(a, b),
        text_le(b, a),
    ensures
        a == b,
    decreases a.len(),
{
    if a.len() > 0 && b.len() > 0 {
        law_text_le_antisymmetric(a.drop_first(), b.drop_first());
        assert(a =~= seq![a[0]] + a.drop_first());
        assert(b =~= seq![b[0]] + b.drop_first());
    } else {
        assert(a =~= b);
    }
}

/// The order is transitive.
pub proof fn law_text_le_transitive(a: Seq<char>, b: Seq<char>, c: Seq<char>)
    requires
        text_le(a, b),
        text_le(b, c),
    ensures
        text_le(a, c),
    decreases a.len(),
{
    if a.len() > 0 && b.len() > 0 && c.len() > 0 && a[0] == b[0] && b[0] == c[0] {
        law_text_le_transitive(a.drop_first(), b.drop_first(), c.drop_first());
    }
}

proof fn lemma_text_le_reflexive(a: Seq<char>)
    ensures
        text_le(a, a),
    decreases a.len(),
{
    if a.len() > 0 {
        lemma_text_le_reflexive(a.drop_first());
    }
}

/// A list in which each name comes no later than the next is sorted: every
/// name comes no later than every name after it.
pub proof fn law_ascending_is_sorted(s: Seq<Seq<char>>)
    requires
        ascending(s),
    ensures
        forall|i: int, j: int| 0 <= i <= j < s.len() ==> text_le(#[trigger] s[i], #[trigger] s[j]),
{
    assert forall|i: int, j: int| 0 <= i <= j < s.len() implies text_le(#[trigger] s[i], #[trigger] s[j]) by {
        lemma_ascending_range(s, i, j);
    }
}

proof fn lemma_ascending_range(s: Seq<Seq<char>>, i: int, j: int)
    requires
        ascending(s),
        0 <= i <= j < s.len(),
    ensures
        text_le(s[i], s[j]),
    decreases j - i,
{
    if i == j {
        lemma_text_le_reflexive(s[i]);
    } else {
        lemma_ascending_range(s, i + 1, j);
        assert(text_le(s[i], s[i + 1]));
        law_text_le_transitive(s[i], s[i + 1], s[j]);
    }
}

proof fn lemma_ascending_tail(s: Seq<Seq<char>>)
    requires
        ascending(s),
        s.len() > 0,
    ensures
        ascending(s.drop_first()),
{
    let d = s.drop_first();
    assert forall|i: int| 0 <= i < d.len() - 1 implies text_le(#[trigger] d[i], d[i + 1]) by {
        assert(d[i] == s[i + 1] && d[i + 1] == s[i + 2]);
    }
}

/// Sorting leaves no choice: two ascending lists of the same names, each as
/// many times, are the same list. So `ls` prints one listing for a set of children.
pub proof fn law_sorted_names_are_unique(s: Seq<Seq<char>>, t: Seq<Seq<char>>)
    requires
        ascending(s),
        ascending(t),
        s.to_multiset() == t.to_multiset(),
    ensures
        s == t,
    decreases s.len(),
{
    s.to_multiset_ensures();
    t.to_multiset_ensures();
    if s.len() == 0 {
        assert(t.len() == 0);
        assert(s =~= t);
    } else {
        assert(t.len() == s.len());
        law_ascending_is_sorted(s);
        law_ascending_is_sorted(t);
        assert(s.contains(s[0]));
        vstd::seq_lib::to_multiset_contains(s, s[0]);
        vstd::seq_lib::to_multiset_contains(t, s[0]);
        assert(t.contains(s[0]));
        let j = choose|j: int| 0 <= j < t.len() && t[j] == s[0];
        assert(text_le(t[0], t[j]));
        assert(t.contains(t[0]));
        vstd::seq_lib::to_multiset_contains(t, t[0]);
        vstd::seq_lib::to_multiset_contains(s, t[0]);
        assert(s.contains(t[0]));
        let k = choose|k: int| 0 <= k < s.len() && s[k] == t[0];
        assert(text_le(s[0], s[k]));
        law_text_le_antisymmetric(s[0], t[0]);
        assert(s.remove(0) =~= s.drop_first());
        assert(t.remove(0) =~= t.drop_first());
        vstd::seq_lib::to_multiset_remove(s, 0);
        vstd::seq_lib::to_multiset_remove(t, 0);
        lemma_ascending_tail(s);
        lemma_ascending_tail(t);
        law_sorted_names_are_unique(s.drop_first(), t.drop_first());
        assert(s =~= seq![s[0]] + s.drop_first());
        assert(t =~= seq![t[0]] + t.drop_first());
    }
}

} // verus!

//! The order of texts.

use vstd::multiset::Multiset;
use vstd::prelude::*;
use vstd::relations::{
    antisymmetric, reflexive, sorted_by, strongly_connected, total_ordering, transitive,
};

use crate::text::{chars_of, texts};

verus! {

/// Whether a text comes no later than another: the first characters in which
/// they differ decide, and a text comes before its continuations.
pub open spec fn text_le(a: Seq<char>, b: Seq<char>) -> bool
    decreases a.len(),
{
    if a.len() == 0 {
        true
    } else if b.len() == 0 {
        false
    } else if a[0] != b[0] {
        a[0] < b[0]
    } else {
        text_le(a.skip(1), b.skip(1))
    }
}

/// The order of texts as a relation.
pub open spec fn text_order() -> spec_fn(Seq<char>, Seq<char>) -> bool {
    |a: Seq<char>, b: Seq<char>| text_le(a, b)
}

proof fn lemma_le_reflexive(a: Seq<char>)
    ensures
        text_le(a, a),
    decreases a.len(),
{
    if a.len() > 0 {
        lemma_le_reflexive(a.skip(1));
    }
}

proof fn lemma_le_antisymmetric(a: Seq<char>, b: Seq<char>)
    requires
        text_le(a, b),
        text_le(b, a),
    ensures
        a == b,
    decreases a.len(),
{
    if a.len() > 0 && b.len() > 0 {
        lemma_le_antisymmetric(a.skip(1), b.skip(1));
        assert(a =~= seq![a[0]] + a.skip(1));
        assert(b =~= seq![b[0]] + b.skip(1));
    } else {
        assert(a =~= b);
    }
}

proof fn lemma_le_transitive(a: Seq<char>, b: Seq<char>, c: Seq<char>)
    requires
        text_le(a, b),
        text_le(b, c),
    ensures
        text_le(a, c),
    decreases a.len(),
{
    if a.len() > 0 && a[0] == b[0] && b[0] == c[0] {
        lemma_le_transitive(a.skip(1), b.skip(1), c.skip(1));
    }
}

proof fn lemma_le_connected(a: Seq<char>, b: Seq<char>)
    ensures
        text_le(a, b) || text_le(b, a),
    decreases a.len(),
{
    if a.len() > 0 && b.len() > 0 && a[0] == b[0] {
        lemma_le_connected(a.skip(1), b.skip(1));
    }
}

/// Any two texts are in order one way or the other, and both ways only if they
/// are equal.
pub proof fn lemma_text_order()
    ensures
        total_ordering(text_order()),
{
    let r = text_order();
    assert(reflexive(r)) by {
        assert forall|x: Seq<char>| #[trigger] r(x, x) by {
            lemma_le_reflexive(x);
        }
    }
    assert(antisymmetric(r)) by {
        assert forall|x: Seq<char>, y: Seq<char>| #[trigger] r(x, y) && #[trigger] r(y, x) implies x
            == y by {
            lemma_le_antisymmetric(x, y);
        }
    }
    assert(transitive(r)) by {
        assert forall|x: Seq<char>, y: Seq<char>, z: Seq<char>| #[trigger] r(x, y) && #[trigger] r(
            y,
            z,
        ) implies r(x, z) by {
            lemma_le_transitive(x, y, z);
        }
    }
    assert(strongly_connected(r)) by {
        assert forall|x: Seq<char>, y: Seq<char>| #[trigger] r(x, y) || #[trigger] r(y, x) by {
            lemma_le_connected(x, y);
        }
    }
}

/// Whether a text comes no later than another.
pub fn in_order(a: &str, b: &str) -> (r: bool)
    ensures
        r == text_le(a@, b@),
{
    let x = chars_of(a);
    let y = chars_of(b);
    let mut i: usize = 0;
    assert(a@.skip(0) =~= a@);
    assert(b@.skip(0) =~= b@);
    while i < x.len() && i < y.len()
        invariant
            i <= x@.len(),
            i <= y@.len(),
            x@ == a@,
            y@ == b@,
            text_le(a@, b@) == text_le(a@.skip(i as int), b@.skip(i as int)),
        decreases x@.len() - i,
    {
        proof {
            assert(a@.skip(i as int).skip(1) =~= a@.skip(i + 1));
            assert(b@.skip(i as int).skip(1) =~= b@.skip(i + 1));
        }
        if x[i] != y[i] {
            return x[i] < y[i];
        }
        i += 1;
    }
    i == x.len()
}

/// The texts in order.
pub open spec fn sorted_texts(s: Seq<Seq<char>>) -> Seq<Seq<char>> {
    s.sort_by(text_order())
}

/// Some texts in order.
pub fn sort_texts(v: Vec<String>) -> (r: Vec<String>)
    ensures
        texts(r@) == sorted_texts(texts(v@)),
{
    let ghost all = v@;
    let mut rest = v;
    let mut out: Vec<String> = Vec::new();
    proof {
        assert(texts(out@) =~= Seq::<Seq<char>>::empty());
        vstd::seq_lib::to_multiset_len(texts(out@));
        assert(texts(out@).to_multiset() =~= Multiset::empty());
        assert(texts(rest@).to_multiset().add(texts(out@).to_multiset())
            =~= texts(all).to_multiset());
    }
    while rest.len() > 0
        invariant
            sorted_by(texts(out@), text_order()),
            texts(rest@).to_multiset().add(texts(out@).to_multiset()) == texts(all).to_multiset(),
        decreases rest@.len(),
    {
        let ghost before_rest = texts(rest@);
        let ghost before_out = texts(out@);
        if let Some(s) = rest.pop() {
            let ghost t = s@;
            proof {
                assert(before_rest =~= texts(rest@).push(t));
                vstd::seq_lib::to_multiset_build(texts(rest@), t);
            }
            place(&mut out, s);
            proof {
                assert(texts(rest@).to_multiset().add(texts(out@).to_multiset())
                    =~= before_rest.to_multiset().add(before_out.to_multiset()));
            }
        }
    }
    proof {
        lemma_text_order();
        assert(texts(rest@) =~= Seq::<Seq<char>>::empty());
        vstd::seq_lib::to_multiset_len(texts(rest@));
        assert(texts(rest@).to_multiset() =~= Multiset::empty());
        assert(texts(out@).to_multiset() =~= texts(all).to_multiset());
        texts(all).lemma_sort_by_ensures(text_order());
        vstd::seq_lib::lemma_sorted_unique(texts(out@), sorted_texts(texts(all)), text_order());
    }
    out
}

fn place(out: &mut Vec<String>, s: String)
    requires
        sorted_by(texts(old(out)@), text_order()),
    ensures
        sorted_by(texts(final(out)@), text_order()),
        texts(final(out)@).to_multiset() == texts(old(out)@).to_multiset().insert(s@),
{
    let ghost before = texts(out@);
    let ghost t = s@;
    let mut p: usize = out.len();
    while p > 0 && !in_order(out[p - 1].as_str(), s.as_str())
        invariant
            p <= out@.len(),
            texts(out@) == before,
            t == s@,
            forall|j: int| p <= j < before.len() ==> text_le(t, #[trigger] before[j]),
        decreases p,
    {
        proof {
            assert(before[p - 1] == out@[p - 1]@);
            lemma_le_connected(t, before[p - 1]);
        }
        p -= 1;
    }
    proof {
        if p > 0 {
            assert(before[p - 1] == out@[p - 1]@);
        }
    }
    out.insert(p, s);
    proof {
        let after = texts(out@);
        assert(after =~= before.insert(p as int, t));
        vstd::seq_lib::to_multiset_insert(before, p as int, t);
        let r = text_order();
        assert forall|i: int, j: int| 0 <= i < j < after.len() implies #[trigger] r(
            after[i],
            after[j],
        ) by {
            let i0 = if i < p { i } else { i - 1 };
            let j0 = if j < p { j } else { j - 1 };
            if i != p && j != p {
                assert(r(before[i0], before[j0]));
            } else if j == p {
                assert(text_le(before[p - 1], t));
                if i < p - 1 {
                    assert(r(before[i], before[p - 1]));
                    lemma_le_transitive(before[i], before[p - 1], t);
                }
            } else {
                assert(text_le(t, before[j0]));
            }
        }
    }
}

/// The first characters in which two texts differ decide which comes first, and a text
/// comes before its continuations.
pub proof fn texts_are_ordered_by_their_first_difference(
    common: Seq<char>,
    x: char,
    a: Seq<char>,
    y: char,
    b: Seq<char>,
)
    requires
        x != y,
    ensures
        text_le(common + seq![x] + a, common + seq![y] + b) <==> x < y,
        text_le(common, common + b),
        b.len() > 0 ==> !text_le(common + b, common),
    decreases common.len(),
{
    let p = common + seq![x] + a;
    let q = common + seq![y] + b;
    if common.len() == 0 {
        assert(p[0] == x && q[0] == y);
        assert(common + b =~= b);
    } else {
        let tail = common.skip(1);
        texts_are_ordered_by_their_first_difference(tail, x, a, y, b);
        assert(p.skip(1) =~= tail + seq![x] + a);
        assert(q.skip(1) =~= tail + seq![y] + b);
        assert((common + b).skip(1) =~= tail + b);
        assert((common + b)[0] == common[0]);
    }
}

/// Sorting gives the same texts, each as often, in order.
pub proof fn sorting_keeps_the_texts(s: Seq<Seq<char>>)
    ensures
        sorted_texts(s).to_multiset() == s.to_multiset(),
        forall|i: int, j: int|
            0 <= i < j < sorted_texts(s).len() ==> text_le(
                #[trigger] sorted_texts(s)[i],
                #[trigger] sorted_texts(s)[j],
            ),
{
    lemma_text_order();
    s.lemma_sort_by_ensures(text_order());
    let r = sorted_texts(s);
    assert forall|i: int, j: int| 0 <= i < j < r.len() implies text_le(
        #[trigger] r[i],
        #[trigger] r[j],
    ) by {
        assert(text_order()(r[i], r[j]));
    }
}


/// Sorting gives the same texts in order.
pub proof fn texts_are_sorted(v: Vec<String>, r: Vec<String>, i: int, j: int)
    requires
        call_ensures(sort_texts, (v,), r),
    ensures
        texts(r@).to_multiset() == texts(v@).to_multiset(),
        0 <= i < j < r@.len() ==> text_le(r@[i]@, r@[j]@),
{
    sorting_keeps_the_texts(texts(v@));
    assert(texts(r@).len() == r@.len());
    if 0 <= i < j < r@.len() {
        assert(texts(r@)[i] == r@[i]@ && texts(r@)[j] == r@[j]@);
    }
}


} // verus!

//! The order in which names are listed: character by character, the shorter of
//! two names first where one begins the other.

use vstd::prelude::*;
use vstd::relations::{sorted_by, total_ordering};
use crate::text::texts;

verus! {

/// Whether `a` comes before `b`, or is `b`, in dictionary order by code point.
pub open spec fn lex_le(a: Seq<char>, b: Seq<char>) -> bool
    decreases a.len(),
{
    if a.len() == 0 {
        true
    } else if b.len() == 0 {
        false
    } else if a[0] != b[0] {
        a[0] < b[0]
    } else {
        lex_le(a.drop_first(), b.drop_first())
    }
}

/// `lex_le` as a relation value.
pub open spec fn name_order() -> spec_fn(Seq<char>, Seq<char>) -> bool {
    |a: Seq<char>, b: Seq<char>| lex_le(a, b)
}

/// Every name is in order with itself.
pub proof fn lemma_lex_le_reflexive(a: Seq<char>)
    ensures
        lex_le(a, a),
    decreases a.len(),
{
    if a.len() > 0 {
        lemma_lex_le_reflexive(a.drop_first());
    }
}

/// Two names in order both ways are the same name.
pub proof fn lemma_lex_le_antisymmetric(a: Seq<char>, b: Seq<char>)
    requires
        lex_le(a, b),
        lex_le(b, a),
    ensures
        a == b,
    decreases a.len(),
{
    if a.len() == 0 {
        assert(a =~= b);
    } else {
        lemma_lex_le_antisymmetric(a.drop_first(), b.drop_first());
        assert(a =~= seq![a[0]] + a.drop_first());
        assert(b =~= seq![b[0]] + b.drop_first());
    }
}

/// Order carries over a name in the middle.
pub proof fn lemma_lex_le_transitive(a: Seq<char>, b: Seq<char>, c: Seq<char>)
    requires
        lex_le(a, b),
        lex_le(b, c),
    ensures
        lex_le(a, c),
    decreases a.len(),
{
    if a.len() > 0 && a[0] == b[0] && b[0] == c[0] {
        lemma_lex_le_transitive(a.drop_first(), b.drop_first(), c.drop_first());
    }
}

/// Any two names are in order one way or the other.
pub proof fn lemma_lex_le_connected(a: Seq<char>, b: Seq<char>)
    ensures
        lex_le(a, b) || lex_le(b, a),
    decreases a.len(),
{
    if a.len() > 0 && b.len() > 0 && a[0] == b[0] {
        lemma_lex_le_connected(a.drop_first(), b.drop_first());
    }
}

/// The order of names is a total order: a list of names has one sorted form.
pub proof fn lemma_name_order_total()
    ensures
        total_ordering(name_order()),
{
    let r = name_order();
    assert forall|x: Seq<char>| #[trigger] r(x, x) by {
        lemma_lex_le_reflexive(x);
    }
    assert forall|x: Seq<char>, y: Seq<char>| #[trigger] r(x, y) && #[trigger] r(y, x) implies x
        == y by {
        lemma_lex_le_antisymmetric(x, y);
    }
    assert forall|x: Seq<char>, y: Seq<char>, z: Seq<char>| #[trigger]
        r(x, y) && #[trigger] r(y, z) implies r(x, z) by {
        lemma_lex_le_transitive(x, y, z);
    }
    assert forall|x: Seq<char>, y: Seq<char>| #[trigger] r(x, y) || #[trigger] r(y, x) by {
        lemma_lex_le_connected(x, y);
    }
}

/// Whether `a` comes before `b`, or is `b`, in the order of names.
pub fn text_le(a: &Vec<char>, b: &Vec<char>) -> (r: bool)
    ensures
        r == lex_le(a@, b@),
{
    let mut i: usize = 0;
    assert(a@.skip(0) == a@);
    assert(b@.skip(0) == b@);
    while i < a.len() && i < b.len()
        invariant
            i <= a.len(),
            i <= b.len(),
            lex_le(a@, b@) == lex_le(a@.skip(i as int), b@.skip(i as int)),
        decreases a.len() - i,
    {
        if a[i] != b[i] {
            return a[i] < b[i];
        }
        proof {
            assert(a@.skip(i as int).drop_first() == a@.skip(i + 1));
            assert(b@.skip(i as int).drop_first() == b@.skip(i + 1));
        }
        i += 1;
    }
    i == a.len()
}

/// Sorts names into their order.
pub fn sort_texts(names: Vec<Vec<char>>) -> (out: Vec<Vec<char>>)
    ensures
        texts(out@) == texts(names@).sort_by(name_order()),
{
    broadcast use {vstd::seq_lib::group_to_multiset_ensures, vstd::multiset::group_multiset_axioms};

    let ghost given = texts(names@);
    let mut rest = names;
    let mut out: Vec<Vec<char>> = Vec::new();
    while rest.len() > 0
        invariant
            sorted_by(texts(out@), name_order()),
            texts(out@).to_multiset().add(texts(rest@).to_multiset()) == given.to_multiset(),
        decreases rest.len(),
    {
        let ghost rest_before = texts(rest@);
        let ghost out_before = texts(out@);
        let item = rest.pop().unwrap();
        let ghost name = item@;
        assert(rest_before == texts(rest@).push(name));
        let mut pos: usize = 0;
        while pos < out.len() && text_le(&out[pos], &item)
            invariant
                pos <= out.len(),
                out_before == texts(out@),
                forall|j: int| 0 <= j < pos ==> lex_le(out_before[j], item@),
            decreases out.len() - pos,
        {
            pos += 1;
        }
        out.insert(pos, item);
        proof {
            let out_after = texts(out@);
            assert(out_after == out_before.insert(pos as int, name));
            assert forall|k: int| pos <= k < out_before.len() implies lex_le(
                name,
                out_before[k],
            ) by {
                lemma_lex_le_connected(name, out_before[pos as int]);
                if k > pos {
                    assert(name_order()(out_before[pos as int], out_before[k]));
                    lemma_lex_le_transitive(name, out_before[pos as int], out_before[k]);
                }
            }
            assert forall|i: int, j: int| 0 <= i < j < out_after.len() implies name_order()(
                out_after[i],
                out_after[j],
            ) by {
                if i == pos {
                    assert(out_after[j] == out_before[j - 1]);
                } else if j == pos {
                    assert(out_after[i] == out_before[i]);
                } else {
                    let bi = if i < pos { i } else { i - 1 };
                    let bj = if j < pos { j } else { j - 1 };
                    assert(out_after[i] == out_before[bi]);
                    assert(out_after[j] == out_before[bj]);
                    assert(name_order()(out_before[bi], out_before[bj]));
                }
            }
            vstd::seq_lib::to_multiset_insert(out_before, pos as int, name);
            vstd::seq_lib::to_multiset_build(texts(rest@), name);
            assert(out_after.to_multiset().add(texts(rest@).to_multiset())
                =~= out_before.to_multiset().add(rest_before.to_multiset()));
        }
    }
    proof {
        assert(texts(rest@) =~= Seq::<Seq<char>>::empty());
        assert(texts(out@).to_multiset() =~= given.to_multiset());
        lemma_name_order_total();
        given.lemma_sort_by_ensures(name_order());
        vstd::seq_lib::lemma_sorted_unique(
            texts(out@),
            given.sort_by(name_order()),
            name_order(),
        );
    }
    out
}

} // verus!

//! Stable sorting of records by key.

use vstd::prelude::*;
use crate::record::{models, Record};
use crate::text::{
    lemma_str_lt_asymmetric, lemma_str_lt_irreflexive, lemma_str_lt_total,
    lemma_str_lt_transitive, str_less, str_lt,
};

verus! {

/// No element's key sorts before the key of an element in front of it.
pub open spec fn keys_nondescending<T: Record>(s: Seq<T::Model>) -> bool {
    forall|i: int, j: int|
        0 <= i < j < s.len() ==> !str_lt(T::key_of(#[trigger] s[j]), T::key_of(#[trigger] s[i]))
}

/// The first position of `s` whose key does not sort before `key`.
pub open spec fn insert_position<T: Record>(s: Seq<T::Model>, key: Seq<char>) -> int
    decreases s.len(),
{
    if s.len() == 0 || !str_lt(T::key_of(s[0]), key) {
        0
    } else {
        1 + insert_position::<T>(s.drop_first(), key)
    }
}

/// The elements of `s` by ascending key; elements with the same key keep the
/// order they have in `s`.
pub open spec fn sorted_by_key<T: Record>(s: Seq<T::Model>) -> Seq<T::Model>
    decreases s.len(),
{
    if s.len() == 0 {
        s
    } else {
        let rest = sorted_by_key::<T>(s.drop_first());
        rest.insert(insert_position::<T>(rest, T::key_of(s[0])), s[0])
    }
}

/// Where [`insert_position`] points: behind every key that sorts before
/// `key`, and in front of one that does not.
pub proof fn lemma_insert_position<T: Record>(s: Seq<T::Model>, key: Seq<char>)
    ensures
        0 <= insert_position::<T>(s, key) <= s.len(),
        forall|i: int|
            0 <= i < insert_position::<T>(s, key) ==> str_lt(T::key_of(#[trigger] s[i]), key),
        insert_position::<T>(s, key) < s.len() ==> !str_lt(
            T::key_of(s[insert_position::<T>(s, key)]),
            key,
        ),
    decreases s.len(),
{
    if s.len() > 0 && str_lt(T::key_of(s[0]), key) {
        let rest = s.drop_first();
        lemma_insert_position::<T>(rest, key);
        let p = insert_position::<T>(s, key);
        assert forall|i: int| 0 <= i < p implies str_lt(T::key_of(#[trigger] s[i]), key) by {
            if i > 0 {
                assert(s[i] == rest[i - 1]);
            }
        }
        if p < s.len() {
            assert(s[p] == rest[p - 1]);
        }
    }
}

/// Sorting keeps the length.
pub proof fn lemma_sorted_len<T: Record>(s: Seq<T::Model>)
    ensures
        sorted_by_key::<T>(s).len() == s.len(),
    decreases s.len(),
{
    if s.len() > 0 {
        lemma_sorted_len::<T>(s.drop_first());
        lemma_insert_position::<T>(sorted_by_key::<T>(s.drop_first()), T::key_of(s[0]));
    }
}

/// The result of sorting is in order.
pub proof fn lemma_sorted_in_order<T: Record>(s: Seq<T::Model>)
    ensures
        keys_nondescending::<T>(sorted_by_key::<T>(s)),
    decreases s.len(),
{
    if s.len() > 0 {
        let rest = sorted_by_key::<T>(s.drop_first());
        let key = T::key_of(s[0]);
        let p = insert_position::<T>(rest, key);
        lemma_sorted_in_order::<T>(s.drop_first());
        lemma_insert_position::<T>(rest, key);
        let out = rest.insert(p, s[0]);
        assert forall|i: int, j: int| 0 <= i < j < out.len() implies !str_lt(
            T::key_of(#[trigger] out[j]),
            T::key_of(#[trigger] out[i]),
        ) by {
            let a = if i < p { i } else { i - 1 };
            let b = if j < p { j } else { j - 1 };
            if i == p {
                assert(out[j] == rest[b]);
                let kj = T::key_of(rest[b]);
                let kp = T::key_of(rest[p]);
                if str_lt(kj, key) {
                    lemma_str_lt_total(kp, key);
                    if str_lt(key, kp) {
                        lemma_str_lt_transitive(kj, key, kp);
                    }
                    assert(b == p || !str_lt(T::key_of(rest[b]), T::key_of(rest[p])));
                }
            } else if j == p {
                assert(out[i] == rest[a]);
                lemma_str_lt_asymmetric(T::key_of(rest[a]), key);
            } else {
                assert(out[i] == rest[a] && out[j] == rest[b]);
            }
        }
    }
}

/// Sorting neither adds nor drops an element.
pub proof fn lemma_sorted_permutes<T: Record>(s: Seq<T::Model>)
    ensures
        sorted_by_key::<T>(s).to_multiset() == s.to_multiset(),
    decreases s.len(),
{
    broadcast use vstd::seq_lib::group_to_multiset_ensures;

    if s.len() > 0 {
        let rest = sorted_by_key::<T>(s.drop_first());
        let p = insert_position::<T>(rest, T::key_of(s[0]));
        lemma_sorted_permutes::<T>(s.drop_first());
        lemma_insert_position::<T>(rest, T::key_of(s[0]));
        assert(s =~= s.drop_first().insert(0, s[0]));
        assert(rest.insert(p, s[0]).to_multiset() == rest.to_multiset().insert(s[0]));
        assert(s.drop_first().insert(0, s[0]).to_multiset() == s.drop_first().to_multiset().insert(
            s[0],
        ));
    }
}

/// The test "is filed under `key`".
pub open spec fn filed_under<T: Record>(key: Seq<char>) -> spec_fn(T::Model) -> bool {
    |m: T::Model| T::key_of(m) == key
}

/// Filtering a one-element sequence keeps the element or nothing.
proof fn lemma_filter_one<A>(x: A, pred: spec_fn(A) -> bool)
    ensures
        seq![x].filter(pred) == if pred(x) {
            seq![x]
        } else {
            Seq::<A>::empty()
        },
{
    reveal_with_fuel(Seq::filter, 2);
    assert(seq![x].drop_last() =~= Seq::<A>::empty());
    assert(seq![x].last() == x);
    assert(Seq::<A>::empty().push(x) =~= seq![x]);
}

/// A sequence without a match filters to nothing.
proof fn lemma_filter_none<A>(s: Seq<A>, pred: spec_fn(A) -> bool)
    requires
        forall|i: int| 0 <= i < s.len() ==> !pred(#[trigger] s[i]),
    ensures
        s.filter(pred) == Seq::<A>::empty(),
{
    if s.filter(pred).len() > 0 {
        let x = s.filter(pred)[0];
        s.lemma_filter_pred(pred, 0);
        assert(s.filter(pred).contains(x));
        s.lemma_filter_contains_rev(pred, x);
        let i = choose|i: int| 0 <= i < s.len() && s[i] == x;
        assert(!pred(s[i]));
    }
    assert(s.filter(pred) =~= Seq::<A>::empty());
}

/// Sorting is stable: the elements filed under any one key come out in the
/// order in which they went in.
pub proof fn lemma_sorted_stable<T: Record>(s: Seq<T::Model>, key: Seq<char>)
    ensures
        sorted_by_key::<T>(s).filter(filed_under::<T>(key)) == s.filter(filed_under::<T>(key)),
    decreases s.len(),
{
    let wanted = filed_under::<T>(key);
    if s.len() > 0 {
        let tail = s.drop_first();
        let rest = sorted_by_key::<T>(tail);
        let k0 = T::key_of(s[0]);
        let p = insert_position::<T>(rest, k0);
        lemma_sorted_stable::<T>(tail, key);
        lemma_insert_position::<T>(rest, k0);
        let front = rest.take(p);
        let back = rest.skip(p);
        let one = seq![s[0]];
        assert(rest =~= front + back);
        assert(rest.insert(p, s[0]) =~= (front + one) + back);
        assert(s =~= one + tail);
        Seq::filter_distributes_over_add(front, back, wanted);
        Seq::filter_distributes_over_add(front, one, wanted);
        Seq::filter_distributes_over_add(front + one, back, wanted);
        Seq::filter_distributes_over_add(one, tail, wanted);
        lemma_filter_one(s[0], wanted);
        if k0 == key {
            assert forall|i: int| 0 <= i < front.len() implies !wanted(#[trigger] front[i]) by {
                assert(front[i] == rest[i]);
                lemma_str_lt_irreflexive(key);
            }
            lemma_filter_none(front, wanted);
            assert(sorted_by_key::<T>(s).filter(wanted) =~= one + rest.filter(wanted));
        } else {
            assert(sorted_by_key::<T>(s).filter(wanted) =~= rest.filter(wanted));
        }
    }
}

/// The keys of a sequence, in the same order.
pub open spec fn keys_of<T: Record>(s: Seq<T::Model>) -> Seq<Seq<char>> {
    Seq::new(s.len(), |i: int| T::key_of(s[i]))
}

/// Where an element is inserted depends on the keys alone.
proof fn lemma_insert_position_by_keys<T: Record>(
    a: Seq<T::Model>,
    b: Seq<T::Model>,
    key: Seq<char>,
)
    requires
        keys_of::<T>(a) == keys_of::<T>(b),
    ensures
        insert_position::<T>(a, key) == insert_position::<T>(b, key),
    decreases a.len(),
{
    assert(a.len() == keys_of::<T>(a).len() && b.len() == keys_of::<T>(b).len());
    if a.len() > 0 {
        assert(T::key_of(a[0]) == keys_of::<T>(a)[0]);
        assert(T::key_of(b[0]) == keys_of::<T>(b)[0]);
        assert(keys_of::<T>(a.drop_first()) =~= keys_of::<T>(a).drop_first());
        assert(keys_of::<T>(b.drop_first()) =~= keys_of::<T>(b).drop_first());
        lemma_insert_position_by_keys::<T>(a.drop_first(), b.drop_first(), key);
    }
}

/// The order that sorting gives depends on the keys alone: two sequences
/// with the same keys in the same places come out with the same keys in the
/// same places.
pub proof fn lemma_sorted_by_keys_alone<T: Record>(a: Seq<T::Model>, b: Seq<T::Model>)
    requires
        keys_of::<T>(a) == keys_of::<T>(b),
    ensures
        keys_of::<T>(sorted_by_key::<T>(a)) == keys_of::<T>(sorted_by_key::<T>(b)),
    decreases a.len(),
{
    assert(a.len() == keys_of::<T>(a).len() && b.len() == keys_of::<T>(b).len());
    if a.len() > 0 {
        assert(T::key_of(a[0]) == keys_of::<T>(a)[0]);
        assert(T::key_of(b[0]) == keys_of::<T>(b)[0]);
        assert(keys_of::<T>(a.drop_first()) =~= keys_of::<T>(a).drop_first());
        assert(keys_of::<T>(b.drop_first()) =~= keys_of::<T>(b).drop_first());
        lemma_sorted_by_keys_alone::<T>(a.drop_first(), b.drop_first());
        let ra = sorted_by_key::<T>(a.drop_first());
        let rb = sorted_by_key::<T>(b.drop_first());
        let key = T::key_of(a[0]);
        lemma_insert_position_by_keys::<T>(ra, rb, key);
        lemma_insert_position::<T>(ra, key);
        lemma_insert_position::<T>(rb, key);
        let p = insert_position::<T>(ra, key);
        assert(ra.len() == keys_of::<T>(ra).len() && rb.len() == keys_of::<T>(rb).len());
        assert(keys_of::<T>(ra.insert(p, a[0])) =~= keys_of::<T>(ra).insert(p, key));
        assert(keys_of::<T>(rb.insert(p, b[0])) =~= keys_of::<T>(rb).insert(p, key));
    } else {
        assert(keys_of::<T>(sorted_by_key::<T>(a)) =~= keys_of::<T>(sorted_by_key::<T>(b)));
    }
}

/// What a filter keeps depends on the test's answers alone: two sequences
/// with the same keys and the same answers in the same places are left with
/// the same keys in the same places.
pub proof fn lemma_filter_by_answers_alone<T: Record>(
    a: Seq<T::Model>,
    b: Seq<T::Model>,
    wanted: spec_fn(T::Model) -> bool,
)
    requires
        keys_of::<T>(a) == keys_of::<T>(b),
        forall|i: int| 0 <= i < a.len() ==> wanted(#[trigger] a[i]) == wanted(b[i]),
    ensures
        keys_of::<T>(a.filter(wanted)) == keys_of::<T>(b.filter(wanted)),
    decreases a.len(),
{
    reveal(Seq::filter);
    assert(a.len() == keys_of::<T>(a).len() && b.len() == keys_of::<T>(b).len());
    if a.len() > 0 {
        let n = a.len() - 1;
        assert(T::key_of(a[n]) == keys_of::<T>(a)[n]);
        assert(T::key_of(b[n]) == keys_of::<T>(b)[n]);
        assert(keys_of::<T>(a.drop_last()) =~= keys_of::<T>(a).drop_last());
        assert(keys_of::<T>(b.drop_last()) =~= keys_of::<T>(b).drop_last());
        assert forall|i: int| 0 <= i < a.drop_last().len() implies wanted(
            #[trigger] a.drop_last()[i],
        ) == wanted(b.drop_last()[i]) by {
            assert(a.drop_last()[i] == a[i]);
            assert(b.drop_last()[i] == b[i]);
        }
        lemma_filter_by_answers_alone::<T>(a.drop_last(), b.drop_last(), wanted);
        let fa = a.drop_last().filter(wanted);
        let fb = b.drop_last().filter(wanted);
        assert(fa.len() == keys_of::<T>(fa).len() && fb.len() == keys_of::<T>(fb).len());
        assert(wanted(a[n]) == wanted(b[n]));
        if wanted(a[n]) {
            assert(keys_of::<T>(fa.push(a[n])) =~= keys_of::<T>(fa).push(T::key_of(a[n])));
            assert(keys_of::<T>(fb.push(b[n])) =~= keys_of::<T>(fb).push(T::key_of(b[n])));
        }
    } else {
        assert(keys_of::<T>(a.filter(wanted)) =~= keys_of::<T>(b.filter(wanted)));
    }
}

/// The place in `sorted` at which a record with key `key` is inserted.
fn position<T: Record>(sorted: &Vec<T>, key: &str) -> (at: usize)
    ensures
        at == insert_position::<T>(models(sorted@), key@),
        at <= sorted@.len(),
{
    let ghost s = models(sorted@);
    let mut at: usize = 0;
    assert(s.skip(0) =~= s);
    while at < sorted.len() && str_less(sorted[at].key().as_str(), key)
        invariant
            s == models(sorted@),
            at <= s.len(),
            insert_position::<T>(s, key@) == at + insert_position::<T>(s.skip(at as int), key@),
        decreases s.len() - at,
    {
        assert(s.skip(at as int).drop_first() =~= s.skip(at as int + 1));
        assert(s.skip(at as int)[0] == s[at as int]);
        at += 1;
    }
    proof {
        if at < s.len() {
            assert(s.skip(at as int)[0] == s[at as int]);
        }
    }
    at
}

/// Sorts records by key, keeping the order of records with the same key.
pub fn sort_by_key<T: Record>(items: Vec<T>) -> (sorted: Vec<T>)
    ensures
        models(sorted@) == sorted_by_key::<T>(models(items@)),
{
    let ghost all = models(items@);
    let mut rest = items;
    let mut sorted: Vec<T> = Vec::new();
    assert(all.skip(all.len() as int) =~= Seq::<T::Model>::empty());
    assert(models(sorted@) =~= Seq::<T::Model>::empty());
    while rest.len() > 0
        invariant
            rest@.len() <= all.len(),
            models(rest@) == all.take(rest@.len() as int),
            models(sorted@) == sorted_by_key::<T>(all.skip(rest@.len() as int)),
        decreases rest@.len(),
    {
        let ghost n = rest@.len() as int;
        let ghost before = models(sorted@);
        let item = rest.pop().unwrap();
        let at = position(&sorted, item.key().as_str());
        proof {
            assert(item.model() == all.take(n)[n - 1]);
            assert(all.skip(n - 1).drop_first() =~= all.skip(n));
            assert(all.skip(n - 1)[0] == all[n - 1]);
            assert(models(rest@) =~= all.take(n - 1));
        }
        sorted.insert(at, item);
        assert(models(sorted@) =~= before.insert(at as int, all[n - 1]));
    }
    assert(all.skip(0) =~= all);
    sorted
}

} // verus!

//! An ordered store of records, one per key.
//!
//! The store keeps its records in ascending key order, so that a snapshot
//! lists them in the same order whenever the contents are the same.

use vstd::prelude::*;
use crate::record::{duplicate_all, models, Record};
use crate::text::{
    lemma_str_lt_irreflexive, lemma_str_lt_total, lemma_str_lt_transitive, str_less, str_lt,
};

verus! {

/// Keys strictly ascend along the sequence; in particular no key occurs twice.
pub open spec fn keys_ascending<T: Record>(s: Seq<T::Model>) -> bool {
    forall|i: int, j: int|
        0 <= i < j < s.len() ==> str_lt(T::key_of(#[trigger] s[i]), T::key_of(#[trigger] s[j]))
}

/// Some element of the sequence is filed under `key`.
pub open spec fn has_key<T: Record>(s: Seq<T::Model>, key: Seq<char>) -> bool {
    exists|i: int| 0 <= i < s.len() && T::key_of(#[trigger] s[i]) == key
}

/// The position of an element filed under `key`.
pub open spec fn index_of_key<T: Record>(s: Seq<T::Model>, key: Seq<char>) -> int {
    choose|i: int| 0 <= i < s.len() && T::key_of(#[trigger] s[i]) == key
}

/// The sequence read as a map from key to element.
pub open spec fn as_map<T: Record>(s: Seq<T::Model>) -> Map<Seq<char>, T::Model> {
    Map::new(|key: Seq<char>| has_key::<T>(s, key), |key: Seq<char>| s[index_of_key::<T>(s, key)])
}

/// In an ascending sequence each key leads back to its own element.
pub proof fn lemma_lookup<T: Record>(s: Seq<T::Model>, i: int)
    requires
        keys_ascending::<T>(s),
        0 <= i < s.len(),
    ensures
        has_key::<T>(s, T::key_of(s[i])),
        index_of_key::<T>(s, T::key_of(s[i])) == i,
        as_map::<T>(s).contains_pair(T::key_of(s[i]), s[i]),
{
    let key = T::key_of(s[i]);
    let j = index_of_key::<T>(s, key);
    lemma_str_lt_irreflexive(key);
    if j < i {
        assert(str_lt(T::key_of(s[j]), T::key_of(s[i])));
    } else if i < j {
        assert(str_lt(T::key_of(s[i]), T::key_of(s[j])));
    }
}

/// A key that sorts strictly between two neighbours is absent.
pub proof fn lemma_absent<T: Record>(s: Seq<T::Model>, key: Seq<char>, at: int)
    requires
        keys_ascending::<T>(s),
        0 <= at <= s.len(),
        forall|i: int| 0 <= i < at ==> str_lt(T::key_of(#[trigger] s[i]), key),
        forall|i: int| at <= i < s.len() ==> str_lt(key, T::key_of(#[trigger] s[i])),
    ensures
        !has_key::<T>(s, key),
{
    lemma_str_lt_irreflexive(key);
}

/// Inserting at the place where the key belongs adds one pair to the map.
pub proof fn lemma_insert<T: Record>(s: Seq<T::Model>, at: int, m: T::Model)
    requires
        keys_ascending::<T>(s),
        0 <= at <= s.len(),
        forall|i: int| 0 <= i < at ==> str_lt(T::key_of(#[trigger] s[i]), T::key_of(m)),
        forall|i: int| at <= i < s.len() ==> str_lt(T::key_of(m), T::key_of(#[trigger] s[i])),
    ensures
        keys_ascending::<T>(s.insert(at, m)),
        as_map::<T>(s.insert(at, m)) == as_map::<T>(s).insert(T::key_of(m), m),
{
    let t = s.insert(at, m);
    let key = T::key_of(m);
    assert forall|i: int, j: int| 0 <= i < j < t.len() implies str_lt(
        T::key_of(#[trigger] t[i]),
        T::key_of(#[trigger] t[j]),
    ) by {
        let a = if i < at { i } else { i - 1 };
        let b = if j < at { j } else { j - 1 };
        if i != at && j != at {
            assert(t[i] == s[a] && t[j] == s[b]);
        } else if i == at {
            assert(t[j] == s[b]);
        } else {
            assert(t[i] == s[a]);
        }
    }
    lemma_absent::<T>(s, key, at);
    assert forall|k: Seq<char>| #[trigger] as_map::<T>(t).dom().contains(k) <==> as_map::<T>(
        s,
    ).insert(key, m).dom().contains(k) by {
        if has_key::<T>(t, k) {
            let i = index_of_key::<T>(t, k);
            if i < at {
                assert(t[i] == s[i]);
            } else if i > at {
                assert(t[i] == s[i - 1]);
            }
        }
        if k == key {
            assert(t[at] == m);
        } else if has_key::<T>(s, k) {
            let i = index_of_key::<T>(s, k);
            if i < at {
                assert(t[i] == s[i]);
            } else {
                assert(t[i + 1] == s[i]);
            }
        }
    }
    assert forall|k: Seq<char>| #[trigger] as_map::<T>(t).dom().contains(k) implies as_map::<T>(
        t,
    )[k] == as_map::<T>(s).insert(key, m)[k] by {
        let i = index_of_key::<T>(t, k);
        lemma_lookup::<T>(t, i);
        if i < at {
            assert(t[i] == s[i]);
            lemma_lookup::<T>(s, i);
        } else if i > at {
            assert(t[i] == s[i - 1]);
            lemma_lookup::<T>(s, i - 1);
        }
    }
    assert(as_map::<T>(t) =~= as_map::<T>(s).insert(key, m));
}

/// Replacing an element by one with the same key overwrites one pair of the map.
pub proof fn lemma_update<T: Record>(s: Seq<T::Model>, at: int, m: T::Model)
    requires
        keys_ascending::<T>(s),
        0 <= at < s.len(),
        T::key_of(s[at]) == T::key_of(m),
    ensures
        keys_ascending::<T>(s.update(at, m)),
        as_map::<T>(s.update(at, m)) == as_map::<T>(s).insert(T::key_of(m), m),
{
    let t = s.update(at, m);
    let key = T::key_of(m);
    assert forall|i: int, j: int| 0 <= i < j < t.len() implies str_lt(
        T::key_of(#[trigger] t[i]),
        T::key_of(#[trigger] t[j]),
    ) by {
        assert(T::key_of(t[i]) == T::key_of(s[i]));
        assert(T::key_of(t[j]) == T::key_of(s[j]));
    }
    assert forall|k: Seq<char>| #[trigger] as_map::<T>(t).dom().contains(k) <==> as_map::<T>(
        s,
    ).insert(key, m).dom().contains(k) by {
        if has_key::<T>(t, k) {
            let i = index_of_key::<T>(t, k);
            assert(T::key_of(t[i]) == T::key_of(s[i]));
        }
        if k == key {
            assert(t[at] == m);
        } else if has_key::<T>(s, k) {
            let i = index_of_key::<T>(s, k);
            assert(t[i] == s[i]);
        }
    }
    assert forall|k: Seq<char>| #[trigger] as_map::<T>(t).dom().contains(k) implies as_map::<T>(
        t,
    )[k] == as_map::<T>(s).insert(key, m)[k] by {
        let i = index_of_key::<T>(t, k);
        lemma_lookup::<T>(t, i);
        if i != at {
            assert(t[i] == s[i]);
            lemma_lookup::<T>(s, i);
            lemma_lookup::<T>(s, at);
        }
    }
    assert(as_map::<T>(t) =~= as_map::<T>(s).insert(key, m));
}

/// Taking an element out removes its pair from the map.
pub proof fn lemma_remove<T: Record>(s: Seq<T::Model>, at: int)
    requires
        keys_ascending::<T>(s),
        0 <= at < s.len(),
    ensures
        keys_ascending::<T>(s.remove(at)),
        as_map::<T>(s.remove(at)) == as_map::<T>(s).remove(T::key_of(s[at])),
{
    let t = s.remove(at);
    let key = T::key_of(s[at]);
    assert forall|i: int, j: int| 0 <= i < j < t.len() implies str_lt(
        T::key_of(#[trigger] t[i]),
        T::key_of(#[trigger] t[j]),
    ) by {
        let a = if i < at { i } else { i + 1 };
        let b = if j < at { j } else { j + 1 };
        assert(t[i] == s[a] && t[j] == s[b]);
    }
    assert forall|k: Seq<char>| #[trigger] as_map::<T>(t).dom().contains(k) <==> as_map::<T>(
        s,
    ).remove(key).dom().contains(k) by {
        if has_key::<T>(t, k) {
            let i = index_of_key::<T>(t, k);
            let a = if i < at { i } else { i + 1 };
            assert(t[i] == s[a]);
            lemma_lookup::<T>(s, a);
            lemma_lookup::<T>(s, at);
        }
        if k != key && has_key::<T>(s, k) {
            let i = index_of_key::<T>(s, k);
            if i < at {
                assert(t[i] == s[i]);
            } else {
                assert(t[i - 1] == s[i]);
            }
        }
    }
    assert forall|k: Seq<char>| #[trigger] as_map::<T>(t).dom().contains(k) implies as_map::<T>(
        t,
    )[k] == as_map::<T>(s).remove(key)[k] by {
        let i = index_of_key::<T>(t, k);
        lemma_lookup::<T>(t, i);
        let a = if i < at { i } else { i + 1 };
        assert(t[i] == s[a]);
        lemma_lookup::<T>(s, a);
    }
    assert(as_map::<T>(t) =~= as_map::<T>(s).remove(key));
}

/// Files `m` into an ascending sequence: in place of the element with the
/// same key if there is one, else at the place where its key belongs.
pub open spec fn put<T: Record>(s: Seq<T::Model>, m: T::Model) -> Seq<T::Model>
    decreases s.len(),
{
    if s.len() == 0 {
        seq![m]
    } else if T::key_of(s.last()) == T::key_of(m) {
        s.drop_last().push(m)
    } else if str_lt(T::key_of(s.last()), T::key_of(m)) {
        s.push(m)
    } else {
        put::<T>(s.drop_last(), m).push(s.last())
    }
}

/// Files the elements of `batch` one after another, first to last.
pub open spec fn put_all<T: Record>(s: Seq<T::Model>, batch: Seq<T::Model>) -> Seq<T::Model>
    decreases batch.len(),
{
    if batch.len() == 0 {
        s
    } else {
        put::<T>(put_all::<T>(s, batch.drop_last()), batch.last())
    }
}

/// The sequence without the element filed under `key`, if there is one.
pub open spec fn take_out<T: Record>(s: Seq<T::Model>, key: Seq<char>) -> Seq<T::Model> {
    if has_key::<T>(s, key) {
        s.remove(index_of_key::<T>(s, key))
    } else {
        s
    }
}

/// Two ascending sequences that read as the same map are the same sequence.
pub proof fn lemma_listing_unique<T: Record>(a: Seq<T::Model>, b: Seq<T::Model>)
    requires
        keys_ascending::<T>(a),
        keys_ascending::<T>(b),
        as_map::<T>(a) == as_map::<T>(b),
    ensures
        a == b,
    decreases a.len(),
{
    if a.len() == 0 {
        if b.len() > 0 {
            lemma_lookup::<T>(b, 0);
            assert(as_map::<T>(a).dom().contains(T::key_of(b[0])));
        }
        assert(a =~= b);
    } else {
        let la = a.len() - 1;
        lemma_lookup::<T>(a, la);
        assert(as_map::<T>(b).dom().contains(T::key_of(a[la])));
        let lb = b.len() - 1;
        lemma_lookup::<T>(b, lb);
        assert(as_map::<T>(a).dom().contains(T::key_of(b[lb])));
        let ja = index_of_key::<T>(a, T::key_of(b[lb]));
        let jb = index_of_key::<T>(b, T::key_of(a[la]));
        if ja < la {
            assert(str_lt(T::key_of(a[ja]), T::key_of(a[la])));
            if jb < lb {
                assert(str_lt(T::key_of(b[jb]), T::key_of(b[lb])));
                lemma_str_lt_transitive(T::key_of(b[lb]), T::key_of(a[la]), T::key_of(b[lb]));
                lemma_str_lt_irreflexive(T::key_of(b[lb]));
            } else {
                lemma_str_lt_irreflexive(T::key_of(a[la]));
            }
        }
        assert(T::key_of(a[la]) == T::key_of(b[lb]));
        assert(a[la] == b[lb]);
        lemma_remove::<T>(a, la);
        lemma_remove::<T>(b, lb);
        assert(a.remove(la) =~= a.drop_last());
        assert(b.remove(lb) =~= b.drop_last());
        lemma_listing_unique::<T>(a.drop_last(), b.drop_last());
        assert(a =~= a.drop_last().push(a[la]));
        assert(b =~= b.drop_last().push(b[lb]));
    }
}

/// Filing keeps the order, and writes exactly one pair of the map.
pub proof fn lemma_put<T: Record>(s: Seq<T::Model>, m: T::Model)
    requires
        keys_ascending::<T>(s),
    ensures
        keys_ascending::<T>(put::<T>(s, m)),
        as_map::<T>(put::<T>(s, m)) == as_map::<T>(s).insert(T::key_of(m), m),
    decreases s.len(),
{
    let key = T::key_of(m);
    if s.len() == 0 {
        lemma_insert::<T>(s, 0, m);
        assert(s.insert(0, m) =~= seq![m]);
    } else {
        let last = s.len() - 1;
        let top = T::key_of(s[last]);
        if top == key {
            lemma_update::<T>(s, last, m);
            assert(s.update(last, m) =~= s.drop_last().push(m));
        } else if str_lt(top, key) {
            assert forall|i: int| 0 <= i < s.len() implies str_lt(
                T::key_of(#[trigger] s[i]),
                key,
            ) by {
                if i < last {
                    lemma_str_lt_transitive(T::key_of(s[i]), top, key);
                }
            }
            lemma_insert::<T>(s, s.len() as int, m);
            assert(s.insert(s.len() as int, m) =~= s.push(m));
        } else {
            lemma_str_lt_total(top, key);
            let front = s.drop_last();
            assert(keys_ascending::<T>(front)) by {
                assert forall|i: int, j: int| 0 <= i < j < front.len() implies str_lt(
                    T::key_of(#[trigger] front[i]),
                    T::key_of(#[trigger] front[j]),
                ) by {
                    assert(front[i] == s[i] && front[j] == s[j]);
                }
            }
            lemma_put::<T>(front, m);
            let filed = put::<T>(front, m);
            assert forall|i: int| 0 <= i < filed.len() implies str_lt(
                T::key_of(#[trigger] filed[i]),
                top,
            ) by {
                lemma_lookup::<T>(filed, i);
                let k = T::key_of(filed[i]);
                if k != key {
                    assert(as_map::<T>(front).dom().contains(k));
                    let j = index_of_key::<T>(front, k);
                    assert(front[j] == s[j]);
                }
            }
            lemma_insert::<T>(filed, filed.len() as int, s[last]);
            assert(filed.insert(filed.len() as int, s[last]) =~= filed.push(s[last]));
            assert forall|i: int| 0 <= i < front.len() implies str_lt(
                T::key_of(#[trigger] front[i]),
                top,
            ) by {
                assert(front[i] == s[i]);
            }
            lemma_insert::<T>(front, front.len() as int, s[last]);
            assert(front.insert(front.len() as int, s[last]) =~= s);
            assert(as_map::<T>(front).insert(key, m).insert(top, s[last]) =~= as_map::<T>(
                front,
            ).insert(top, s[last]).insert(key, m));
        }
    }
}

/// Filing a batch keeps the order.
pub proof fn lemma_put_all_ascending<T: Record>(s: Seq<T::Model>, batch: Seq<T::Model>)
    requires
        keys_ascending::<T>(s),
    ensures
        keys_ascending::<T>(put_all::<T>(s, batch)),
    decreases batch.len(),
{
    if batch.len() > 0 {
        lemma_put_all_ascending::<T>(s, batch.drop_last());
        lemma_put::<T>(put_all::<T>(s, batch.drop_last()), batch.last());
    }
}

/// Filing twice under one key leaves what was filed last, as if the first
/// had never been filed.
pub proof fn lemma_put_overwrites<T: Record>(s: Seq<T::Model>, first: T::Model, second: T::Model)
    requires
        keys_ascending::<T>(s),
        T::key_of(first) == T::key_of(second),
    ensures
        put::<T>(put::<T>(s, first), second) == put::<T>(s, second),
        as_map::<T>(put::<T>(put::<T>(s, first), second)).contains_pair(T::key_of(second), second),
{
    let key = T::key_of(second);
    lemma_put::<T>(s, first);
    lemma_put::<T>(put::<T>(s, first), second);
    lemma_put::<T>(s, second);
    assert(as_map::<T>(s).insert(key, first).insert(key, second) =~= as_map::<T>(s).insert(
        key,
        second,
    ));
    lemma_listing_unique::<T>(put::<T>(put::<T>(s, first), second), put::<T>(s, second));
}

/// Filing under different keys can be done in either order.
pub proof fn lemma_put_commutes<T: Record>(s: Seq<T::Model>, a: T::Model, b: T::Model)
    requires
        keys_ascending::<T>(s),
        T::key_of(a) != T::key_of(b),
    ensures
        put::<T>(put::<T>(s, a), b) == put::<T>(put::<T>(s, b), a),
{
    lemma_put::<T>(s, a);
    lemma_put::<T>(put::<T>(s, a), b);
    lemma_put::<T>(s, b);
    lemma_put::<T>(put::<T>(s, b), a);
    assert(as_map::<T>(s).insert(T::key_of(a), a).insert(T::key_of(b), b) =~= as_map::<T>(
        s,
    ).insert(T::key_of(b), b).insert(T::key_of(a), a));
    lemma_listing_unique::<T>(put::<T>(put::<T>(s, a), b), put::<T>(put::<T>(s, b), a));
}

/// After filing, every element is the one just filed or one that was there
/// before, unchanged.
pub proof fn lemma_put_members<T: Record>(s: Seq<T::Model>, m: T::Model, i: int)
    requires
        0 <= i < put::<T>(s, m).len(),
    ensures
        put::<T>(s, m)[i] == m || s.contains(put::<T>(s, m)[i]),
    decreases s.len(),
{
    if s.len() > 0 {
        let last = s.len() - 1;
        if T::key_of(s[last]) == T::key_of(m) {
            if i < last {
                assert(put::<T>(s, m)[i] == s[i]);
            }
        } else if str_lt(T::key_of(s[last]), T::key_of(m)) {
            if i <= last {
                assert(put::<T>(s, m)[i] == s[i]);
            }
        } else {
            let filed = put::<T>(s.drop_last(), m);
            if i < filed.len() {
                lemma_put_members::<T>(s.drop_last(), m, i);
                if filed[i] != m {
                    let front = s.drop_last();
                    let j = choose|j: int| 0 <= j < front.len() && front[j] == filed[i];
                    assert(s[j] == filed[i]);
                }
            } else {
                assert(put::<T>(s, m)[i] == s[last]);
            }
        }
    }
}

/// After filing a batch, every element is one of the batch or one that was
/// there before, unchanged.
pub proof fn lemma_put_all_members<T: Record>(s: Seq<T::Model>, batch: Seq<T::Model>, i: int)
    requires
        0 <= i < put_all::<T>(s, batch).len(),
    ensures
        batch.contains(put_all::<T>(s, batch)[i]) || s.contains(put_all::<T>(s, batch)[i]),
    decreases batch.len(),
{
    if batch.len() > 0 {
        let front = put_all::<T>(s, batch.drop_last());
        let x = put_all::<T>(s, batch)[i];
        lemma_put_members::<T>(front, batch.last(), i);
        if x == batch.last() {
            assert(batch[batch.len() - 1] == x);
        } else {
            let j = choose|j: int| 0 <= j < front.len() && front[j] == x;
            lemma_put_all_members::<T>(s, batch.drop_last(), j);
            if batch.drop_last().contains(x) {
                let rest = batch.drop_last();
                let k = choose|k: int| 0 <= k < rest.len() && rest[k] == x;
                assert(batch[k] == x);
            }
        }
    }
}

/// Taking an element out keeps the order.
pub proof fn lemma_take_out_ascending<T: Record>(s: Seq<T::Model>, key: Seq<char>)
    requires
        keys_ascending::<T>(s),
    ensures
        keys_ascending::<T>(take_out::<T>(s, key)),
{
    if has_key::<T>(s, key) {
        lemma_remove::<T>(s, index_of_key::<T>(s, key));
    }
}

/// An ordered store of records, at most one per key.
#[derive(Debug)]
pub struct Registry<T: Record> {
    items: Vec<T>,
}

impl<T: Record> Registry<T> {
    /// The records are held in ascending key order.
    #[verifier::type_invariant]
    spec fn ordered(self) -> bool {
        keys_ascending::<T>(models(self.items@))
    }

    /// The stored records' models, in ascending key order.
    pub closed spec fn entries(&self) -> Seq<T::Model> {
        models(self.items@)
    }

    /// The store as a map from key to model.
    pub open spec fn view(&self) -> Map<Seq<char>, T::Model> {
        as_map::<T>(self.entries())
    }

    /// An empty store.
    pub fn new() -> (registry: Self)
        ensures
            registry.entries() == Seq::<T::Model>::empty(),
    {
        let registry = Registry { items: Vec::new() };
        assert(registry.entries() =~= Seq::<T::Model>::empty());
        registry
    }

    /// The number of stored records.
    pub fn len(&self) -> (n: usize)
        ensures
            n == self.entries().len(),
    {
        self.items.len()
    }

    /// The first position whose key does not sort before `key`.
    fn lower_bound(&self, key: &str) -> (at: usize)
        ensures
            at <= self.entries().len(),
            forall|i: int| 0 <= i < at ==> str_lt(T::key_of(#[trigger] self.entries()[i]), key@),
            forall|i: int|
                at <= i < self.entries().len() ==> !str_lt(
                    T::key_of(#[trigger] self.entries()[i]),
                    key@,
                ),
    {
        proof {
            use_type_invariant(self);
        }
        let ghost s = self.entries();
        let mut lo: usize = 0;
        let mut hi: usize = self.items.len();
        while lo < hi
            invariant
                s == models(self.items@),
                keys_ascending::<T>(s),
                lo <= hi <= s.len(),
                forall|i: int| 0 <= i < lo ==> str_lt(T::key_of(#[trigger] s[i]), key@),
                forall|i: int| hi <= i < s.len() ==> !str_lt(T::key_of(#[trigger] s[i]), key@),
            decreases hi - lo,
        {
            let mid = lo + (hi - lo) / 2;
            if str_less(self.items[mid].key().as_str(), key) {
                assert forall|i: int| 0 <= i < mid + 1 implies str_lt(
                    T::key_of(#[trigger] s[i]),
                    key@,
                ) by {
                    if i < mid {
                        lemma_str_lt_transitive(T::key_of(s[i]), T::key_of(s[mid as int]), key@);
                    }
                }
                lo = mid + 1;
            } else {
                assert forall|i: int| mid <= i < s.len() implies !str_lt(
                    T::key_of(#[trigger] s[i]),
                    key@,
                ) by {
                    if mid < i && str_lt(T::key_of(s[i]), key@) {
                        lemma_str_lt_transitive(T::key_of(s[mid as int]), T::key_of(s[i]), key@);
                    }
                }
                hi = mid;
            }
        }
        lo
    }

    /// The position of `key`, if a record is filed under it.
    fn find(&self, key: &str) -> (found: Option<usize>)
        ensures
            match found {
                Some(at) => at < self.entries().len() && T::key_of(self.entries()[at as int])
                    == key@,
                None => !has_key::<T>(self.entries(), key@),
            },
    {
        proof {
            use_type_invariant(self);
        }
        let at = self.lower_bound(key);
        if at < self.items.len() && !str_less(key, self.items[at].key().as_str()) {
            proof {
                lemma_str_lt_total(key@, T::key_of(self.entries()[at as int]));
            }
            Some(at)
        } else {
            proof {
                let s = self.entries();
                assert forall|i: int| at <= i < s.len() implies str_lt(
                    key@,
                    T::key_of(#[trigger] s[i]),
                ) by {
                    if at < i {
                        lemma_str_lt_transitive(key@, T::key_of(s[at as int]), T::key_of(s[i]));
                    }
                }
                lemma_absent::<T>(s, key@, at as int);
            }
            None
        }
    }

    /// Moves the records out, leaving the store empty.
    fn take_items(&mut self) -> (items: Vec<T>)
        ensures
            items == old(self).items,
    {
        let mut taken = Registry { items: Vec::new() };
        assert(models(taken.items@) =~= Seq::<T::Model>::empty());
        core::mem::swap(self, &mut taken);
        taken.items
    }

    /// Whether a record is filed under `key`.
    pub fn contains_key(&self, key: &str) -> (present: bool)
        ensures
            present == self@.dom().contains(key@),
    {
        self.find(key).is_some()
    }

    /// A copy of the record filed under `key`.
    pub fn get(&self, key: &str) -> (found: Option<T>)
        ensures
            match found {
                Some(record) => self@.contains_pair(key@, record.model()),
                None => !self@.dom().contains(key@),
            },
    {
        proof {
            use_type_invariant(self);
        }
        match self.find(key) {
            Some(at) => {
                proof {
                    lemma_lookup::<T>(self.entries(), at as int);
                }
                Some(self.items[at].duplicate())
            },
            None => None,
        }
    }

    /// Files `record` under its key, in place of whatever was filed there.
    /// Says whether a record was replaced.
    pub fn upsert(&mut self, record: T) -> (replaced: bool)
        ensures
            final(self).entries() == put::<T>(old(self).entries(), record.model()),
            final(self)@ == old(self)@.insert(T::key_of(record.model()), record.model()),
            replaced == old(self)@.dom().contains(T::key_of(record.model())),
            keys_ascending::<T>(final(self).entries()),
    {
        proof {
            use_type_invariant(&*self);
        }
        let ghost s = self.entries();
        let ghost m = record.model();
        let at = self.lower_bound(record.key().as_str());
        let present = at < self.items.len() && !str_less(
            record.key().as_str(),
            self.items[at].key().as_str(),
        );
        if present {
            proof {
                lemma_str_lt_total(T::key_of(m), T::key_of(s[at as int]));
                lemma_update::<T>(s, at as int, m);
                lemma_lookup::<T>(s, at as int);
            }
            let mut items = self.take_items();
            items.set(at, record);
            assert(models(items@) =~= s.update(at as int, m));
            *self = Registry { items };
            proof {
                lemma_put::<T>(s, m);
                lemma_listing_unique::<T>(self.entries(), put::<T>(s, m));
            }
        } else {
            proof {
                assert forall|i: int| at <= i < s.len() implies str_lt(
                    T::key_of(m),
                    T::key_of(#[trigger] s[i]),
                ) by {
                    lemma_str_lt_total(T::key_of(m), T::key_of(s[at as int]));
                    if at < i {
                        lemma_str_lt_transitive(
                            T::key_of(m),
                            T::key_of(s[at as int]),
                            T::key_of(s[i]),
                        );
                    }
                }
                lemma_absent::<T>(s, T::key_of(m), at as int);
                lemma_insert::<T>(s, at as int, m);
            }
            let mut items = self.take_items();
            items.insert(at, record);
            assert(models(items@) =~= s.insert(at as int, m));
            *self = Registry { items };
            proof {
                lemma_put::<T>(s, m);
                lemma_listing_unique::<T>(self.entries(), put::<T>(s, m));
            }
        }
        present
    }

    /// Takes out the record filed under `key`. Says whether there was one.
    pub fn remove(&mut self, key: &str) -> (removed: bool)
        ensures
            final(self).entries() == take_out::<T>(old(self).entries(), key@),
            final(self)@ == old(self)@.remove(key@),
            removed == old(self)@.dom().contains(key@),
            keys_ascending::<T>(final(self).entries()),
    {
        proof {
            use_type_invariant(&*self);
        }
        let ghost s = self.entries();
        match self.find(key) {
            Some(at) => {
                proof {
                    lemma_remove::<T>(s, at as int);
                    lemma_lookup::<T>(s, at as int);
                }
                let mut items = self.take_items();
                let _ = items.remove(at);
                assert(models(items@) =~= s.remove(at as int));
                *self = Registry { items };
                true
            },
            None => {
                assert(self@ =~= self@.remove(key@));
                false
            },
        }
    }

    /// Copies of all stored records, in ascending key order.
    pub fn snapshot(&self) -> (copies: Vec<T>)
        ensures
            models(copies@) == self.entries(),
            keys_ascending::<T>(self.entries()),
    {
        proof {
            use_type_invariant(self);
        }
        let copies = duplicate_all(&self.items);
        copies
    }
}

} // verus!

//! Sequences that are searched by a key.

use vstd::prelude::*;

verus! {

/// Where `x` first stands in `s`, or the length of `s` where it does not occur.
pub open spec fn position<T>(s: Seq<T>, x: T) -> int
    decreases s.len(),
{
    if s.len() == 0 {
        0
    } else if s[0] == x {
        0
    } else {
        1 + position(s.drop_first(), x)
    }
}

/// `s` with `v` at position `at`, or behind the last element.
pub open spec fn put<T>(s: Seq<T>, at: int, v: T) -> Seq<T> {
    if 0 <= at < s.len() {
        s.update(at, v)
    } else {
        s.push(v)
    }
}

/// `s` without the element at position `at`, if there is one.
pub open spec fn without<T>(s: Seq<T>, at: int) -> Seq<T> {
    if 0 <= at < s.len() {
        s.remove(at)
    } else {
        s
    }
}

/// No element occurs twice.
pub open spec fn distinct<T>(s: Seq<T>) -> bool {
    forall|i: int, j: int| 0 <= i < j < s.len() ==> s[i] != s[j]
}

pub proof fn lemma_position<T>(s: Seq<T>, x: T)
    ensures
        0 <= position(s, x) <= s.len(),
        position(s, x) < s.len() ==> s[position(s, x)] == x,
        forall|i: int| 0 <= i < position(s, x) ==> s[i] != x,
        position(s, x) < s.len() <==> s.contains(x),
    decreases s.len(),
{
    if s.len() > 0 && s[0] != x {
        let tail = s.drop_first();
        lemma_position(tail, x);
        assert forall|i: int| 0 <= i < position(s, x) implies s[i] != x by {
            if i > 0 {
                assert(s[i] == tail[i - 1]);
            }
        }
        if s.contains(x) {
            let i = choose|i: int| 0 <= i < s.len() && s[i] == x;
            assert(tail[i - 1] == x);
            assert(tail.contains(x));
        }
    }
}

/// The first position whose element is `x` is the position of `x`.
pub proof fn lemma_position_found<T>(s: Seq<T>, x: T, at: int)
    requires
        0 <= at < s.len(),
        s[at] == x,
        forall|i: int| 0 <= i < at ==> s[i] != x,
    ensures
        position(s, x) == at,
{
    lemma_position(s, x);
    if position(s, x) < at {
        assert(s[position(s, x)] == x);
    }
}

/// An element that occurs nowhere has no position.
pub proof fn lemma_position_missing<T>(s: Seq<T>, x: T)
    requires
        forall|i: int| 0 <= i < s.len() ==> s[i] != x,
    ensures
        position(s, x) == s.len(),
{
    lemma_position(s, x);
}

/// Putting an element under its own key keeps the keys distinct.
pub proof fn lemma_put_keeps_distinct<T>(keys: Seq<T>, key: T)
    requires
        distinct(keys),
    ensures
        distinct(put(keys, position(keys, key), key)),
        put(keys, position(keys, key), key).contains(key),
        position(put(keys, position(keys, key), key), key) == position(keys, key),
{
    lemma_position(keys, key);
    let at = position(keys, key);
    let after = put(keys, at, key);
    assert(after[at] == key);
    if at < keys.len() {
        assert(after =~= keys);
    } else {
        assert forall|i: int, j: int| 0 <= i < j < after.len() implies after[i] != after[j] by {
            if j == keys.len() {
                assert(keys[i] != key);
            }
        }
    }
    lemma_position_found(after, key, at);
}

/// Removing a key keeps the others distinct, and the key is gone.
pub proof fn lemma_without_keeps_distinct<T>(keys: Seq<T>, key: T)
    requires
        distinct(keys),
    ensures
        distinct(without(keys, position(keys, key))),
        !without(keys, position(keys, key)).contains(key),
{
    lemma_position(keys, key);
    let at = position(keys, key);
    let after = without(keys, at);
    if at < keys.len() {
        assert forall|i: int, j: int| 0 <= i < j < after.len() implies after[i] != after[j] by {
            let from_i = if i < at {
                i
            } else {
                i + 1
            };
            let from_j = if j < at {
                j
            } else {
                j + 1
            };
            assert(after[i] == keys[from_i] && after[j] == keys[from_j]);
        }
        if after.contains(key) {
            let i = choose|i: int| 0 <= i < after.len() && after[i] == key;
            let from = if i < at {
                i
            } else {
                i + 1
            };
            assert(keys[from] == key && keys[at] == key && from != at);
        }
    }
}

/// The elements of `s` that satisfy `p`, in order.
pub open spec fn kept<T>(s: Seq<T>, p: spec_fn(T) -> bool) -> Seq<T>
    decreases s.len(),
{
    if s.len() == 0 {
        Seq::empty()
    } else {
        let rest = kept(s.drop_last(), p);
        if p(s.last()) {
            rest.push(s.last())
        } else {
            rest
        }
    }
}

/// How many elements of `s` satisfy `p`.
pub open spec fn count_where<T>(s: Seq<T>, p: spec_fn(T) -> bool) -> nat
    decreases s.len(),
{
    if s.len() == 0 {
        0
    } else {
        count_where(s.drop_last(), p) + if p(s.last()) {
            1nat
        } else {
            0nat
        }
    }
}

/// The first number from `from` up to but not including `to` that satisfies `p`.
pub open spec fn first_in(from: int, to: int, p: spec_fn(int) -> bool) -> Option<int>
    decreases to - from,
{
    if from >= to {
        None
    } else if p(from) {
        Some(from)
    } else {
        first_in(from + 1, to, p)
    }
}

/// The last number from `from` up to but not including `to` that satisfies `p`.
pub open spec fn last_in(from: int, to: int, p: spec_fn(int) -> bool) -> Option<int>
    decreases to - from,
{
    if from >= to {
        None
    } else if p(to - 1) {
        Some(to - 1)
    } else {
        last_in(from, to - 1, p)
    }
}

pub proof fn lemma_first_found(from: int, to: int, p: spec_fn(int) -> bool, at: int)
    requires
        from <= at < to,
        p(at),
        forall|j: int| from <= j < at ==> !#[trigger] p(j),
    ensures
        first_in(from, to, p) == Some(at),
    decreases at - from,
{
    if from < at {
        lemma_first_found(from + 1, to, p, at);
    }
}

pub proof fn lemma_first_missing(from: int, to: int, p: spec_fn(int) -> bool)
    requires
        forall|j: int| from <= j < to ==> !#[trigger] p(j),
    ensures
        first_in(from, to, p) is None,
    decreases to - from,
{
    if from < to {
        lemma_first_missing(from + 1, to, p);
    }
}

pub proof fn lemma_last_found(from: int, to: int, p: spec_fn(int) -> bool, at: int)
    requires
        from <= at < to,
        p(at),
        forall|j: int| at < j < to ==> !#[trigger] p(j),
    ensures
        last_in(from, to, p) == Some(at),
    decreases to - at,
{
    if at < to - 1 {
        lemma_last_found(from, to - 1, p, at);
    }
}

pub proof fn lemma_last_missing(from: int, to: int, p: spec_fn(int) -> bool)
    requires
        forall|j: int| from <= j < to ==> !#[trigger] p(j),
    ensures
        last_in(from, to, p) is None,
    decreases to - from,
{
    if from < to {
        lemma_last_missing(from, to - 1, p);
    }
}

pub proof fn lemma_first_in_range(from: int, to: int, p: spec_fn(int) -> bool)
    ensures
        match first_in(from, to, p) {
            Some(i) => from <= i < to && p(i),
            None => true,
        },
    decreases to - from,
{
    if from < to && !p(from) {
        lemma_first_in_range(from + 1, to, p);
    }
}

/// No place that satisfies a predicate comes before the first.
pub proof fn lemma_first_is_least(from: int, to: int, p: spec_fn(int) -> bool, k: int)
    requires
        from <= k < to,
        p(k),
    ensures
        first_in(from, to, p) is Some,
        first_in(from, to, p)->0 <= k,
    decreases to - from,
{
    if !p(from) {
        lemma_first_is_least(from + 1, to, p, k);
    }
}

/// What is kept of a sequence is what was in it and satisfies the predicate.
pub proof fn lemma_kept_contains<T>(s: Seq<T>, p: spec_fn(T) -> bool, x: T)
    ensures
        kept(s, p).contains(x) <==> s.contains(x) && p(x),
        kept(s, p).len() <= s.len(),
    decreases s.len(),
{
    if s.len() > 0 {
        let front = s.drop_last();
        let rest = kept(front, p);
        lemma_kept_contains(front, p, x);
        assert(s[s.len() - 1] == s.last());
        if s.contains(x) {
            let i = choose|i: int| 0 <= i < s.len() && s[i] == x;
            if i < front.len() {
                assert(front[i] == x);
            }
        }
        if front.contains(x) {
            let i = choose|i: int| 0 <= i < front.len() && front[i] == x;
            assert(s[i] == x);
        }
        if p(s.last()) {
            let all = rest.push(s.last());
            assert(all[rest.len() as int] == s.last());
            if rest.contains(x) {
                let i = choose|i: int| 0 <= i < rest.len() && rest[i] == x;
                assert(all[i] == x);
            }
            if all.contains(x) {
                let i = choose|i: int| 0 <= i < all.len() && all[i] == x;
                if i < rest.len() {
                    assert(rest[i] == x);
                }
            }
        }
    }
}

} // verus!

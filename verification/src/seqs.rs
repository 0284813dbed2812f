//! Searching and filtering sequences.
use vstd::prelude::*;

verus! {

/// The first element that is wanted: how many come before it, all of them if none is.
pub open spec fn first_index<T>(s: Seq<T>, wanted: spec_fn(T) -> bool) -> nat
    decreases s.len(),
{
    if s.len() == 0 || wanted(s[0]) {
        0
    } else {
        1 + first_index(s.skip(1), wanted)
    }
}

/// The elements that are wanted, in order.
pub open spec fn kept<T>(s: Seq<T>, wanted: spec_fn(T) -> bool) -> Seq<T>
    decreases s.len(),
{
    if s.len() == 0 {
        Seq::empty()
    } else if wanted(s.last()) {
        kept(s.drop_last(), wanted).push(s.last())
    } else {
        kept(s.drop_last(), wanted)
    }
}

/// What `first_index` finds is wanted, and nothing before it is.
pub proof fn lemma_first_index<T>(s: Seq<T>, wanted: spec_fn(T) -> bool)
    ensures
        first_index(s, wanted) <= s.len(),
        first_index(s, wanted) < s.len() ==> wanted(s[first_index(s, wanted) as int]),
        forall|i: int| 0 <= i < first_index(s, wanted) ==> !wanted(#[trigger] s[i]),
    decreases s.len(),
{
    if s.len() > 0 && !wanted(s[0]) {
        lemma_first_index(s.skip(1), wanted);
        assert forall|i: int| 0 <= i < first_index(s, wanted) implies !wanted(#[trigger] s[i]) by {
            if i > 0 {
                assert(s.skip(1)[i - 1] == s[i]);
            }
        }
    }
}

/// An index with nothing wanted before it and a wanted element at it is what `first_index` finds.
pub proof fn lemma_is_first_index<T>(s: Seq<T>, wanted: spec_fn(T) -> bool, n: int)
    requires
        0 <= n <= s.len(),
        n < s.len() ==> wanted(s[n]),
        forall|i: int| 0 <= i < n ==> !wanted(#[trigger] s[i]),
    ensures
        first_index(s, wanted) == n,
{
    lemma_first_index(s, wanted);
    let m = first_index(s, wanted) as int;
    if m < n {
        assert(!wanted(s[m]));
    }
    if n < m {
        assert(!wanted(s[n]));
    }
}

/// What is kept is wanted and was there, and whatever was there and is wanted is kept.
pub proof fn lemma_kept<T>(s: Seq<T>, wanted: spec_fn(T) -> bool)
    ensures
        forall|i: int|
            0 <= i < kept(s, wanted).len() ==> wanted(#[trigger] kept(s, wanted)[i]) && s.contains(
                kept(s, wanted)[i],
            ),
        forall|i: int|
            0 <= i < s.len() && wanted(#[trigger] s[i]) ==> kept(s, wanted).contains(s[i]),
        kept(s, wanted).len() <= s.len(),
    decreases s.len(),
{
    if s.len() > 0 {
        let t = s.drop_last();
        let all = kept(s, wanted);
        let before = kept(t, wanted);
        lemma_kept(t, wanted);
        assert forall|i: int| 0 <= i < all.len() implies wanted(#[trigger] all[i]) && s.contains(
            all[i],
        ) by {
            if i < before.len() {
                assert(all[i] == before[i]);
                let j = choose|j: int| 0 <= j < t.len() && t[j] == before[i];
                assert(s[j] == all[i]);
            } else {
                assert(s[s.len() - 1] == all[i]);
            }
        }
        assert forall|i: int| 0 <= i < s.len() && wanted(#[trigger] s[i]) implies all.contains(
            s[i],
        ) by {
            if i < t.len() {
                assert(t[i] == s[i]);
                let j = choose|j: int| 0 <= j < before.len() && before[j] == t[i];
                assert(all[j] == s[i]);
            } else {
                assert(all[all.len() - 1] == s[i]);
            }
        }
    }
}

/// Elements that differ from one another still do after some are left out.
pub proof fn lemma_kept_no_duplicates<T, K>(
    s: Seq<T>,
    wanted: spec_fn(T) -> bool,
    key: spec_fn(T) -> K,
)
    requires
        forall|i: int, j: int| 0 <= i < j < s.len() ==> key(#[trigger] s[i]) != key(#[trigger] s[j]),
    ensures
        forall|i: int, j: int|
            0 <= i < j < kept(s, wanted).len() ==> key(#[trigger] kept(s, wanted)[i]) != key(
                #[trigger] kept(s, wanted)[j],
            ),
    decreases s.len(),
{
    if s.len() > 0 {
        let t = s.drop_last();
        let all = kept(s, wanted);
        let before = kept(t, wanted);
        lemma_kept_no_duplicates(t, wanted, key);
        lemma_kept(t, wanted);
        assert forall|i: int, j: int| 0 <= i < j < all.len() implies key(#[trigger] all[i]) != key(
            #[trigger] all[j],
        ) by {
            assert(all[i] == before[i]);
            let k = choose|k: int| 0 <= k < t.len() && t[k] == before[i];
            if j < before.len() {
                assert(all[j] == before[j]);
            } else {
                assert(all[j] == s.last());
                assert(key(s[k]) != key(s[s.len() - 1]));
            }
        }
    }
}

} // verus!

//! Small sequence lemmas and keyed-pair helpers shared by the
//! aggregation modules.

use vstd::prelude::*;

verus! {

/// Extending a prefix by one element extends its filtered image by that
/// element exactly when the predicate holds of it.
pub proof fn lemma_filter_take_step<A>(s: Seq<A>, pred: spec_fn(A) -> bool, i: int)
    requires
        0 <= i < s.len(),
    ensures
        s.take(i + 1).filter(pred) == if pred(s[i]) {
            s.take(i).filter(pred).push(s[i])
        } else {
            s.take(i).filter(pred)
        },
{
    reveal(Seq::filter);
    assert(s.take(i + 1).drop_last() =~= s.take(i));
    assert(s.take(i + 1).last() == s[i]);
}

/// The filtered image never grows past the sequence itself.
pub proof fn lemma_filter_len_le<A>(s: Seq<A>, pred: spec_fn(A) -> bool)
    ensures
        s.filter(pred).len() <= s.len(),
{
    broadcast use vstd::seq_lib::group_filter_ensures;

}

/// The elements of `s` with each first occurrence kept and every later
/// repetition dropped.
pub open spec fn dedup_firsts<A>(s: Seq<A>) -> Seq<A>
    decreases s.len(),
{
    if s.len() == 0 {
        Seq::empty()
    } else {
        let init = dedup_firsts(s.drop_last());
        if init.contains(s.last()) {
            init
        } else {
            init.push(s.last())
        }
    }
}

/// Deduplication keeps membership unchanged.
pub proof fn lemma_dedup_firsts_contains<A>(s: Seq<A>, x: A)
    ensures
        dedup_firsts(s).contains(x) == s.contains(x),
    decreases s.len(),
{
    if s.len() == 0 {
        assert(!s.contains(x)) by {
            if s.contains(x) {
                let w = choose|i: int| 0 <= i < s.len() && s[i] == x;
            }
        }
    } else {
        lemma_dedup_firsts_contains(s.drop_last(), x);
        let init = dedup_firsts(s.drop_last());
        let out = dedup_firsts(s);
        if s.contains(x) {
            let w = choose|i: int| 0 <= i < s.len() && s[i] == x;
            if w < s.len() - 1 {
                assert(s.drop_last()[w] == x);
                assert(s.drop_last().contains(x));
                if init.contains(x) {
                    let v = choose|i: int| 0 <= i < init.len() && init[i] == x;
                    assert(out[v] == x);
                    assert(out.contains(x));
                }
            } else {
                assert(s.last() == x);
                if init.contains(s.last()) {
                    assert(out == init);
                    assert(out.contains(x));
                } else {
                    assert(out[out.len() - 1] == x);
                    assert(out.contains(x));
                }
            }
        } else {
            assert(!s.drop_last().contains(x)) by {
                if s.drop_last().contains(x) {
                    let w = choose|i: int| 0 <= i < s.len() - 1 && s.drop_last()[i] == x;
                    assert(s[w] == x);
                }
            }
            assert(s.last() != x) by {
                if s.last() == x {
                    assert(s[s.len() - 1] == x);
                }
            }
            assert(!out.contains(x)) by {
                if out.contains(x) {
                    let w = choose|i: int| 0 <= i < out.len() && out[i] == x;
                    if init.contains(s.last()) {
                        assert(init[w] == x);
                    } else {
                        if w < init.len() {
                            assert(init[w] == x);
                        } else {
                            assert(out[w] == s.last());
                        }
                    }
                }
            }
        }
    }
}

/// No element appears twice after deduplication.
pub proof fn lemma_dedup_firsts_unique<A>(s: Seq<A>)
    ensures
        forall|i: int, j: int|
            0 <= i < j < dedup_firsts(s).len() ==> dedup_firsts(s)[i] != dedup_firsts(s)[j],
    decreases s.len(),
{
    if s.len() > 0 {
        lemma_dedup_firsts_unique(s.drop_last());
        let init = dedup_firsts(s.drop_last());
        if !init.contains(s.last()) {
            assert forall|i: int, j: int|
                0 <= i < j < dedup_firsts(s).len() implies dedup_firsts(s)[i] != dedup_firsts(
                s,
            )[j] by {
                if j < init.len() {
                } else {
                    assert(dedup_firsts(s)[j] == s.last());
                    assert(dedup_firsts(s)[i] == init[i]);
                    if init[i] == s.last() {
                        assert(init.contains(s.last()));
                    }
                }
            }
        }
    }
}

/// The keys of a keyed-pair sequence, in order.
pub open spec fn keys_of<K, V>(pairs: Seq<(K, V)>) -> Seq<K>
    decreases pairs.len(),
{
    if pairs.len() == 0 {
        Seq::empty()
    } else {
        keys_of(pairs.drop_last()).push(pairs.last().0)
    }
}

/// The values of the pairs whose key equals `key`, in order.
pub open spec fn vals_for<K, V>(pairs: Seq<(K, V)>, key: K) -> Seq<V>
    decreases pairs.len(),
{
    if pairs.len() == 0 {
        Seq::empty()
    } else {
        let init = vals_for(pairs.drop_last(), key);
        if pairs.last().0 == key {
            init.push(pairs.last().1)
        } else {
            init
        }
    }
}

} // verus!

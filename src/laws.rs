use vstd::prelude::*;

use crate::merge::{concat_all, concat_spec, Concat, MergeOperator};
use crate::store::{apply_merge, lookup, StoreView};

verus! {

/// The contents after `merge(k, f)` for each `f` of `frags` in order, on a
/// store whose operator is `Concat`: each step is the one that
/// `Store::merge` ensures.
pub open spec fn merge_many(m: Map<Seq<u8>, Seq<u8>>, k: Seq<u8>, frags: Seq<Seq<u8>>) -> Map<
    Seq<u8>,
    Seq<u8>,
>
    decreases frags.len(),
{
    if frags.len() == 0 {
        m
    } else {
        let before = merge_many(m, k, frags.drop_last());
        apply_merge(before, k, Concat.combine_spec(k, lookup(before, k), frags.last()))
    }
}

/// Merging the fragments one by one with the concatenation operator gives
/// the old value (or nothing) followed by all the fragments in call order:
/// the value that one application to the whole list (`rocks_cat`) gives.
/// No other key changes.
pub proof fn lemma_merge_associative(m: Map<Seq<u8>, Seq<u8>>, k: Seq<u8>, frags: Seq<Seq<u8>>)
    requires
        frags.len() > 0,
    ensures
        lookup(merge_many(m, k, frags), k) == concat_spec(lookup(m, k), concat_all(frags)),
        !m.contains_key(k) ==> lookup(merge_many(m, k, frags), k) == Some(concat_all(frags)),
        merge_many(m, k, frags).remove(k) == m.remove(k),
    decreases frags.len(),
{
    let init = frags.drop_last();
    if init.len() == 0 {
        assert(concat_all(init) =~= Seq::empty());
        assert(concat_all(frags) =~= frags.last());
        assert(merge_many(m, k, init) == m);
    } else {
        lemma_merge_associative(m, k, init);
        let o = lookup(m, k).unwrap_or(Seq::empty());
        assert(o + concat_all(init) + frags.last() =~= o + (concat_all(init) + frags.last()));
    }
    assert(merge_many(m, k, frags).remove(k) =~= m.remove(k));
}

/// Whatever order the merges of `frags` on one key are applied in (the
/// order `order` in which concurrent callers got through), the value is the
/// concatenation of all the fragments in that order, each exactly once.
pub proof fn lemma_any_interleaving(
    m: Map<Seq<u8>, Seq<u8>>,
    k: Seq<u8>,
    frags: Seq<Seq<u8>>,
    order: Seq<int>,
)
    requires
        !m.contains_key(k),
        frags.len() > 0,
        order.len() == frags.len(),
        forall|i: int| 0 <= i < order.len() ==> 0 <= #[trigger] order[i] < frags.len(),
        forall|i: int, j: int|
            0 <= i < order.len() && 0 <= j < order.len() && i != j ==> #[trigger] order[i]
                != #[trigger] order[j],
    ensures
        lookup(merge_many(m, k, order.map_values(|i: int| frags[i])), k) == Some(
            concat_all(order.map_values(|i: int| frags[i])),
        ),
{
    lemma_merge_associative(m, k, order.map_values(|i: int| frags[i]));
}

/// A value that was put is the value read back.
pub proof fn lemma_put_then_get(v: StoreView, k: Seq<u8>, val: Seq<u8>)
    ensures
        lookup(v.after_put(k, val).contents, k) == Some(val),
{
}

/// After a checkpoint, a restart at the same path finds every committed
/// value.
pub proof fn lemma_flush_then_restart(v: StoreView)
    ensures
        v.after_flush().after_restart().contents == v.contents,
        v.after_flush().after_restart().open,
{
}

/// A merge on an absent key sees no old value, so the new fragment alone
/// becomes the value.
pub proof fn lemma_merge_absent(m: Map<Seq<u8>, Seq<u8>>, k: Seq<u8>, f: Seq<u8>)
    requires
        !m.contains_key(k),
    ensures
        lookup(m, k) is None,
        lookup(apply_merge(m, k, Concat.combine_spec(k, lookup(m, k), f)), k) == Some(f),
{
    assert(Seq::<u8>::empty() + f =~= f);
}

} // verus!

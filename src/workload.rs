use vstd::prelude::*;

use crate::codec::{chunks_value, decode_all, encode_all, encode_u32, le_bytes, lemma_le_round_trip};
use crate::error::StoreError;
use crate::merge::Concat;
use crate::store::{lookup, Store};
use crate::table::Pair;

verus! {

/// The integers `0, 1, ..., n - 1`.
pub open spec fn run_of(n: nat) -> Seq<u32> {
    Seq::new(n, |j: int| j as u32)
}

/// The value of a key that held `old` after `merge(key, encode_u32(j))` for
/// each `j` below `per_key`, with the concatenation operator.
pub open spec fn filled_value(old: Option<Seq<u8>>, per_key: nat) -> Option<Seq<u8>> {
    if per_key == 0 {
        old
    } else {
        Some(old.unwrap_or(Seq::empty()) + encode_all(run_of(per_key)))
    }
}

/// `k` is the encoding of some integer below `n`.
pub open spec fn is_key_below(k: Seq<u8>, n: nat) -> bool {
    exists|i: u32| i < n && #[trigger] le_bytes(i) == k
}

proof fn lemma_run_step(j: nat)
    requires
        j < u32::MAX,
    ensures
        encode_all(run_of(j + 1)) == encode_all(run_of(j)) + le_bytes(j as u32),
{
    assert(run_of(j + 1).drop_last() =~= run_of(j));
}

/// Merges the encoding of each `j` below `per_key`, in order, into the key
/// that encodes `i`, for each `i` below `keys`. Every such key ends up with
/// its old value (or nothing) followed by the encodings of `0..per_key`;
/// every other key keeps its value.
pub fn fill(store: &mut Store<Concat>, keys: u32, per_key: u32) -> (r: Result<(), StoreError>)
    requires
        old(store).wf(),
    ensures
        final(store).wf(),
        final(store).operator() == old(store).operator(),
        !old(store)@.open ==> r == Err::<(), StoreError>(StoreError::StoreClosed) && final(store)@
            == old(store)@,
        old(store)@.open && !old(store)@.has_operator && keys > 0 && per_key > 0 ==> r == Err::<
            (),
            StoreError,
        >(StoreError::NoMergeOperator) && final(store)@ == old(store)@,
        old(store)@.open && (old(store)@.has_operator || keys == 0 || per_key == 0) ==> r is Ok
            && final(store)@.open == old(store)@.open && final(store)@.has_operator == old(store)@.has_operator
            && final(store)@.durable == old(store)@.durable
            && forall|k: Seq<u8>|
            #![trigger lookup(final(store)@.contents, k)]
            lookup(final(store)@.contents, k) == if is_key_below(k, keys as nat) {
                filled_value(lookup(old(store)@.contents, k), per_key as nat)
            } else {
                lookup(old(store)@.contents, k)
            },
{
    if !store.is_open() {
        return Err(StoreError::StoreClosed);
    }
    if !store.has_merge_operator() && keys > 0 && per_key > 0 {
        return Err(StoreError::NoMergeOperator);
    }
    let ghost start = store@;
    let mut i: u32 = 0;
    while i < keys
        invariant
            store.wf(),
            store.operator() == old(store).operator(),
            store@.open == start.open,
            store@.has_operator == start.has_operator,
            store@.durable == start.durable,
            start == old(store)@,
            start.open,
            i <= keys,
            start.has_operator || keys == 0 || per_key == 0,
            forall|k: Seq<u8>|
                #![trigger lookup(store@.contents, k)]
                lookup(store@.contents, k) == if is_key_below(k, i as nat) {
                    filled_value(lookup(start.contents, k), per_key as nat)
                } else {
                    lookup(start.contents, k)
                },
        decreases keys - i,
    {
        let key = encode_u32(i);
        let ghost before = store@;
        let ghost kb = key@;
        proof {
            lemma_le_round_trip(i);
            assert(!is_key_below(kb, i as nat)) by {
                if is_key_below(kb, i as nat) {
                    let ii = choose|ii: u32| ii < i && #[trigger] le_bytes(ii) == kb;
                    lemma_le_round_trip(ii);
                }
            }
            assert(lookup(before.contents, kb) == lookup(start.contents, kb));
        }
        let mut j: u32 = 0;
        while j < per_key
            invariant
                store.wf(),
                store.operator() == old(store).operator(),
                store@.open == before.open,
                store@.has_operator == before.has_operator,
                store@.durable == before.durable,
                before.open,
                kb == key@,
                j <= per_key,
                before.has_operator || keys == 0 || per_key == 0,
                i < keys,
                forall|k: Seq<u8>|
                    #![trigger lookup(store@.contents, k)]
                    k != kb ==> lookup(store@.contents, k) == lookup(before.contents, k),
                lookup(store@.contents, kb) == filled_value(lookup(before.contents, kb), j as nat),
            decreases per_key - j,
        {
            let frag = encode_u32(j);
            let ghost c = store@.contents;
            let res = store.merge(key.as_slice(), frag.as_slice());
            match res {
                Err(e) => {
                    return Err(e);
                },
                Ok(()) => {},
            }
            proof {
                lemma_run_step(j as nat);
                let o = lookup(before.contents, kb).unwrap_or(Seq::empty());
                let fv = filled_value(lookup(before.contents, kb), j as nat);
                assert(fv.unwrap_or(Seq::empty()) =~= o + encode_all(run_of(j as nat))) by {
                    if j == 0 {
                        assert(encode_all(run_of(0)) =~= Seq::<u8>::empty());
                    }
                }
                assert(o + encode_all(run_of(j as nat)) + frag@ =~= o + encode_all(
                    run_of(j as nat + 1),
                ));
                assert forall|k: Seq<u8>| k != kb implies #[trigger] lookup(store@.contents, k)
                    == lookup(before.contents, k) by {
                    assert(lookup(c, k) == lookup(before.contents, k));
                }
            }
            j = j + 1;
        }
        proof {
            assert forall|k: Seq<u8>| #[trigger]
                lookup(store@.contents, k) == if is_key_below(k, i as nat + 1) {
                    filled_value(lookup(start.contents, k), per_key as nat)
                } else {
                    lookup(start.contents, k)
                } by {
                if k == kb {
                    assert(le_bytes(i) == kb);
                    assert(is_key_below(k, i as nat + 1));
                } else {
                    assert(lookup(store@.contents, k) == lookup(before.contents, k));
                    if is_key_below(k, i as nat + 1) {
                        let ii = choose|ii: u32| ii < i + 1 && #[trigger] le_bytes(ii) == k;
                        assert(ii != i);
                        assert(is_key_below(k, i as nat));
                    }
                    if is_key_below(k, i as nat) {
                        let ii = choose|ii: u32| ii < i && #[trigger] le_bytes(ii) == k;
                        assert(is_key_below(k, i as nat + 1));
                    }
                }
            }
        }
        i = i + 1;
    }
    Ok(())
}

/// The integers that the values of `t` hold, value after value, each read
/// as non-overlapping four-byte windows.
pub open spec fn decoded_values(t: Seq<Pair>) -> Seq<u32>
    decreases t.len(),
{
    if t.len() == 0 {
        Seq::empty()
    } else {
        decoded_values(t.drop_last()) + chunks_value(t.last().1@)
    }
}

/// Some value of `t` has a length that is not a multiple of four.
pub open spec fn has_malformed(t: Seq<Pair>) -> bool {
    exists|i: int| 0 <= i < t.len() && #[trigger] t[i].1@.len() % 4 != 0
}

/// Decodes every value of a scan and lays the integers end to end, in the
/// order of the scan; a value whose length is not a multiple of four is
/// malformed.
pub fn decode_values(pairs: &Vec<Pair>) -> (r: Result<Vec<u32>, StoreError>)
    ensures
        !has_malformed(pairs@) ==> r is Ok && r->Ok_0@ == decoded_values(pairs@),
        has_malformed(pairs@) ==> r == Err::<Vec<u32>, StoreError>(StoreError::MalformedValue),
{
    let mut out: Vec<u32> = Vec::new();
    let mut i: usize = 0;
    while i < pairs.len()
        invariant
            i <= pairs@.len(),
            out@ == decoded_values(pairs@.take(i as int)),
            !has_malformed(pairs@.take(i as int)),
        decreases pairs@.len() - i,
    {
        match decode_all(pairs[i].1.as_slice()) {
            Ok(mut ns) => {
                assert(pairs@.take(i as int + 1).drop_last() =~= pairs@.take(i as int));
                out.append(&mut ns);
                assert(!has_malformed(pairs@.take(i as int + 1))) by {
                    if has_malformed(pairs@.take(i as int + 1)) {
                        let j = choose|j: int|
                            0 <= j < i + 1 && #[trigger] pairs@.take(i as int + 1)[j].1@.len() % 4 != 0;
                        if j < i {
                            assert(pairs@.take(i as int)[j] == pairs@[j]);
                        }
                    }
                }
            },
            Err(e) => {
                assert(pairs@[i as int].1@.len() % 4 != 0);
                return Err(e);
            },
        }
        i = i + 1;
    }
    assert(pairs@.take(pairs@.len() as int) =~= pairs@);
    Ok(out)
}

} // verus!

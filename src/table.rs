use vstd::prelude::*;

verus! {

/// One stored key and its value.
pub type Pair = (Vec<u8>, Vec<u8>);

/// The bytes of each pair of `t`, in order.
pub open spec fn pairs_view(t: Seq<Pair>) -> Seq<(Seq<u8>, Seq<u8>)> {
    t.map_values(|p: Pair| (p.0@, p.1@))
}

/// `t` holds exactly the bindings of `m`, each key once.
pub open spec fn table_wf(t: Seq<Pair>, m: Map<Seq<u8>, Seq<u8>>) -> bool {
    &&& forall|i: int|
        #![trigger t[i]]
        0 <= i < t.len() ==> m.contains_key(t[i].0@) && m[t[i].0@] == t[i].1@
    &&& forall|k: Seq<u8>|
        #![trigger m.contains_key(k)]
        m.contains_key(k) ==> exists|i: int| 0 <= i < t.len() && t[i].0@ == k
    &&& forall|i: int, j: int|
        #![trigger t[i], t[j]]
        0 <= i < t.len() && 0 <= j < t.len() && i != j ==> t[i].0@ != t[j].0@
}

/// Whether two byte strings are equal.
pub fn bytes_eq(a: &[u8], b: &[u8]) -> (r: bool)
    ensures
        r == (a@ == b@),
{
    if a.len() != b.len() {
        return false;
    }
    let mut i: usize = 0;
    while i < a.len()
        invariant
            a@.len() == b@.len(),
            i <= a@.len(),
            forall|j: int| 0 <= j < i ==> a@[j] == b@[j],
        decreases a@.len() - i,
    {
        if a[i] != b[i] {
            return false;
        }
        i = i + 1;
    }
    assert(a@ =~= b@);
    true
}

/// A fresh vector holding the bytes of `s`.
pub fn copy_bytes(s: &[u8]) -> (r: Vec<u8>)
    ensures
        r@ == s@,
{
    let mut r: Vec<u8> = Vec::new();
    let mut i: usize = 0;
    while i < s.len()
        invariant
            i <= s@.len(),
            r@ == s@.take(i as int),
        decreases s@.len() - i,
    {
        assert(s@.take(i as int + 1) =~= s@.take(i as int).push(s@[i as int]));
        r.push(s[i]);
        i = i + 1;
    }
    assert(s@.take(s@.len() as int) =~= s@);
    r
}

/// A copy of `t`, pair by pair.
pub fn copy_table(t: &Vec<Pair>) -> (r: Vec<Pair>)
    ensures
        pairs_view(r@) == pairs_view(t@),
        r@.len() == t@.len(),
        forall|i: int|
            #![trigger r@[i]]
            0 <= i < t@.len() ==> r@[i].0@ == t@[i].0@ && r@[i].1@ == t@[i].1@,
{
    let mut r: Vec<Pair> = Vec::new();
    let mut i: usize = 0;
    while i < t.len()
        invariant
            i <= t@.len(),
            r@.len() == i,
            forall|j: int|
                #![trigger r@[j]]
                0 <= j < i ==> r@[j].0@ == t@[j].0@ && r@[j].1@ == t@[j].1@,
        decreases t@.len() - i,
    {
        let k = copy_bytes(t[i].0.as_slice());
        let v = copy_bytes(t[i].1.as_slice());
        r.push((k, v));
        i = i + 1;
    }
    assert(pairs_view(r@) =~= pairs_view(t@));
    r
}

/// The position of `key` in `t`, if it is there.
pub fn find(t: &Vec<Pair>, key: &[u8]) -> (r: Option<usize>)
    ensures
        r matches Some(i) ==> i < t@.len() && t@[i as int].0@ == key@,
        r is None ==> forall|i: int| #![trigger t@[i]] 0 <= i < t@.len() ==> t@[i].0@ != key@,
{
    let mut i: usize = 0;
    while i < t.len()
        invariant
            i <= t@.len(),
            forall|j: int| #![trigger t@[j]] 0 <= j < i ==> t@[j].0@ != key@,
        decreases t@.len() - i,
    {
        if bytes_eq(t[i].0.as_slice(), key) {
            return Some(i);
        }
        i = i + 1;
    }
    None
}

/// A copy of `t` holds the same bindings.
pub proof fn lemma_copy_wf(t: Seq<Pair>, r: Seq<Pair>, m: Map<Seq<u8>, Seq<u8>>)
    requires
        table_wf(t, m),
        r.len() == t.len(),
        forall|i: int| #![trigger r[i]] 0 <= i < t.len() ==> r[i].0@ == t[i].0@ && r[i].1@ == t[i].1@,
    ensures
        table_wf(r, m),
{
    assert forall|k: Seq<u8>| #[trigger] m.contains_key(k) implies exists|i: int|
        0 <= i < r.len() && r[i].0@ == k by {
        let i = choose|i: int| 0 <= i < t.len() && t[i].0@ == k;
        assert(r[i].0@ == k);
    }
    assert forall|i: int, j: int|
        #![trigger r[i], r[j]]
        0 <= i < r.len() && 0 <= j < r.len() && i != j implies r[i].0@ != r[j].0@ by {
        assert(t[i].0@ != t[j].0@);
    }
    assert forall|i: int| #![trigger r[i]] 0 <= i < r.len() implies m.contains_key(r[i].0@)
        && m[r[i].0@] == r[i].1@ by {
        assert(t[i].0@ == r[i].0@);
    }
}

/// Binds `key` to `value` in the table `t` that models `m`.
pub fn table_insert(t: &mut Vec<Pair>, key: &[u8], value: Vec<u8>, Ghost(m): Ghost<
    Map<Seq<u8>, Seq<u8>>,
>)
    requires
        table_wf(old(t)@, m),
    ensures
        table_wf(final(t)@, m.insert(key@, value@)),
{
    let ghost m2 = m.insert(key@, value@);
    match find(t, key) {
        Some(i) => {
            let k = copy_bytes(key);
            t.set(i, (k, value));
            assert forall|k: Seq<u8>| #[trigger] m2.contains_key(k) implies exists|j: int|
                0 <= j < t@.len() && t@[j].0@ == k by {
                if k != key@ {
                    let j = choose|j: int| 0 <= j < old(t)@.len() && old(t)@[j].0@ == k;
                    assert(t@[j].0@ == k);
                } else {
                    assert(t@[i as int].0@ == k);
                }
            }
            assert forall|a: int, b: int|
                #![trigger t@[a], t@[b]]
                0 <= a < t@.len() && 0 <= b < t@.len() && a != b implies t@[a].0@ != t@[b].0@ by {
                assert(old(t)@[a].0@ != old(t)@[b].0@);
            }
            assert forall|a: int| #![trigger t@[a]] 0 <= a < t@.len() implies m2.contains_key(
                t@[a].0@,
            ) && m2[t@[a].0@] == t@[a].1@ by {
                if a != i {
                    assert(old(t)@[a] == t@[a]);
                    assert(old(t)@[a].0@ != old(t)@[i as int].0@);
                }
            }
        },
        None => {
            let k = copy_bytes(key);
            t.push((k, value));
            let n = t.len() - 1;
            assert forall|k: Seq<u8>| #[trigger] m2.contains_key(k) implies exists|j: int|
                0 <= j < t@.len() && t@[j].0@ == k by {
                if k != key@ {
                    let j = choose|j: int| 0 <= j < old(t)@.len() && old(t)@[j].0@ == k;
                    assert(t@[j].0@ == k);
                } else {
                    assert(t@[n as int].0@ == k);
                }
            }
            assert forall|a: int, b: int|
                #![trigger t@[a], t@[b]]
                0 <= a < t@.len() && 0 <= b < t@.len() && a != b implies t@[a].0@ != t@[b].0@ by {
                if a < n && b < n {
                    assert(old(t)@[a].0@ != old(t)@[b].0@);
                } else if a < n {
                    assert(old(t)@[a] == t@[a]);
                } else {
                    assert(old(t)@[b] == t@[b]);
                }
            }
            assert forall|a: int| #![trigger t@[a]] 0 <= a < t@.len() implies m2.contains_key(
                t@[a].0@,
            ) && m2[t@[a].0@] == t@[a].1@ by {
                if a < n {
                    assert(old(t)@[a] == t@[a]);
                }
            }
        },
    }
}

/// Removes `key`, if it is bound, from the table `t` that models `m`.
pub fn table_remove(t: &mut Vec<Pair>, key: &[u8], Ghost(m): Ghost<Map<Seq<u8>, Seq<u8>>>)
    requires
        table_wf(old(t)@, m),
    ensures
        table_wf(final(t)@, m.remove(key@)),
{
    let ghost m2 = m.remove(key@);
    match find(t, key) {
        Some(i) => {
            let ghost o = t@;
            let ghost last = (o.len() - 1) as int;
            let _ = t.swap_remove(i);
            assert forall|k: Seq<u8>| #[trigger] m2.contains_key(k) implies exists|j: int|
                0 <= j < t@.len() && t@[j].0@ == k by {
                let j = choose|j: int| 0 <= j < o.len() && o[j].0@ == k;
                assert(j != i);
                if j == last {
                    assert(t@[i as int] == o[last]);
                } else {
                    assert(t@[j] == o[j]);
                }
            }
            assert forall|a: int, b: int|
                #![trigger t@[a], t@[b]]
                0 <= a < t@.len() && 0 <= b < t@.len() && a != b implies t@[a].0@ != t@[b].0@ by {
                let oa = if a == i { last } else { a };
                let ob = if b == i { last } else { b };
                assert(t@[a] == o[oa]);
                assert(t@[b] == o[ob]);
                assert(o[oa].0@ != o[ob].0@);
            }
            assert forall|a: int| #![trigger t@[a]] 0 <= a < t@.len() implies m2.contains_key(
                t@[a].0@,
            ) && m2[t@[a].0@] == t@[a].1@ by {
                let oa = if a == i { last } else { a };
                assert(t@[a] == o[oa]);
                assert(o[oa].0@ != o[i as int].0@);
            }
        },
        None => {
            assert(m2 =~= m) by {
                if m.contains_key(key@) {
                    let j = choose|j: int| 0 <= j < t@.len() && t@[j].0@ == key@;
                    assert(t@[j].0@ != key@);
                }
            }
        },
    }
}

} // verus!

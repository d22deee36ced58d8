use vstd::prelude::*;

verus! {

/// The bytes of an optional slice, as a sequence.
pub open spec fn opt_view(o: Option<&[u8]>) -> Option<Seq<u8>> {
    match o {
        Some(s) => Some(s@),
        None => None,
    }
}

/// The bytes of an optional vector, as a sequence.
pub open spec fn opt_vec_view(o: Option<Vec<u8>>) -> Option<Seq<u8>> {
    match o {
        Some(v) => Some(v@),
        None => None,
    }
}

/// The concatenation operator: the old value, or nothing, followed by the
/// new fragment. It never deletes.
pub open spec fn concat_spec(old: Option<Seq<u8>>, new: Seq<u8>) -> Option<Seq<u8>> {
    Some(old.unwrap_or(Seq::empty()) + new)
}

/// The fragments of `fs` laid end to end, in order.
pub open spec fn concat_all(fs: Seq<Seq<u8>>) -> Seq<u8>
    decreases fs.len(),
{
    if fs.len() == 0 {
        Seq::empty()
    } else {
        concat_all(fs.drop_last()) + fs.last()
    }
}

/// The views of a sequence of byte vectors.
pub open spec fn frags_view(fs: Seq<Vec<u8>>) -> Seq<Seq<u8>> {
    fs.map_values(|v: Vec<u8>| v@)
}

/// A merge operator: the function that `merge` applies to a key, its current
/// value (or its absence) and a new fragment. `None` deletes the key.
pub trait MergeOperator {
    /// What `combine` returns, as a function of its arguments alone.
    spec fn combine_spec(&self, key: Seq<u8>, old: Option<Seq<u8>>, new: Seq<u8>) -> Option<Seq<u8>>;

    fn combine(&self, key: &[u8], old: Option<&[u8]>, new: &[u8]) -> (r: Option<Vec<u8>>)
        ensures
            opt_vec_view(r) == self.combine_spec(key@, opt_view(old), new@),
    ;
}

/// Appends the bytes of `src` to `dst`.
pub fn append_bytes(dst: &mut Vec<u8>, src: &[u8])
    ensures
        final(dst)@ == old(dst)@ + src@,
{
    let mut i: usize = 0;
    while i < src.len()
        invariant
            i <= src@.len(),
            dst@ == old(dst)@ + src@.take(i as int),
        decreases src@.len() - i,
    {
        assert(src@.take(i as int + 1) =~= src@.take(i as int).push(src@[i as int]));
        dst.push(src[i]);
        i = i + 1;
    }
    assert(src@.take(src@.len() as int) =~= src@);
}

/// The concatenation merge operator: the stored value, if any, followed by
/// the new fragment.
pub fn sled_cat(_key: &[u8], val: Option<&[u8]>, new: &[u8]) -> (r: Option<Vec<u8>>)
    ensures
        opt_vec_view(r) == concat_spec(opt_view(val), new@),
{
    let mut out: Vec<u8> = Vec::new();
    match val {
        Some(v) => append_bytes(&mut out, v),
        None => {},
    }
    append_bytes(&mut out, new);
    assert(out@ =~= opt_view(val).unwrap_or(Seq::empty()) + new@);
    Some(out)
}

/// The concatenation merge operator over a batch of operands: the stored
/// value, if any, followed by every operand in order.
pub fn rocks_cat(_key: &[u8], val: Option<&[u8]>, new: &Vec<Vec<u8>>) -> (r: Option<Vec<u8>>)
    ensures
        opt_vec_view(r) == Some(opt_view(val).unwrap_or(Seq::empty()) + concat_all(
            frags_view(new@),
        )),
{
    let mut out: Vec<u8> = Vec::new();
    match val {
        Some(v) => append_bytes(&mut out, v),
        None => {},
    }
    let ghost base = out@;
    let mut i: usize = 0;
    while i < new.len()
        invariant
            i <= new@.len(),
            base == opt_view(val).unwrap_or(Seq::empty()),
            out@ == base + concat_all(frags_view(new@.take(i as int))),
        decreases new@.len() - i,
    {
        assert(frags_view(new@.take(i as int + 1)).drop_last() =~= frags_view(new@.take(i as int)));
        append_bytes(&mut out, new[i].as_slice());
        i = i + 1;
        assert(out@ =~= base + concat_all(frags_view(new@.take(i as int))));
    }
    assert(new@.take(new@.len() as int) =~= new@);
    Some(out)
}

/// The concatenation operator as a registrable merge operator.
#[derive(Debug, Clone, Copy, PartialEq, Eq, Structural)]
pub struct Concat;

impl MergeOperator for Concat {
    open spec fn combine_spec(&self, key: Seq<u8>, old: Option<Seq<u8>>, new: Seq<u8>) -> Option<Seq<u8>> {
        concat_spec(old, new)
    }

    fn combine(&self, key: &[u8], old: Option<&[u8]>, new: &[u8]) -> (r: Option<Vec<u8>>) {
        sled_cat(key, old, new)
    }
}

} // verus!

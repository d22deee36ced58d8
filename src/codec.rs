use vstd::prelude::*;

use crate::error::StoreError;

verus! {

/// The number that four bytes hold, least significant byte first.
pub open spec fn le_value(b: Seq<u8>) -> nat
    recommends
        b.len() >= 4,
{
    b[0] as nat + 256 * (b[1] as nat) + 65536 * (b[2] as nat) + 16777216 * (b[3] as nat)
}

/// The four little-endian bytes of `n`.
pub open spec fn le_bytes(n: u32) -> Seq<u8> {
    seq![
        (n % 256) as u8,
        ((n / 256) % 256) as u8,
        ((n / 65536) % 256) as u8,
        (n / 16777216) as u8,
    ]
}

/// The integers that `b` holds, read as consecutive non-overlapping
/// four-byte windows; a trailing part shorter than four bytes is not read.
pub open spec fn chunks_value(b: Seq<u8>) -> Seq<u32> {
    Seq::new(b.len() / 4, |i: int| le_value(b.subrange(4 * i, 4 * i + 4)) as u32)
}

/// The concatenation of the little-endian encodings of `ns`, in order.
pub open spec fn encode_all(ns: Seq<u32>) -> Seq<u8>
    decreases ns.len(),
{
    if ns.len() == 0 {
        Seq::empty()
    } else {
        encode_all(ns.drop_last()) + le_bytes(ns.last())
    }
}

/// The sum of `ns`, as a mathematical integer.
pub open spec fn sum_of(ns: Seq<u32>) -> nat
    decreases ns.len(),
{
    if ns.len() == 0 {
        0
    } else {
        sum_of(ns.drop_last()) + ns.last() as nat
    }
}

/// Four bytes never hold more than `u32::MAX`.
pub proof fn lemma_le_value_bound(b: Seq<u8>)
    requires
        b.len() >= 4,
    ensures
        le_value(b) <= u32::MAX,
{
    let (b0, b1, b2, b3) = (b[0] as nat, b[1] as nat, b[2] as nat, b[3] as nat);
    assert(b0 + 256 * b1 + 65536 * b2 + 16777216 * b3 <= 4294967295) by (nonlinear_arith)
        requires
            b0 <= 255,
            b1 <= 255,
            b2 <= 255,
            b3 <= 255,
    ;
}

/// Reading back the encoding of `n` gives `n`.
pub proof fn lemma_le_round_trip(n: u32)
    ensures
        le_bytes(n).len() == 4,
        le_value(le_bytes(n)) == n,
{
    let x = n as int;
    assert(x == x % 256 + 256 * ((x / 256) % 256) + 65536 * ((x / 65536) % 256) + 16777216 * (x
        / 16777216)) by (nonlinear_arith)
        requires
            0 <= x < 4294967296,
    {
        assert(x == x % 256 + 256 * (x / 256));
        assert(x / 256 == (x / 256) % 256 + 256 * (x / 65536));
        assert(x / 65536 == (x / 65536) % 256 + 256 * (x / 16777216));
    }
}

/// The little-endian encoding of `n`.
pub fn encode_u32(n: u32) -> (r: Vec<u8>)
    ensures
        r@ == le_bytes(n),
        r@.len() == 4,
        le_value(r@) == n,
{
    proof {
        lemma_le_round_trip(n);
    }
    let mut r: Vec<u8> = Vec::new();
    r.push((n % 256) as u8);
    r.push(((n / 256) % 256) as u8);
    r.push(((n / 65536) % 256) as u8);
    r.push((n / 16777216) as u8);
    assert(r@ =~= le_bytes(n));
    r
}

/// The integer held by the four bytes of `b` that start at `off`.
fn read_at(b: &[u8], off: usize) -> (r: u32)
    requires
        off + 4 <= b@.len(),
    ensures
        r == le_value(b@.subrange(off as int, off + 4)),
{
    proof {
        lemma_le_value_bound(b@.subrange(off as int, off + 4));
    }
    let v: u64 = b[off] as u64 + 256 * (b[off + 1] as u64) + 65536 * (b[off + 2] as u64)
        + 16777216 * (b[off + 3] as u64);
    v as u32
}

/// The integer held by the first four bytes of `b`, least significant first.
pub fn from_bytes(b: &[u8]) -> (r: u32)
    requires
        b@.len() >= 4,
    ensures
        r == le_value(b@),
{
    read_at(b, 0)
}

/// The integer held by `b`, which must be four bytes long at least.
pub fn decode_u32(b: &[u8]) -> (r: Result<u32, StoreError>)
    ensures
        b@.len() >= 4 ==> r == Ok::<u32, StoreError>(le_value(b@) as u32),
        b@.len() < 4 ==> r == Err::<u32, StoreError>(StoreError::MalformedValue),
{
    if b.len() < 4 {
        Err(StoreError::MalformedValue)
    } else {
        Ok(from_bytes(b))
    }
}

/// The integers that `b` holds as consecutive non-overlapping four-byte
/// windows; a length that is not a multiple of four is malformed.
pub fn decode_all(b: &[u8]) -> (r: Result<Vec<u32>, StoreError>)
    ensures
        b@.len() % 4 == 0 ==> r is Ok && r->Ok_0@ == chunks_value(b@),
        b@.len() % 4 != 0 ==> r == Err::<Vec<u32>, StoreError>(StoreError::MalformedValue),
{
    if b.len() % 4 != 0 {
        return Err(StoreError::MalformedValue);
    }
    let len = b.len();
    let n = len / 4;
    let mut out: Vec<u32> = Vec::new();
    let mut i: usize = 0;
    while i < n
        invariant
            len == b@.len(),
            n == b@.len() / 4,
            i <= n,
            out@ =~= chunks_value(b@).take(i as int),
        decreases n - i,
    {
        assert(4 * i + 4 <= len) by (nonlinear_arith)
            requires
                i < n,
                n == len / 4,
        ;
        let w = read_at(b, 4 * i);
        out.push(w);
        i = i + 1;
    }
    assert(chunks_value(b@).take(n as int) =~= chunks_value(b@));
    Ok(out)
}

/// A prefix of `ns` never sums to more than the whole.
pub proof fn lemma_sum_prefix(ns: Seq<u32>, i: int)
    requires
        0 <= i <= ns.len(),
    ensures
        sum_of(ns.take(i)) <= sum_of(ns),
    decreases ns.len(),
{
    if i < ns.len() {
        lemma_sum_prefix(ns.drop_last(), i);
        assert(ns.drop_last().take(i) =~= ns.take(i));
    } else {
        assert(ns.take(i) =~= ns);
    }
}

/// The sum of `ns`, or `None` where it does not fit in a `u64`.
pub fn sum_u64(ns: &Vec<u32>) -> (r: Option<u64>)
    ensures
        sum_of(ns@) <= u64::MAX ==> r == Some(sum_of(ns@) as u64),
        sum_of(ns@) > u64::MAX ==> r is None,
{
    let mut total: u64 = 0;
    let mut i: usize = 0;
    while i < ns.len()
        invariant
            i <= ns@.len(),
            total == sum_of(ns@.take(i as int)),
        decreases ns@.len() - i,
    {
        assert(ns@.take(i as int + 1).drop_last() =~= ns@.take(i as int));
        match total.checked_add(ns[i] as u64) {
            Some(t) => {
                total = t;
            },
            None => {
                proof {
                    lemma_sum_prefix(ns@, i + 1);
                }
                return None;
            },
        }
        i = i + 1;
    }
    assert(ns@.take(ns@.len() as int) =~= ns@);
    Some(total)
}

/// Decoding the concatenated encodings of `ns` gives `ns` back.
pub proof fn lemma_decode_encoded(ns: Seq<u32>)
    ensures
        encode_all(ns).len() == 4 * ns.len(),
        chunks_value(encode_all(ns)) == ns,
    decreases ns.len(),
{
    if ns.len() > 0 {
        let init = ns.drop_last();
        lemma_decode_encoded(init);
        lemma_le_round_trip(ns.last());
        let e = encode_all(ns);
        let ei = encode_all(init);
        assert(e == ei + le_bytes(ns.last()));
        assert forall|i: int| 0 <= i < ns.len() implies #[trigger] chunks_value(e)[i] == ns[i] by {
            if i < init.len() {
                assert(4 * i + 4 <= ei.len()) by (nonlinear_arith)
                    requires
                        i < init.len(),
                        ei.len() == 4 * init.len(),
                ;
                assert(e.subrange(4 * i, 4 * i + 4) =~= ei.subrange(4 * i, 4 * i + 4));
                assert(chunks_value(ei)[i] == init[i]);
            } else {
                assert(e.subrange(4 * i, 4 * i + 4) =~= le_bytes(ns.last()));
            }
        }
        assert(chunks_value(e) =~= ns);
    } else {
        assert(chunks_value(encode_all(ns)) =~= ns);
    }
}

} // verus!

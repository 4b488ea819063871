use vstd::prelude::*;

verus! {

/// Appends every byte of `other` to `out`, in order.
pub fn push_all(out: &mut Vec<u8>, other: &[u8])
    ensures
        final(out)@ == old(out)@ + other@,
{
    let mut i: usize = 0;
    while i < other.len()
        invariant
            i <= other@.len(),
            out@ == old(out)@ + other@.subrange(0, i as int),
        decreases other@.len() - i,
    {
        out.push(other[i]);
        i += 1;
        assert(out@ =~= old(out)@ + other@.subrange(0, i as int));
    }
    assert(other@.subrange(0, other@.len() as int) =~= other@);
}

/// Copies `data[from..to]` into a fresh vector.
pub fn copy_range(data: &[u8], from: usize, to: usize) -> (out: Vec<u8>)
    requires
        from <= to <= data@.len(),
    ensures
        out@ == data@.subrange(from as int, to as int),
{
    let mut out: Vec<u8> = Vec::new();
    let mut i: usize = from;
    while i < to
        invariant
            from <= i <= to,
            to <= data@.len(),
            out@ == data@.subrange(from as int, i as int),
        decreases to - i,
    {
        out.push(data[i]);
        i += 1;
        assert(out@ =~= data@.subrange(from as int, i as int));
    }
    out
}

/// Whether `data[from..]` is exactly `expected`.
pub fn suffix_equals(data: &[u8], from: usize, expected: &[u8]) -> (eq: bool)
    requires
        from <= data@.len(),
    ensures
        eq == (data@.subrange(from as int, data@.len() as int) == expected@),
{
    if data.len() - from != expected.len() {
        proof {
            assert(data@.subrange(from as int, data@.len() as int).len() != expected@.len());
        }
        return false;
    }
    let n = data.len();
    let mut i: usize = 0;
    while i < expected.len()
        invariant
            n == data@.len(),
            from <= data@.len(),
            from + expected@.len() == data@.len(),
            i <= expected@.len(),
            forall|k: int| 0 <= k < i ==> data@[from + k] == expected@[k],
        decreases expected@.len() - i,
    {
        if data[from + i] != expected[i] {
            proof {
                assert(data@.subrange(from as int, data@.len() as int)[i as int] != expected@[i as int]);
            }
            return false;
        }
        i += 1;
    }
    assert(data@.subrange(from as int, data@.len() as int) =~= expected@);
    true
}

/// Whether two byte strings are equal.
pub fn bytes_eq(a: &[u8], b: &[u8]) -> (eq: bool)
    ensures
        eq == (a@ == b@),
{
    if a.len() != b.len() {
        return false;
    }
    let mut i: usize = 0;
    while i < a.len()
        invariant
            a@.len() == b@.len(),
            i <= a@.len(),
            forall|k: int| 0 <= k < i ==> a@[k] == b@[k],
        decreases a@.len() - i,
    {
        if a[i] != b[i] {
            return false;
        }
        i += 1;
    }
    assert(a@ =~= b@);
    true
}

} // verus!

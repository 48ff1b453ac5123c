use vstd::prelude::*;

verus! {

/// Appends `b` to `out`.
pub fn push_bytes(out: &mut Vec<u8>, b: &[u8])
    ensures
        final(out)@ == old(out)@ + b@,
{
    let mut i: usize = 0;
    while i < b.len()
        invariant
            i <= b@.len(),
            out@ == old(out)@ + b@.subrange(0, i as int),
        decreases b@.len() - i,
    {
        out.push(b[i]);
        proof {
            assert(b@.subrange(0, i as int + 1) =~= b@.subrange(0, i as int).push(b@[i as int]));
        }
        i = i + 1;
    }
    proof {
        assert(b@.subrange(0, b@.len() as int) =~= b@);
    }
}

/// A copy of `t[from..to]`.
pub fn copy_range(t: &[u8], from: usize, to: usize) -> (r: Vec<u8>)
    requires
        from <= to <= t@.len(),
    ensures
        r@ == t@.subrange(from as int, to as int),
{
    let mut r: Vec<u8> = Vec::new();
    let mut i: usize = from;
    while i < to
        invariant
            from <= i <= to <= t@.len(),
            r@ == t@.subrange(from as int, i as int),
        decreases to - i,
    {
        r.push(t[i]);
        assert(t@.subrange(from as int, i + 1) =~= t@.subrange(from as int, i as int).push(t@[i as int]));
        i = i + 1;
    }
    r
}

/// Whether `t` holds `pat` at position `at`.
pub fn matches_at(t: &[u8], at: usize, pat: &[u8]) -> (r: bool)
    requires
        at + pat@.len() <= t@.len(),
    ensures
        r == (t@.subrange(at as int, at + pat@.len()) == pat@),
{
    let tl = t.len();
    let mut i: usize = 0;
    while i < pat.len()
        invariant
            i <= pat@.len(),
            tl == t@.len(),
            at + pat@.len() <= t@.len(),
            forall|k: int| 0 <= k < i ==> t@[at + k] == pat@[k],
        decreases pat@.len() - i,
    {
        if t[at + i] != pat[i] {
            assert(t@.subrange(at as int, at + pat@.len())[i as int] != pat@[i as int]);
            return false;
        }
        i = i + 1;
    }
    assert(t@.subrange(at as int, at + pat@.len()) =~= pat@);
    true
}

} // verus!

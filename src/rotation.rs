use vstd::prelude::*;

verus! {

/// The rotation that a call with counter value `index` applies to a group of
/// `len` nodes: `index mod max(len, 1)`.
pub open spec fn rotation_of(index: usize, len: nat) -> nat {
    if len == 0 {
        0
    } else {
        (index as nat) % len
    }
}

/// Cyclic left shift: the element at `k` comes first, and the elements before
/// it move to the end. A shift past the end leaves the sequence as it is.
pub open spec fn rotate_left<A>(s: Seq<A>, k: nat) -> Seq<A> {
    if k <= s.len() {
        s.subrange(k as int, s.len() as int) + s.subrange(0, k as int)
    } else {
        s
    }
}

/// Computes `index mod max(len, 1)`.
pub fn compute_rotation(index: usize, len: usize) -> (r: usize)
    ensures
        r as nat == rotation_of(index, len as nat),
        len > 0 ==> r < len,
        len == 0 ==> r == 0,
{
    if len == 0 {
        0
    } else {
        index % len
    }
}

/// Returns the elements of `v` starting at `rotation`, followed by those
/// before it.
pub fn slice_rotated_left(v: &Vec<usize>, rotation: usize) -> (r: Vec<usize>)
    requires
        rotation <= v.len(),
    ensures
        r@ == rotate_left(v@, rotation as nat),
{
    let mut r: Vec<usize> = Vec::new();
    let mut i: usize = rotation;
    while i < v.len()
        invariant
            rotation <= i <= v.len(),
            r@ == v@.subrange(rotation as int, i as int),
        decreases v.len() - i,
    {
        r.push(v[i]);
        i = i + 1;
        assert(r@ =~= v@.subrange(rotation as int, i as int));
    }
    let mut j: usize = 0;
    while j < rotation
        invariant
            j <= rotation <= v.len(),
            r@ == v@.subrange(rotation as int, v.len() as int) + v@.subrange(0, j as int),
        decreases rotation - j,
    {
        r.push(v[j]);
        j = j + 1;
        assert(r@ =~= v@.subrange(rotation as int, v.len() as int) + v@.subrange(0, j as int));
    }
    r
}

/// Rotating a list of length `k` by `i mod k` puts the element at `i mod k`
/// first; rotating by `k`, or by 0, gives the list back; rotating an empty
/// list gives the empty list.
pub proof fn lemma_rotation_law<A>(s: Seq<A>, i: nat)
    ensures
        s.len() > 0 ==> rotate_left(s, i % s.len())[0] == s[(i % s.len()) as int],
        rotate_left(s, s.len()) == s,
        rotate_left(s, 0) == s,
        s.len() == 0 ==> rotate_left(s, rotation_of(i as usize, 0)) == s,
        s.len() > 0 ==> rotate_left(s, i % s.len()).len() == s.len(),
{
    assert(rotate_left(s, s.len()) =~= s);
    assert(rotate_left(s, 0) =~= s);
    if s.len() > 0 {
        let k = i % s.len();
        assert(rotate_left(s, k)[0] == s.subrange(k as int, s.len() as int)[0]);
    }
}

} // verus!

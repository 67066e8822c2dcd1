use vstd::prelude::*;

verus! {

/// The positions holding `true`, in increasing order.
pub open spec fn indices_of_flags(flags: Seq<bool>) -> Seq<usize>
    decreases flags.len(),
{
    if flags.len() == 0 {
        Seq::empty()
    } else {
        let prefix = indices_of_flags(flags.drop_last());
        if flags.last() {
            prefix.push((flags.len() - 1) as usize)
        } else {
            prefix
        }
    }
}

/// For each position below `len`, whether `indices` names it.
pub open spec fn flags_of(indices: Seq<usize>, len: nat) -> Seq<bool> {
    Seq::new(len, |i: int| indices.contains(i as usize))
}

pub open spec fn negated(flags: Seq<bool>) -> Seq<bool> {
    Seq::new(flags.len(), |i: int| !flags[i])
}

/// The distinct in-range positions of `indices`, in increasing order.
pub open spec fn normalized(indices: Seq<usize>, len: nat) -> Seq<usize> {
    indices_of_flags(flags_of(indices, len))
}

pub open spec fn strictly_increasing(s: Seq<usize>) -> bool {
    forall|i: int, j: int| 0 <= i < j < s.len() ==> s[i] < s[j]
}

/// The entries of `s` at the positions `idx`, in that order.
pub open spec fn pick<A>(s: Seq<A>, idx: Seq<usize>) -> Seq<A> {
    Seq::new(idx.len(), |k: int| s[idx[k] as int])
}

pub open spec fn count_true(flags: Seq<bool>) -> nat
    decreases flags.len(),
{
    if flags.len() == 0 {
        0
    } else {
        count_true(flags.drop_last()) + if flags.last() {
            1nat
        } else {
            0nat
        }
    }
}

/// The positions of the `true` flags form a strictly increasing sequence of in-range
/// positions that holds exactly the flagged ones.
pub proof fn lemma_indices_of_flags(flags: Seq<bool>)
    requires
        flags.len() <= usize::MAX,
    ensures
        strictly_increasing(indices_of_flags(flags)),
        forall|k: int|
            0 <= k < indices_of_flags(flags).len() ==> (#[trigger] indices_of_flags(flags)[k])
                < flags.len() && flags[indices_of_flags(flags)[k] as int],
        forall|x: usize|
            #![trigger indices_of_flags(flags).contains(x)]
            indices_of_flags(flags).contains(x) <==> (x < flags.len() && flags[x as int]),
        indices_of_flags(flags).len() == count_true(flags),
        indices_of_flags(flags).len() <= flags.len(),
    decreases flags.len(),
{
    if flags.len() > 0 {
        let d = flags.drop_last();
        lemma_indices_of_flags(d);
        let p = indices_of_flags(d);
        let r = indices_of_flags(flags);
        let n = flags.len() - 1;
        assert forall|k: int| 0 <= k < p.len() implies p[k] < n && flags[p[k] as int] by {
            assert(d[p[k] as int] == flags[p[k] as int]);
        }
        if flags.last() {
            assert(r == p.push(n as usize));
        } else {
            assert(r == p);
        }
        assert forall|x: usize| #![trigger r.contains(x)] r.contains(x) <==> (x < flags.len()
            && flags[x as int]) by {
            if r.contains(x) {
                let k = choose|k: int| 0 <= k < r.len() && r[k] == x;
                if k < p.len() {
                    assert(r[k] == p[k]);
                }
            }
            if x < flags.len() && flags[x as int] {
                if x < n {
                    assert(d[x as int] == flags[x as int]);
                    assert(p.contains(x));
                    let k = choose|k: int| 0 <= k < p.len() && p[k] == x;
                    assert(r[k] == x);
                } else {
                    assert(r[p.len() as int] == x);
                }
            }
        }
    }
}

/// For each position below `len`, whether `indices` names it.
pub fn selection_flags(len: usize, indices: &[usize]) -> (flags: Vec<bool>)
    ensures
        flags@ == flags_of(indices@, len as nat),
{
    let mut flags: Vec<bool> = Vec::new();
    let mut i: usize = 0;
    while i < len
        invariant
            i <= len,
            flags@.len() == i,
            forall|j: int| 0 <= j < i ==> #[trigger] flags@[j] == false,
        decreases len - i,
    {
        flags.push(false);
        i += 1;
    }
    let mut k: usize = 0;
    while k < indices.len()
        invariant
            k <= indices.len(),
            flags@.len() == len,
            forall|j: int|
                0 <= j < len ==> #[trigger] flags@[j] == indices@.subrange(0, k as int).contains(
                    j as usize,
                ),
        decreases indices.len() - k,
    {
        let index = indices[k];
        let ghost before = indices@.subrange(0, k as int);
        let ghost after = indices@.subrange(0, k + 1);
        assert(after =~= before.push(index));
        if index < len {
            flags.set(index, true);
        }
        assert forall|j: int| 0 <= j < len implies #[trigger] flags@[j] == after.contains(
            j as usize,
        ) by {
            if after.contains(j as usize) && j as usize != index {
                let m = choose|m: int| 0 <= m < after.len() && after[m] == j as usize;
                assert(before[m] == j as usize);
            }
            if before.contains(j as usize) {
                let m = choose|m: int| 0 <= m < before.len() && before[m] == j as usize;
                assert(after[m] == j as usize);
            }
            if j as usize == index {
                assert(after[k as int] == index);
            }
        }
        k += 1;
    }
    assert(indices@.subrange(0, indices@.len() as int) =~= indices@);
    assert(flags@ =~= flags_of(indices@, len as nat));
    flags
}

/// The positions of the `true` flags, in increasing order.
pub fn selected_flags_to_indices(flags: &[bool]) -> (r: Vec<usize>)
    ensures
        r@ == indices_of_flags(flags@),
{
    let mut out: Vec<usize> = Vec::new();
    let mut i: usize = 0;
    while i < flags.len()
        invariant
            i <= flags.len(),
            out@ == indices_of_flags(flags@.subrange(0, i as int)),
        decreases flags.len() - i,
    {
        let ghost pre = flags@.subrange(0, i as int);
        let ghost next = flags@.subrange(0, i + 1);
        assert(next.drop_last() =~= pre);
        if flags[i] {
            out.push(i);
        }
        i += 1;
    }
    assert(flags@.subrange(0, flags@.len() as int) =~= flags@);
    out
}

/// The distinct positions below `len` named by `indices`, in increasing order.
pub fn normalize_indices(indices: &[usize], len: usize) -> (r: Vec<usize>)
    ensures
        r@ == normalized(indices@, len as nat),
        strictly_increasing(r@),
        forall|k: int| 0 <= k < r@.len() ==> #[trigger] r@[k] < len,
        forall|x: usize| #![trigger r@.contains(x)] r@.contains(x) <==> (indices@.contains(x) && x < len),
{
    let flags = selection_flags(len, indices);
    let r = selected_flags_to_indices(flags.as_slice());
    proof {
        lemma_indices_of_flags(flags@);
    }
    r
}

pub proof fn lemma_flags_complement_count(flags: Seq<bool>)
    ensures
        count_true(flags) + count_true(negated(flags)) == flags.len(),
    decreases flags.len(),
{
    if flags.len() > 0 {
        lemma_flags_complement_count(flags.drop_last());
        assert(negated(flags).drop_last() =~= negated(flags.drop_last()));
    }
}

/// Normalizing a selection twice gives the same positions as normalizing it once, and
/// a normalized selection flags the same elements.
pub proof fn law_normalize_is_idempotent(indices: Seq<usize>, len: nat)
    requires
        len <= usize::MAX,
    ensures
        normalized(normalized(indices, len), len) == normalized(indices, len),
        flags_of(normalized(indices, len), len) == flags_of(indices, len),
{
    let f = flags_of(indices, len);
    lemma_indices_of_flags(f);
    let n = normalized(indices, len);
    assert(flags_of(n, len) =~= f) by {
        assert forall|i: int| 0 <= i < len implies flags_of(n, len)[i] == f[i] by {
            if n.contains(i as usize) {
            }
            if f[i] {
                assert(n.contains(i as usize));
            }
        }
    }
}

} // verus!

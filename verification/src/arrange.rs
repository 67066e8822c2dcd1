use vstd::prelude::*;

use crate::element::{elements_view, ElementView, GroupElement, PaintElement};
use crate::indices::{count_true, indices_of_flags, lemma_indices_of_flags, negated, pick};

verus! {

pub proof fn lemma_indices_of_flags_step(flags: Seq<bool>, i: int)
    requires
        0 <= i < flags.len(),
        flags.len() <= usize::MAX,
    ensures
        indices_of_flags(flags.take(i + 1)) == if flags[i] {
            indices_of_flags(flags.take(i)).push(i as usize)
        } else {
            indices_of_flags(flags.take(i))
        },
{
    assert(flags.take(i + 1).drop_last() =~= flags.take(i));
}

pub proof fn lemma_pick_push<A>(s: Seq<A>, idx: Seq<usize>, j: usize)
    ensures
        pick(s, idx.push(j)) == pick(s, idx).push(s[j as int]),
{
    assert(pick(s, idx.push(j)) =~= pick(s, idx).push(s[j as int]));
}

pub proof fn lemma_count_true_prefix(flags: Seq<bool>, i: int)
    requires
        0 <= i <= flags.len(),
    ensures
        count_true(flags.take(i)) <= count_true(flags),
    decreases flags.len(),
{
    if i < flags.len() {
        assert(flags.drop_last().take(i) =~= flags.take(i));
        lemma_count_true_prefix(flags.drop_last(), i);
    } else {
        assert(flags.take(i) =~= flags);
    }
}

pub proof fn lemma_count_true_all(flags: Seq<bool>)
    requires
        forall|k: int| 0 <= k < flags.len() ==> #[trigger] flags[k],
    ensures
        count_true(flags) == flags.len(),
    decreases flags.len(),
{
    if flags.len() > 0 {
        lemma_count_true_all(flags.drop_last());
    }
}

/// Copies the flagged elements and the others, each in their original order.
pub fn split_by_flags(elements: &Vec<PaintElement>, flags: &Vec<bool>) -> (r: (
    Vec<PaintElement>,
    Vec<PaintElement>,
))
    requires
        flags@.len() == elements@.len(),
    ensures
        elements_view(r.0@) == pick(elements_view(elements@), indices_of_flags(flags@)),
        elements_view(r.1@) == pick(elements_view(elements@), indices_of_flags(negated(flags@))),
{
    let ghost e = elements_view(elements@);
    let ghost f = flags@;
    let ghost nf = negated(flags@);
    let mut selected: Vec<PaintElement> = Vec::new();
    let mut unselected: Vec<PaintElement> = Vec::new();
    let mut i: usize = 0;
    proof {
        assert(f.take(0) =~= Seq::<bool>::empty());
        assert(nf.take(0) =~= Seq::<bool>::empty());
        assert(elements_view(selected@) =~= pick(e, indices_of_flags(f.take(0))));
        assert(elements_view(unselected@) =~= pick(e, indices_of_flags(nf.take(0))));
    }
    while i < elements.len()
        invariant
            i <= elements.len(),
            flags@.len() == elements@.len(),
            e == elements_view(elements@),
            f == flags@,
            nf == negated(flags@),
            elements_view(selected@) == pick(e, indices_of_flags(f.take(i as int))),
            elements_view(unselected@) == pick(e, indices_of_flags(nf.take(i as int))),
        decreases elements.len() - i,
    {
        proof {
            lemma_indices_of_flags_step(f, i as int);
            lemma_indices_of_flags_step(nf, i as int);
        }
        let copy = elements[i].deep_copy();
        if flags[i] {
            let ghost before = selected@;
            selected.push(copy);
            proof {
                lemma_pick_push(e, indices_of_flags(f.take(i as int)), i);
                assert(elements_view(selected@) =~= elements_view(before).push(copy.view()));
            }
        } else {
            let ghost before = unselected@;
            unselected.push(copy);
            proof {
                lemma_pick_push(e, indices_of_flags(nf.take(i as int)), i);
                assert(elements_view(unselected@) =~= elements_view(before).push(copy.view()));
            }
        }
        i += 1;
    }
    assert(f.take(elements.len() as int) =~= f);
    assert(nf.take(elements.len() as int) =~= nf);
    (selected, unselected)
}

/// The elements with the flagged ones gathered into one group placed where the first
/// flagged element was; the others keep their order.
pub open spec fn grouped_elements(e: Seq<ElementView>, flags: Seq<bool>) -> Seq<ElementView> {
    let selected = indices_of_flags(flags);
    pick(e, indices_of_flags(negated(flags))).insert(
        selected[0] as int,
        ElementView::Group(pick(e, selected)),
    )
}

pub fn group_flagged(elements: &Vec<PaintElement>, flags: &Vec<bool>, first: usize) -> (r: Vec<
    PaintElement,
>)
    requires
        flags@.len() == elements@.len(),
        flags@.len() <= usize::MAX,
        indices_of_flags(flags@).len() > 0,
        first == indices_of_flags(flags@)[0],
    ensures
        elements_view(r@) == grouped_elements(elements_view(elements@), flags@),
{
    let (selected, mut unselected) = split_by_flags(elements, flags);
    let ghost f = flags@;
    let ghost nf = negated(flags@);
    proof {
        lemma_indices_of_flags(f);
        lemma_indices_of_flags(nf);
        let sel = indices_of_flags(f);
        assert forall|k: int| 0 <= k < first implies #[trigger] nf.take(first as int)[k] by {
            if f[k] {
                assert(sel.contains(k as usize));
                let m = choose|m: int| 0 <= m < sel.len() && sel[m] == k as usize;
                if m > 0 {
                    assert(sel[0] < sel[m]);
                }
            }
        }
        lemma_count_true_all(nf.take(first as int));
        lemma_count_true_prefix(nf, first as int);
        lemma_indices_of_flags(nf);
        assert(first < f.len());
        assert(nf.take(first as int).len() == first);
        assert(count_true(nf) >= first);
        assert(elements_view(unselected@).len() == unselected@.len());
        assert(unselected@.len() == indices_of_flags(nf).len());
    }
    let group = PaintElement::Group(GroupElement { elements: selected });
    let ghost before = unselected@;
    unselected.insert(first, group);
    proof {
        let gv = group.view();
        assert(gv->Group_0 =~= elements_view(selected@));
        assert(elements_view(unselected@) =~= elements_view(before).insert(first as int, gv));
    }
    unselected
}

} // verus!

verus! {

pub proof fn lemma_elements_view_append(a: Seq<PaintElement>, b: Seq<PaintElement>)
    ensures
        elements_view(a + b) == elements_view(a) + elements_view(b),
{
    assert(elements_view(a + b) =~= elements_view(a) + elements_view(b));
}

/// The elements with each flagged group replaced by its children.
pub open spec fn ungrouped_elements(e: Seq<ElementView>, f: Seq<bool>) -> Seq<ElementView>
    decreases e.len(),
{
    if e.len() == 0 || f.len() == 0 {
        Seq::empty()
    } else {
        let prefix = ungrouped_elements(e.drop_last(), f.drop_last());
        if f.last() && e.last() is Group {
            prefix + e.last()->Group_0
        } else {
            prefix.push(e.last())
        }
    }
}

/// Positions, in the ungrouped elements, of what was flagged: the children of flagged
/// groups and the flagged elements that are not groups.
pub open spec fn ungrouped_selection(e: Seq<ElementView>, f: Seq<bool>) -> Seq<usize>
    decreases e.len(),
{
    if e.len() == 0 || f.len() == 0 {
        Seq::empty()
    } else {
        let prefix = ungrouped_selection(e.drop_last(), f.drop_last());
        let base = ungrouped_elements(e.drop_last(), f.drop_last()).len();
        if f.last() {
            if e.last() is Group {
                prefix + Seq::new(e.last()->Group_0.len(), |k: int| (base + k) as usize)
            } else {
                prefix.push(base as usize)
            }
        } else {
            prefix
        }
    }
}

pub open spec fn has_flagged_group(e: Seq<ElementView>, f: Seq<bool>) -> bool {
    exists|i: int| 0 <= i < e.len() && #[trigger] f[i] && e[i] is Group
}

pub fn ungroup_flagged(elements: &Vec<PaintElement>, flags: &Vec<bool>) -> (r: (
    Vec<PaintElement>,
    Vec<usize>,
    bool,
))
    requires
        flags@.len() == elements@.len(),
    ensures
        elements_view(r.0@) == ungrouped_elements(elements_view(elements@), flags@),
        r.1@ == ungrouped_selection(elements_view(elements@), flags@),
        r.2 == has_flagged_group(elements_view(elements@), flags@),
{
    let ghost e = elements_view(elements@);
    let ghost f = flags@;
    let mut out: Vec<PaintElement> = Vec::new();
    let mut selection: Vec<usize> = Vec::new();
    let mut changed = false;
    let mut i: usize = 0;
    proof {
        assert(e.take(0) =~= Seq::<ElementView>::empty());
        assert(elements_view(out@) =~= Seq::<ElementView>::empty());
    }
    while i < elements.len()
        invariant
            i <= elements.len(),
            flags@.len() == elements@.len(),
            e == elements_view(elements@),
            f == flags@,
            elements_view(out@) == ungrouped_elements(e.take(i as int), f.take(i as int)),
            selection@ == ungrouped_selection(e.take(i as int), f.take(i as int)),
            changed == exists|j: int| 0 <= j < i && #[trigger] f[j] && e[j] is Group,
        decreases elements.len() - i,
    {
        let ghost et = e.take(i + 1);
        let ghost ft = f.take(i + 1);
        proof {
            assert(et.drop_last() =~= e.take(i as int));
            assert(ft.drop_last() =~= f.take(i as int));
            assert(et.last() == e[i as int]);
        }
        let ghost base = out@.len();
        let ghost out_before = out@;
        let ghost sel_before = selection@;
        match &elements[i] {
            PaintElement::Group(g) if flags[i] => {
                changed = true;
                let ghost kids = elements_view(g.elements@);
                proof {
                    assert(e[i as int] == elements@[i as int].view());
                    assert(e[i as int]->Group_0 =~= kids);
                }
                let mut k: usize = 0;
                while k < g.elements.len()
                    invariant
                        k <= g.elements.len(),
                        kids == elements_view(g.elements@),
                        out@.len() == base + k,
                        elements_view(out@) == elements_view(out_before) + kids.take(k as int),
                        selection@ == sel_before + Seq::new(k as nat, |m: int| (base + m) as usize),
                    decreases g.elements.len() - k,
                {
                    let child = g.elements[k].deep_copy();
                    let ghost out_mid = out@;
                    selection.push(out.len());
                    out.push(child);
                    proof {
                        assert(selection@ =~= sel_before + Seq::new(
                            (k + 1) as nat,
                            |m: int| (base + m) as usize,
                        ));
                        assert(elements_view(out@) =~= elements_view(out_mid).push(child.view()));
                        assert(kids.take(k + 1) =~= kids.take(k as int).push(kids[k as int]));
                        assert(elements_view(out@) =~= elements_view(out_before) + kids.take(k + 1));
                    }
                    k += 1;
                }
                proof {
                    assert(kids.take(g.elements.len() as int) =~= kids);
                }
            },
            _ => {
                let copy = elements[i].deep_copy();
                if flags[i] {
                    selection.push(out.len());
                }
                out.push(copy);
                proof {
                    assert(elements_view(out@) =~= elements_view(out_before).push(copy.view()));
                    assert(copy.view() == e[i as int]);
                }
            },
        }
        i += 1;
    }
    assert(e.take(elements.len() as int) =~= e);
    assert(f.take(elements.len() as int) =~= f);
    (out, selection, changed)
}

} // verus!

verus! {

/// Number of leading `true` flags.
pub open spec fn lead_run(f: Seq<bool>) -> nat
    decreases f.len(),
{
    if f.len() > 0 && f[0] {
        1 + lead_run(f.drop_first())
    } else {
        0
    }
}

pub open spec fn range_seq(start: int, len: nat) -> Seq<usize> {
    Seq::new(len, |k: int| (start + k) as usize)
}

/// New order of the positions `base..base + f.len()` when every run of flagged
/// elements moves one step up: the unflagged element just above a run moves below it.
pub open spec fn forward_order(f: Seq<bool>, base: int) -> Seq<usize>
    decreases f.len(),
{
    if f.len() == 0 {
        Seq::empty()
    } else if !f[0] {
        seq![base as usize] + forward_order(f.drop_first(), base + 1)
    } else {
        let k = lead_run(f);
        if k >= f.len() {
            range_seq(base, f.len())
        } else {
            seq![(base + k) as usize] + range_seq(base, k) + forward_order(
                f.skip((k + 1) as int),
                base + k + 1,
            )
        }
    }
}

/// New order of the positions `base..base + f.len()` when every run of flagged
/// elements moves one step down: the unflagged element just below a run moves above it.
pub open spec fn backward_order(f: Seq<bool>, base: int) -> Seq<usize>
    decreases f.len(),
{
    if f.len() == 0 {
        Seq::empty()
    } else if f[0] {
        seq![base as usize] + backward_order(f.drop_first(), base + 1)
    } else {
        let k = lead_run(f.drop_first());
        if k == 0 || k + 1 > f.len() {
            seq![base as usize] + backward_order(f.drop_first(), base + 1)
        } else {
            range_seq(base + 1, k) + seq![base as usize] + backward_order(
                f.skip((k + 1) as int),
                base + k + 1,
            )
        }
    }
}

pub proof fn lemma_lead_run(s: Seq<bool>, m: int)
    requires
        0 <= m <= s.len(),
        forall|k: int| 0 <= k < m ==> #[trigger] s[k],
        m == s.len() || !s[m],
    ensures
        lead_run(s) == m,
    decreases m,
{
    if m > 0 {
        lemma_lead_run(s.drop_first(), m - 1);
    }
}

pub proof fn lemma_lead_run_bound(s: Seq<bool>)
    ensures
        lead_run(s) <= s.len(),
    decreases s.len(),
{
    if s.len() > 0 && s[0] {
        lemma_lead_run_bound(s.drop_first());
    }
}

proof fn lemma_forward_unflagged(f: Seq<bool>, i: int)
    requires
        0 <= i < f.len(),
        !f[i],
    ensures
        forward_order(f.skip(i), i) == seq![i as usize] + forward_order(f.skip(i + 1), i + 1),
{
    assert(f.skip(i).drop_first() =~= f.skip(i + 1));
}

proof fn lemma_forward_run_to_end(f: Seq<bool>, i: int)
    requires
        0 <= i < f.len(),
        forall|k: int| i <= k < f.len() ==> #[trigger] f[k],
    ensures
        forward_order(f.skip(i), i) == range_seq(i, (f.len() - i) as nat),
{
    let s = f.skip(i);
    lemma_lead_run(s, s.len() as int);
}

proof fn lemma_forward_run(f: Seq<bool>, i: int, j: int)
    requires
        0 <= i < j < f.len(),
        forall|k: int| i <= k < j ==> #[trigger] f[k],
        !f[j],
    ensures
        forward_order(f.skip(i), i) == seq![j as usize] + range_seq(i, (j - i) as nat)
            + forward_order(f.skip(j + 1), j + 1),
{
    let s = f.skip(i);
    lemma_lead_run(s, j - i);
    assert(s.skip(j - i + 1) =~= f.skip(j + 1));
}

/// Positions of the flagged elements after one step up, and whether anything moved.
#[verifier::spinoff_prover]
#[verifier::rlimit(30)]
pub fn forward_positions(flags: &Vec<bool>) -> (r: (Vec<usize>, bool))
    ensures
        r.0@ == forward_order(flags@, 0),
        r.1 == exists|p: int| 0 <= p && p + 1 < flags@.len() && #[trigger] flags@[p] && !flags@[p + 1],
{
    let ghost f = flags@;
    let n = flags.len();
    let mut order: Vec<usize> = Vec::new();
    let mut changed = false;
    let mut i: usize = 0;
    assert(f.skip(0) =~= f);
    while i < n
        invariant
            n == flags@.len(),
            f == flags@,
            i <= n,
            order@ + forward_order(f.skip(i as int), i as int) == forward_order(f, 0),
            i > 0 && i < n ==> !f[i - 1],
            changed == exists|p: int| 0 <= p && p + 1 < i && #[trigger] f[p] && !f[p + 1],
        decreases n - i,
    {
        let ghost s = f.skip(i as int);
        if !flags[i] {
            proof {
                lemma_forward_unflagged(f, i as int);
                assert(order@.push(i) + forward_order(f.skip(i + 1), i + 1) =~= order@ + forward_order(s, i as int));
                assert forall|p: int| 0 <= p && p + 1 < i + 1 && #[trigger] f[p] && !f[p + 1] implies p + 1 < i by {
                    if p + 1 == i {
                    }
                }
            }
            order.push(i);
            i += 1;
        } else {
            let mut j = i;
            while j < n && flags[j]
                invariant
                    n == flags@.len(),
                    f == flags@,
                    i <= j <= n,
                    forall|k: int| i <= k < j ==> #[trigger] f[k],
                decreases n - j,
            {
                j += 1;
            }
            let ghost before = order@;
            if j == n {
                let mut k = i;
                while k < n
                    invariant
                        i <= k <= n,
                        order@ == before + range_seq(i as int, (k - i) as nat),
                    decreases n - k,
                {
                    order.push(k);
                    k += 1;
                    assert(order@ =~= before + range_seq(i as int, (k - i) as nat));
                }
                proof {
                    lemma_forward_run_to_end(f, i as int);
                    assert(f.skip(n as int) =~= Seq::<bool>::empty());
                    assert(order@ + forward_order(f.skip(n as int), n as int) =~= before + forward_order(s, i as int));
                    assert forall|p: int| 0 <= p && p + 1 < n && #[trigger] f[p] && !f[p + 1] implies p + 1 < i by {
                        if p + 1 >= i {
                            assert(f[p + 1]);
                        }
                    }
                }
                i = n;
            } else {
                order.push(j);
                let mut k = i;
                while k < j
                    invariant
                        i <= k <= j,
                        order@ == before.push(j) + range_seq(i as int, (k - i) as nat),
                    decreases j - k,
                {
                    order.push(k);
                    k += 1;
                    assert(order@ =~= before.push(j) + range_seq(i as int, (k - i) as nat));
                }
                proof {
                    lemma_forward_run(f, i as int, j as int);
                    assert(order@ + forward_order(f.skip(j + 1), j + 1) =~= before + forward_order(s, i as int));
                    assert(f[j - 1] && !f[j as int]);
                    assert forall|p: int| 0 <= p && p + 1 < j + 1 && #[trigger] f[p] && !f[p + 1] implies (p + 1 < i || p == j - 1) by {
                        if p + 1 >= i && p + 1 < j {
                            assert(f[p + 1]);
                        }
                        if p + 1 == i {
                        }
                    }
                }
                changed = true;
                i = j + 1;
            }
        }
    }
    proof {
        assert(f.skip(n as int) =~= Seq::<bool>::empty());
        assert(order@ =~= forward_order(f, 0));
    }
    (order, changed)
}

} // verus!

verus! {

proof fn lemma_backward_flagged(f: Seq<bool>, i: int)
    requires
        0 <= i < f.len(),
        f[i],
    ensures
        backward_order(f.skip(i), i) == seq![i as usize] + backward_order(f.skip(i + 1), i + 1),
{
    assert(f.skip(i).drop_first() =~= f.skip(i + 1));
}

proof fn lemma_backward_lone(f: Seq<bool>, i: int)
    requires
        0 <= i < f.len(),
        !f[i],
        i + 1 == f.len() || !f[i + 1],
    ensures
        backward_order(f.skip(i), i) == seq![i as usize] + backward_order(f.skip(i + 1), i + 1),
{
    let s = f.skip(i);
    assert(s.drop_first() =~= f.skip(i + 1));
    lemma_lead_run(s.drop_first(), 0);
}

proof fn lemma_backward_run(f: Seq<bool>, i: int, j: int)
    requires
        0 <= i,
        i + 1 < j <= f.len(),
        !f[i],
        forall|k: int| i < k < j ==> #[trigger] f[k],
        j == f.len() || !f[j],
    ensures
        backward_order(f.skip(i), i) == range_seq(i + 1, (j - i - 1) as nat) + seq![i as usize]
            + backward_order(f.skip(j), j),
{
    let s = f.skip(i);
    lemma_lead_run(s.drop_first(), j - i - 1);
    assert(s.skip(j - i) =~= f.skip(j));
}

/// Positions of the flagged elements after one step down, and whether anything moved.
#[verifier::spinoff_prover]
#[verifier::rlimit(30)]
pub fn backward_positions(flags: &Vec<bool>) -> (r: (Vec<usize>, bool))
    ensures
        r.0@ == backward_order(flags@, 0),
        r.1 == exists|p: int| 1 <= p < flags@.len() && #[trigger] flags@[p] && !flags@[p - 1],
{
    let ghost f = flags@;
    let n = flags.len();
    let mut order: Vec<usize> = Vec::new();
    let mut changed = false;
    let mut i: usize = 0;
    assert(f.skip(0) =~= f);
    while i < n
        invariant
            n == flags@.len(),
            f == flags@,
            i <= n,
            order@ + backward_order(f.skip(i as int), i as int) == backward_order(f, 0),
            i > 0 && i < n && f[i as int] ==> f[i - 1],
            changed == exists|p: int| 1 <= p < i && #[trigger] f[p] && !f[p - 1],
        decreases n - i,
    {
        let ghost s = f.skip(i as int);
        if flags[i] {
            proof {
                lemma_backward_flagged(f, i as int);
                assert(order@.push(i) + backward_order(f.skip(i + 1), i + 1) =~= order@
                    + backward_order(s, i as int));
                assert forall|p: int| 1 <= p < i + 1 && #[trigger] f[p] && !f[p - 1] implies p
                    < i by {
                    if p == i {
                    }
                }
            }
            order.push(i);
            i += 1;
        } else {
            let mut j = i + 1;
            while j < n && flags[j]
                invariant
                    n == flags@.len(),
                    f == flags@,
                    i < j <= n,
                    forall|k: int| i < k < j ==> #[trigger] f[k],
                decreases n - j,
            {
                j += 1;
            }
            let ghost before = order@;
            if j == i + 1 {
                proof {
                    lemma_backward_lone(f, i as int);
                    assert(before.push(i) + backward_order(f.skip(i + 1), i + 1) =~= before
                        + backward_order(s, i as int));
                    assert forall|p: int| 1 <= p < i + 1 && #[trigger] f[p] && !f[p - 1] implies p
                        < i by {
                        if p == i {
                        }
                    }
                }
                order.push(i);
                i += 1;
            } else {
                let mut k = i + 1;
                while k < j
                    invariant
                        i < k <= j,
                        order@ == before + range_seq(i + 1, (k - i - 1) as nat),
                    decreases j - k,
                {
                    order.push(k);
                    k += 1;
                    assert(order@ =~= before + range_seq(i + 1, (k - i - 1) as nat));
                }
                order.push(i);
                proof {
                    lemma_backward_run(f, i as int, j as int);
                    assert(order@ + backward_order(f.skip(j as int), j as int) =~= before
                        + backward_order(s, i as int));
                    assert(f[i + 1] && !f[i as int]);
                    assert forall|p: int| 1 <= p < j && #[trigger] f[p] && !f[p - 1] implies (p
                        < i || p == i + 1) by {
                        if p > i + 1 {
                            assert(f[p - 1]);
                        }
                    }
                }
                changed = true;
                i = j;
            }
        }
    }
    proof {
        assert(f.skip(n as int) =~= Seq::<bool>::empty());
        assert(order@ =~= backward_order(f, 0));
    }
    (order, changed)
}

/// Copies of the elements at the given positions, in that order.
pub fn pick_elements(elements: &Vec<PaintElement>, positions: &Vec<usize>) -> (r: Vec<PaintElement>)
    requires
        forall|k: int| 0 <= k < positions@.len() ==> #[trigger] positions@[k] < elements@.len(),
    ensures
        elements_view(r@) == pick(elements_view(elements@), positions@),
{
    let mut out: Vec<PaintElement> = Vec::new();
    let mut k: usize = 0;
    while k < positions.len()
        invariant
            k <= positions.len(),
            forall|m: int| 0 <= m < positions@.len() ==> #[trigger] positions@[m] < elements@.len(),
            elements_view(out@) == pick(elements_view(elements@), positions@.take(k as int)),
        decreases positions.len() - k,
    {
        let e = elements[positions[k]].deep_copy();
        let ghost before = out@;
        out.push(e);
        proof {
            assert(positions@.take(k + 1) =~= positions@.take(k as int).push(positions@[k as int]));
            lemma_pick_push(elements_view(elements@), positions@.take(k as int), positions@[k as int]);
            assert(elements_view(out@) =~= elements_view(before).push(e.view()));
        }
        k += 1;
    }
    assert(positions@.take(positions@.len() as int) =~= positions@);
    out
}

/// The flags at the given positions, in that order.
pub fn pick_flags(flags: &Vec<bool>, positions: &Vec<usize>) -> (r: Vec<bool>)
    requires
        forall|k: int| 0 <= k < positions@.len() ==> #[trigger] positions@[k] < flags@.len(),
    ensures
        r@ == pick(flags@, positions@),
{
    let mut out: Vec<bool> = Vec::new();
    let mut k: usize = 0;
    while k < positions.len()
        invariant
            k <= positions.len(),
            forall|m: int| 0 <= m < positions@.len() ==> #[trigger] positions@[m] < flags@.len(),
            out@ == pick(flags@, positions@.take(k as int)),
        decreases positions.len() - k,
    {
        out.push(flags[positions[k]]);
        proof {
            assert(positions@.take(k + 1) =~= positions@.take(k as int).push(positions@[k as int]));
            lemma_pick_push(flags@, positions@.take(k as int), positions@[k as int]);
        }
        k += 1;
    }
    assert(positions@.take(positions@.len() as int) =~= positions@);
    out
}

} // verus!

verus! {

/// Every value of a reordering lies in `base..base + f.len()`, and there are `f.len()` of them.
pub proof fn lemma_forward_order_range(f: Seq<bool>, base: int)
    requires
        0 <= base,
        base + f.len() <= usize::MAX,
    ensures
        forward_order(f, base).len() == f.len(),
        forall|k: int|
            0 <= k < f.len() ==> base <= #[trigger] forward_order(f, base)[k] < base + f.len(),
    decreases f.len(),
{
    if f.len() > 0 {
        if !f[0] {
            lemma_forward_order_range(f.drop_first(), base + 1);
            let o = forward_order(f, base);
            let t = forward_order(f.drop_first(), base + 1);
            assert forall|k: int| 0 <= k < f.len() implies base <= #[trigger] o[k] < base + f.len() by {
                if k > 0 {
                    assert(o[k] == t[k - 1]);
                }
            }
        } else {
            let k = lead_run(f);
            lemma_lead_run_bound(f);
            if k < f.len() {
                let t = forward_order(f.skip((k + 1) as int), base + k + 1);
                lemma_forward_order_range(f.skip((k + 1) as int), base + k + 1);
                let o = forward_order(f, base);
                let head = seq![(base + k) as usize] + range_seq(base, k);
                assert(o == head + t);
                assert forall|m: int| 0 <= m < f.len() implies base <= #[trigger] o[m] < base + f.len() by {
                    if m >= head.len() {
                        assert(o[m] == t[m - head.len()]);
                    } else if m > 0 {
                        assert(o[m] == head[m]);
                    }
                }
            }
        }
    }
}

pub proof fn lemma_backward_order_range(f: Seq<bool>, base: int)
    requires
        0 <= base,
        base + f.len() <= usize::MAX,
    ensures
        backward_order(f, base).len() == f.len(),
        forall|k: int|
            0 <= k < f.len() ==> base <= #[trigger] backward_order(f, base)[k] < base + f.len(),
    decreases f.len(),
{
    if f.len() > 0 {
        let k = lead_run(f.drop_first());
        lemma_lead_run_bound(f.drop_first());
        if f[0] || k == 0 {
            lemma_backward_order_range(f.drop_first(), base + 1);
            let o = backward_order(f, base);
            let t = backward_order(f.drop_first(), base + 1);
            assert forall|m: int| 0 <= m < f.len() implies base <= #[trigger] o[m] < base + f.len() by {
                if m > 0 {
                    assert(o[m] == t[m - 1]);
                }
            }
        } else {
            let t = backward_order(f.skip((k + 1) as int), base + k + 1);
            lemma_backward_order_range(f.skip((k + 1) as int), base + k + 1);
            let o = backward_order(f, base);
            let head = range_seq(base + 1, k) + seq![base as usize];
            assert(o == head + t);
            assert forall|m: int| 0 <= m < f.len() implies base <= #[trigger] o[m] < base + f.len() by {
                if m >= head.len() {
                    assert(o[m] == t[m - head.len()]);
                } else {
                    assert(o[m] == head[m]);
                }
            }
        }
    }
}

} // verus!

use vstd::prelude::*;

use crate::document::PaintDocument;
use crate::indices::strictly_increasing;
use crate::model::{AlignmentKind, ShapeKind, StackOrderCommand};

verus! {

/// The tools of the canvas.
#[derive(Debug, Clone, Copy, PartialEq, Eq, Structural)]
pub enum CanvasToolKind {
    Select,
    Brush,
    Eraser,
    Rectangle,
    Ellipse,
    Line,
}

impl CanvasToolKind {
    pub open spec fn spec_label(self) -> Seq<char> {
        match self {
            CanvasToolKind::Select => "Select"@,
            CanvasToolKind::Brush => "Brush"@,
            CanvasToolKind::Eraser => "Eraser"@,
            CanvasToolKind::Rectangle => "Rectangle"@,
            CanvasToolKind::Ellipse => "Ellipse"@,
            CanvasToolKind::Line => "Line"@,
        }
    }

    pub fn label(self) -> (r: &'static str)
        ensures
            r@ == self.spec_label(),
    {
        match self {
            CanvasToolKind::Select => "Select",
            CanvasToolKind::Brush => "Brush",
            CanvasToolKind::Eraser => "Eraser",
            CanvasToolKind::Rectangle => "Rectangle",
            CanvasToolKind::Ellipse => "Ellipse",
            CanvasToolKind::Line => "Line",
        }
    }

    /// The shape a shape tool draws.
    pub fn shape_kind(self) -> (r: Option<ShapeKind>)
        ensures
            r == (match self {
                CanvasToolKind::Rectangle => Some(ShapeKind::Rectangle),
                CanvasToolKind::Ellipse => Some(ShapeKind::Ellipse),
                CanvasToolKind::Line => Some(ShapeKind::Line),
                _ => None,
            }),
    {
        match self {
            CanvasToolKind::Rectangle => Some(ShapeKind::Rectangle),
            CanvasToolKind::Ellipse => Some(ShapeKind::Ellipse),
            CanvasToolKind::Line => Some(ShapeKind::Line),
            _ => None,
        }
    }
}

/// The kind of an edit of the selection that the canvas hands back.
#[derive(Debug, Clone, Copy, PartialEq, Eq, Structural)]
pub enum DocumentEditMode {
    Move,
    Resize,
    Rotate,
    Align(AlignmentKind),
    Reorder(StackOrderCommand),
}

impl DocumentEditMode {
    pub open spec fn spec_label(self) -> Seq<char> {
        match self {
            DocumentEditMode::Move => "moving"@,
            DocumentEditMode::Resize => "resizing"@,
            DocumentEditMode::Rotate => "rotating"@,
            DocumentEditMode::Align(_) => "aligning"@,
            DocumentEditMode::Reorder(_) => "reordering"@,
        }
    }

    pub fn label(self) -> (r: &'static str)
        ensures
            r@ == self.spec_label(),
    {
        match self {
            DocumentEditMode::Move => "moving",
            DocumentEditMode::Resize => "resizing",
            DocumentEditMode::Rotate => "rotating",
            DocumentEditMode::Align(_) => "aligning",
            DocumentEditMode::Reorder(_) => "reordering",
        }
    }
}

/// `r` holds exactly the values of `s`, in increasing order without repeats.
pub open spec fn sorted_distinct_of(r: Seq<usize>, s: Seq<usize>) -> bool {
    &&& strictly_increasing(r)
    &&& forall|x: usize| #[trigger] r.contains(x) <==> s.contains(x)
}

/// `r` is the strictly increasing `s` with `index` added when absent and removed when
/// present.
pub open spec fn toggled_selection(r: Seq<usize>, s: Seq<usize>, index: usize) -> bool {
    &&& strictly_increasing(r)
    &&& forall|x: usize| #[trigger] r.contains(x) <==> (s.contains(x) != (x == index))
}

/// Inserts `x` into the strictly increasing `v`, keeping it strictly increasing.
fn insert_sorted(v: &mut Vec<usize>, x: usize)
    requires
        strictly_increasing(old(v)@),
    ensures
        strictly_increasing(final(v)@),
        forall|y: usize| #[trigger] final(v)@.contains(y) <==> (old(v)@.contains(y) || y == x),
{
    let mut k: usize = 0;
    while k < v.len() && v[k] < x
        invariant
            k <= v.len(),
            forall|j: int| 0 <= j < k ==> #[trigger] v@[j] < x,
        decreases v.len() - k,
    {
        k += 1;
    }
    if k < v.len() && v[k] == x {
        assert(v@[k as int] == x);
        return;
    }
    let ghost before = v@;
    v.insert(k, x);
    proof {
        assert(v@ =~= before.take(k as int).push(x) + before.skip(k as int));
        assert forall|i: int, j: int| 0 <= i < j < v@.len() implies v@[i] < v@[j] by {
            if j < k {
                assert(v@[i] == before[i] && v@[j] == before[j]);
            } else if j == k {
                assert(v@[i] == before[i]);
            } else if i == k {
                assert(v@[j] == before[j - 1]);
                assert(before[k as int] >= x);
                if j - 1 > k {
                    assert(before[k as int] < before[j - 1]);
                }
            } else if i < k {
                assert(v@[i] == before[i] && v@[j] == before[j - 1]);
                assert(before[i] < x);
            } else {
                assert(v@[i] == before[i - 1] && v@[j] == before[j - 1]);
            }
        }
        assert forall|y: usize| #[trigger] v@.contains(y) <==> (before.contains(y) || y == x) by {
            if v@.contains(y) {
                let i = choose|i: int| 0 <= i < v@.len() && v@[i] == y;
                if i < k {
                    assert(before[i] == y);
                } else if i > k {
                    assert(before[i - 1] == y);
                }
            }
            if before.contains(y) {
                let i = choose|i: int| 0 <= i < before.len() && before[i] == y;
                if i < k {
                    assert(v@[i] == y);
                } else {
                    assert(v@[i + 1] == y);
                }
            }
            if y == x {
                assert(v@[k as int] == x);
            }
        }
    }
}

/// Sorts `indices` in increasing order and drops repeated values.
pub fn normalize_selection_indices(indices: &mut Vec<usize>)
    ensures
        sorted_distinct_of(final(indices)@, old(indices)@),
{
    let mut out: Vec<usize> = Vec::new();
    let mut i: usize = 0;
    while i < indices.len()
        invariant
            i <= indices.len(),
            strictly_increasing(out@),
            forall|x: usize| #[trigger] out@.contains(x) <==> indices@.take(i as int).contains(x),
        decreases indices.len() - i,
    {
        let ghost prev = out@;
        insert_sorted(&mut out, indices[i]);
        proof {
            assert forall|x: usize| #[trigger] out@.contains(x) <==> indices@.take(
                i + 1,
            ).contains(x) by {
                let t = indices@.take(i + 1);
                assert(t =~= indices@.take(i as int).push(indices@[i as int]));
                if out@.contains(x) && x != indices@[i as int] {
                    assert(prev.contains(x));
                    assert(indices@.take(i as int).contains(x));
                    let j = choose|j: int|
                        0 <= j < i && #[trigger] indices@.take(i as int)[j] == x;
                    assert(t[j] == x);
                }
                if x == indices@[i as int] {
                    assert(t[i as int] == x);
                }
                if t.contains(x) && x != indices@[i as int] {
                    let j = choose|j: int| 0 <= j < t.len() && #[trigger] t[j] == x;
                    assert(indices@.take(i as int)[j] == x);
                }
            }
        }
        i += 1;
    }
    assert(indices@.take(indices@.len() as int) =~= indices@);
    *indices = out;
}

/// Two strictly increasing sequences with the same values are the same sequence.
pub proof fn lemma_sorted_distinct_unique(a: Seq<usize>, b: Seq<usize>)
    requires
        strictly_increasing(a),
        strictly_increasing(b),
        forall|x: usize| #[trigger] a.contains(x) <==> b.contains(x),
    ensures
        a == b,
    decreases a.len(),
{
    if a.len() == 0 {
        if b.len() > 0 {
            assert(b.contains(b[0]));
            assert(!a.contains(b[0]));
        }
        assert(a =~= b);
    } else {
        assert(a.contains(a[0]));
        assert(b.contains(a[0]));
        assert(b.len() > 0);
        assert(b.contains(b[0]));
        assert(a.contains(b[0]));
        let ia = choose|i: int| 0 <= i < a.len() && a[i] == b[0];
        let ib = choose|i: int| 0 <= i < b.len() && b[i] == a[0];
        assert(a[0] == b[0]) by {
            if ia > 0 {
                assert(a[0] < a[ia]);
            }
            if ib > 0 {
                assert(b[0] < b[ib]);
            }
        }
        let ta = a.drop_first();
        let tb = b.drop_first();
        assert forall|x: usize| #[trigger] ta.contains(x) <==> tb.contains(x) by {
            if ta.contains(x) {
                let i = choose|i: int| 0 <= i < ta.len() && ta[i] == x;
                assert(a[i + 1] == x);
                assert(a[0] < a[i + 1]);
                assert(a.contains(x));
                let j = choose|j: int| 0 <= j < b.len() && b[j] == x;
                assert(j != 0);
                assert(tb[j - 1] == x);
            }
            if tb.contains(x) {
                let i = choose|i: int| 0 <= i < tb.len() && tb[i] == x;
                assert(b[i + 1] == x);
                assert(b[0] < b[i + 1]);
                assert(b.contains(x));
                assert(a.contains(x));
                let j = choose|j: int| 0 <= j < a.len() && a[j] == x;
                assert(j != 0);
                assert(ta[j - 1] == x);
            }
        }
        lemma_sorted_distinct_unique(ta, tb);
        assert(a =~= b) by {
            assert forall|i: int| 0 <= i < a.len() implies a[i] == b[i] by {
                if i > 0 {
                    assert(ta[i - 1] == tb[i - 1]);
                }
            }
        }
    }
}

/// The selected element positions of the active layer, kept in increasing order
/// without repeats.
#[derive(Debug)]
pub struct SelectionState {
    indices: Vec<usize>,
}

impl View for SelectionState {
    type V = Seq<usize>;

    closed spec fn view(&self) -> Seq<usize> {
        self.indices@
    }
}

impl SelectionState {
    #[verifier::type_invariant]
    spec fn increasing(self) -> bool {
        strictly_increasing(self.indices@)
    }

    /// An empty selection.
    pub fn new() -> (s: Self)
        ensures
            s@ == Seq::<usize>::empty(),
    {
        SelectionState { indices: Vec::new() }
    }

    pub fn clear(&mut self)
        ensures
            final(self)@ == Seq::<usize>::empty(),
    {
        self.indices = Vec::new();
    }

    pub fn len(&self) -> (r: usize)
        ensures
            r == self@.len(),
    {
        self.indices.len()
    }

    pub fn is_empty(&self) -> (r: bool)
        ensures
            r == (self@.len() == 0),
    {
        self.indices.len() == 0
    }

    pub fn contains(&self, index: usize) -> (r: bool)
        ensures
            r == self@.contains(index),
    {
        let mut i: usize = 0;
        while i < self.indices.len()
            invariant
                i <= self.indices.len(),
                forall|j: int| 0 <= j < i ==> #[trigger] self.indices@[j] != index,
            decreases self.indices.len() - i,
        {
            if self.indices[i] == index {
                assert(self@[i as int] == index);
                return true;
            }
            i += 1;
        }
        false
    }

    /// The selected position when exactly one is selected.
    pub fn single(&self) -> (r: Option<usize>)
        ensures
            r == (if self@.len() == 1 {
                Some(self@[0])
            } else {
                None
            }),
    {
        if self.indices.len() == 1 {
            Some(self.indices[0])
        } else {
            None
        }
    }

    /// The selected positions, in increasing order without repeats.
    pub fn indices(&self) -> (r: &[usize])
        ensures
            r@ == self@,
            strictly_increasing(r@),
    {
        proof {
            use_type_invariant(self);
        }
        self.indices.as_slice()
    }

    /// Selects exactly `index`.
    pub fn set_only(&mut self, index: usize)
        ensures
            final(self)@ == seq![index],
    {
        let mut v: Vec<usize> = Vec::new();
        v.push(index);
        self.indices = v;
    }

    /// Adds `index` to the selection when it is not in it, and removes it when it is.
    pub fn toggle(&mut self, index: usize)
        ensures
            toggled_selection(final(self)@, old(self)@, index),
    {
        proof {
            use_type_invariant(&*self);
        }
        let ghost s = self.indices@;
        let mut p: usize = 0;
        while p < self.indices.len() && self.indices[p] != index
            invariant
                s == self.indices@,
                p <= s.len(),
                forall|j: int| 0 <= j < p ==> #[trigger] s[j] != index,
            decreases s.len() - p,
        {
            p += 1;
        }
        if p < self.indices.len() {
            let mut v = copy_positions(&self.indices);
            v.remove(p);
            proof {
                assert(v@ =~= s.remove(p as int));
                assert forall|a: int, b: int| 0 <= a < b < v@.len() implies v@[a] < v@[b] by {
                    if b < p {
                    } else if a < p {
                        assert(v@[b] == s[b + 1]);
                    } else {
                        assert(v@[a] == s[a + 1] && v@[b] == s[b + 1]);
                    }
                }
                assert forall|x: usize| #[trigger] v@.contains(x) <==> (s.contains(x) != (x
                    == index)) by {
                    if v@.contains(x) {
                        let j = choose|j: int| 0 <= j < v@.len() && v@[j] == x;
                        if j < p {
                            assert(s[j] == x);
                            assert(s[j] < s[p as int]);
                        } else {
                            assert(s[j + 1] == x);
                            assert(s[p as int] < s[j + 1]);
                        }
                    }
                    if s.contains(x) && x != index {
                        let j = choose|j: int| 0 <= j < s.len() && s[j] == x;
                        if j < p {
                            assert(v@[j] == x);
                        } else {
                            assert(j != p);
                            assert(v@[j - 1] == x);
                        }
                    }
                    if x == index {
                        assert(s[p as int] == index);
                    }
                }
            }
            self.indices = v;
        } else {
            let mut w = copy_positions(&self.indices);
            insert_sorted(&mut w, index);
            proof {
                assert(!s.contains(index));
            }
            self.indices = w;
        }
    }

    /// Selects the distinct positions of `indices`.
    pub fn set_indices(&mut self, indices: Vec<usize>)
        ensures
            sorted_distinct_of(final(self)@, indices@),
    {
        let mut indices = indices;
        normalize_selection_indices(&mut indices);
        self.indices = indices;
    }

    /// Drops the positions past the elements of the active layer of `document`.
    pub fn retain_valid(&mut self, document: &PaintDocument)
        ensures
            strictly_increasing(final(self)@),
            forall|x: usize| #[trigger] final(self)@.contains(x) <==> (old(self)@.contains(x)
                && x < (match document.active_position() {
                Some(i) => document@.layers[i].elements.len(),
                None => 0,
            })),
    {
        proof {
            use_type_invariant(&*self);
        }
        let count = document.element_count();
        let mut v: Vec<usize> = Vec::new();
        let mut i: usize = 0;
        while i < self.indices.len()
            invariant
                i <= self.indices.len(),
                strictly_increasing(self.indices@),
                strictly_increasing(v@),
                forall|x: usize| #[trigger] v@.contains(x) <==> (self.indices@.take(i as int).contains(x) && x < count),
            decreases self.indices.len() - i,
        {
            let y = self.indices[i];
            let ghost prev = v@;
            if y < count {
                v.push(y);
                proof {
                    assert forall|a: int, b: int| 0 <= a < b < v@.len() implies v@[a] < v@[b] by {
                        if b == v@.len() - 1 && a < prev.len() {
                            assert(v@[a] == prev[a]);
                            assert(prev.contains(prev[a]));
                            let t = self.indices@.take(i as int);
                            let j = choose|j: int| 0 <= j < t.len() && t[j] == prev[a];
                            assert(self.indices@[j] == prev[a]);
                        }
                    }
                }
            }
            proof {
                let t = self.indices@.take(i as int);
                assert(self.indices@.take(i + 1) =~= t.push(y));
                assert forall|x: usize| #[trigger] v@.contains(x) <==> (t.push(y).contains(x) && x < count) by {
                    assert(prev.contains(x) <==> (t.contains(x) && x < count));
                    assert(t.push(y).contains(x) <==> (t.contains(x) || x == y)) by {
                        if t.push(y).contains(x) && x != y {
                            let j = choose|j: int| 0 <= j < t.push(y).len() && t.push(y)[j] == x;
                            assert(t[j] == x);
                        }
                        if t.contains(x) {
                            let j = choose|j: int| 0 <= j < t.len() && t[j] == x;
                            assert(t.push(y)[j] == x);
                        }
                        if x == y {
                            assert(t.push(y)[t.len() as int] == x);
                        }
                    }
                    if y < count {
                        assert(v@ == prev.push(y));
                        assert(v@.contains(x) <==> (prev.contains(x) || x == y)) by {
                            if v@.contains(x) && x != y {
                                let j = choose|j: int| 0 <= j < v@.len() && v@[j] == x;
                                assert(prev[j] == x);
                            }
                            if prev.contains(x) {
                                let j = choose|j: int| 0 <= j < prev.len() && prev[j] == x;
                                assert(v@[j] == x);
                            }
                            if x == y {
                                assert(v@[prev.len() as int] == x);
                            }
                        }
                    } else {
                        assert(v@ == prev);
                    }
                }
            }
            i += 1;
        }
        assert(self.indices@.take(self.indices@.len() as int) =~= self.indices@);
        self.indices = v;
    }
}

impl Default for SelectionState {
    fn default() -> (s: Self)
        ensures
            s@ == Seq::<usize>::empty(),
    {
        SelectionState::new()
    }
}

/// A copy of `v`.
pub fn copy_positions(v: &Vec<usize>) -> (r: Vec<usize>)
    ensures
        r@ == v@,
{
    let mut r: Vec<usize> = Vec::new();
    let mut i: usize = 0;
    while i < v.len()
        invariant
            i <= v.len(),
            r@ == v@.take(i as int),
        decreases v.len() - i,
    {
        r.push(v[i]);
        assert(v@.take(i + 1) =~= v@.take(i as int).push(v@[i as int]));
        i += 1;
    }
    assert(v@.take(v@.len() as int) =~= v@);
    r
}

} // verus!

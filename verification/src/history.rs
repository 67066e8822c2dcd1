use vstd::prelude::*;

use crate::document::{
    cleared, element_at, ids_below_max, layers_well_formed, lemma_elements_change_keeps_structure,
    repaired, layout_repairable, layout_repaired, with_pushed_element, with_replaced_element, DocumentView, PaintDocument,
};
use crate::element::{element_eq, ElementView, FillElement, PaintElement, ShapeElement, Stroke};
use crate::layer::{has_layer, layer_position, LayerView};
use crate::model::{bits_below_epsilon, LayerId, PaintVector};

verus! {

/// The current drawing with the drawings an undo and a redo would return to; the last
/// entry of each stack is the nearest one.
#[derive(Debug, PartialEq)]
pub struct DocumentHistory {
    current: PaintDocument,
    undo_stack: Vec<PaintDocument>,
    redo_stack: Vec<PaintDocument>,
}

pub struct HistoryView {
    pub current: DocumentView,
    pub undo: Seq<DocumentView>,
    pub redo: Seq<DocumentView>,
}

pub open spec fn documents_view(s: Seq<PaintDocument>) -> Seq<DocumentView> {
    Seq::new(s.len(), |i: int| s[i]@)
}

impl View for DocumentHistory {
    type V = HistoryView;

    closed spec fn view(&self) -> HistoryView {
        HistoryView {
            current: self.current@,
            undo: documents_view(self.undo_stack@),
            redo: documents_view(self.redo_stack@),
        }
    }
}

/// An edit that leads to `d`: the current drawing is saved for undo and redo is dropped.
pub open spec fn edited(h: HistoryView, d: DocumentView) -> HistoryView {
    HistoryView { current: d, undo: h.undo.push(h.current), redo: Seq::empty() }
}

/// Undo: back to the nearest saved drawing; nothing happens when there is none.
pub open spec fn undone(h: HistoryView) -> HistoryView {
    if h.undo.len() == 0 {
        h
    } else {
        HistoryView {
            current: h.undo.last(),
            undo: h.undo.drop_last(),
            redo: h.redo.push(h.current),
        }
    }
}

/// Redo: forward to the nearest undone drawing; nothing happens when there is none.
pub open spec fn redone(h: HistoryView) -> HistoryView {
    if h.redo.len() == 0 {
        h
    } else {
        HistoryView {
            current: h.redo.last(),
            undo: h.undo.push(h.current),
            redo: h.redo.drop_last(),
        }
    }
}

/// Every drawing the history holds has a sound layer structure.
pub open spec fn history_well_formed(h: HistoryView) -> bool {
    &&& layers_well_formed(h.current)
    &&& layout_repairable(h.current)
    &&& layout_repaired(h.current)
    &&& forall|i: int| 0 <= i < h.undo.len() ==> layers_well_formed(#[trigger] h.undo[i])
    &&& forall|i: int| 0 <= i < h.undo.len() ==> layout_repairable(#[trigger] h.undo[i])
    &&& forall|i: int| 0 <= i < h.undo.len() ==> layout_repaired(#[trigger] h.undo[i])
    &&& forall|i: int| 0 <= i < h.redo.len() ==> layers_well_formed(#[trigger] h.redo[i])
    &&& forall|i: int| 0 <= i < h.redo.len() ==> layout_repairable(#[trigger] h.redo[i])
    &&& forall|i: int| 0 <= i < h.redo.len() ==> layout_repaired(#[trigger] h.redo[i])
}

/// Floating-point equality of two drawings.
pub open spec fn document_eq(a: DocumentView, b: DocumentView) -> bool {
    &&& crate::model::scalar_eq(a.canvas_size.width, b.canvas_size.width)
    &&& crate::model::scalar_eq(a.canvas_size.height, b.canvas_size.height)
    &&& a.background == b.background
    &&& a.grid.visible == b.grid.visible
    &&& a.grid.snap_enabled == b.grid.snap_enabled
    &&& crate::model::scalar_eq(a.grid.spacing, b.grid.spacing)
    &&& a.guides.visible == b.guides.visible
    &&& a.guides.snap_enabled == b.guides.snap_enabled
    &&& a.guides.lines.len() == b.guides.lines.len()
    &&& forall|i: int|
        0 <= i < a.guides.lines.len() ==> (#[trigger] a.guides.lines[i]).axis
            == b.guides.lines[i].axis && crate::model::scalar_eq(
            a.guides.lines[i].position,
            b.guides.lines[i].position,
        )
    &&& a.smart_guides == b.smart_guides
    &&& a.rulers == b.rulers
    &&& a.layers.len() == b.layers.len()
    &&& forall|i: int| 0 <= i < a.layers.len() ==> layer_eq(#[trigger] a.layers[i], b.layers[i])
    &&& a.active_layer_id == b.active_layer_id
    &&& a.next_layer_id == b.next_layer_id
}

pub open spec fn layer_eq(a: LayerView, b: LayerView) -> bool {
    &&& a.id == b.id
    &&& a.name == b.name
    &&& a.visible == b.visible
    &&& a.locked == b.locked
    &&& crate::element::elements_eq(a.elements, b.elements)
}

fn same_layer(a: &crate::layer::PaintLayer, b: &crate::layer::PaintLayer) -> (r: bool)
    ensures
        r == layer_eq(a@, b@),
{
    a.id == b.id && a.name == b.name && a.visible == b.visible && a.locked == b.locked
        && crate::element::elements_same(&a.elements, &b.elements)
}

impl PaintDocument {
    /// `==` of the floating-point drawings.
    pub fn same_content(&self, other: &PaintDocument) -> (r: bool)
        ensures
            r == document_eq(self@, other@),
    {
        if !(self.canvas_size.width.same_value(other.canvas_size.width)
            && self.canvas_size.height.same_value(other.canvas_size.height) && self.background
            == other.background && self.grid.visible == other.grid.visible
            && self.grid.snap_enabled == other.grid.snap_enabled && self.grid.spacing.same_value(
            other.grid.spacing,
        ) && self.guides.visible == other.guides.visible && self.guides.snap_enabled
            == other.guides.snap_enabled && self.smart_guides == other.smart_guides && self.rulers
            == other.rulers && self.active_layer_id == other.active_layer_id
            && self.next_layer_id == other.next_layer_id) {
            return false;
        }
        if self.guides.lines.len() != other.guides.lines.len() {
            return false;
        }
        let mut i: usize = 0;
        while i < self.guides.lines.len()
            invariant
                i <= self.guides.lines.len(),
                self.guides.lines.len() == other.guides.lines.len(),
                forall|j: int|
                    0 <= j < i ==> (#[trigger] self@.guides.lines[j]).axis
                        == other@.guides.lines[j].axis && crate::model::scalar_eq(
                        self@.guides.lines[j].position,
                        other@.guides.lines[j].position,
                    ),
            decreases self.guides.lines.len() - i,
        {
            let a = self.guides.lines[i];
            let b = other.guides.lines[i];
            if !(a.axis == b.axis && a.position.same_value(b.position)) {
                return false;
            }
            i += 1;
        }
        if self.layers.len() != other.layers.len() {
            return false;
        }
        let mut k: usize = 0;
        while k < self.layers.len()
            invariant
                k <= self.layers.len(),
                self.layers.len() == other.layers.len(),
                forall|j: int| 0 <= j < k ==> layer_eq(#[trigger] self@.layers[j], other@.layers[j]),
            decreases self.layers.len() - k,
        {
            if !same_layer(&self.layers[k], &other.layers[k]) {
                assert(self@.layers[k as int] == self.layers@[k as int]@);
                assert(other@.layers[k as int] == other.layers@[k as int]@);
                return false;
            }
            k += 1;
        }
        true
    }
}


/// `d` with its active id set to `id`.
pub open spec fn with_active_layer(d: DocumentView, id: LayerId) -> DocumentView {
    DocumentView { active_layer_id: id, ..d }
}

proof fn lemma_documents_view_push(s: Seq<PaintDocument>, d: PaintDocument)
    ensures
        documents_view(s.push(d)) == documents_view(s).push(d@),
{
    assert(documents_view(s.push(d)) =~= documents_view(s).push(d@));
}

proof fn lemma_documents_view_drop_last(s: Seq<PaintDocument>)
    requires
        s.len() > 0,
    ensures
        documents_view(s.drop_last()) == documents_view(s).drop_last(),
        documents_view(s).last() == s.last()@,
{
    assert(documents_view(s.drop_last()) =~= documents_view(s).drop_last());
}

/// Appending an element or replacing one keeps the layer structure sound.
proof fn lemma_element_edits_keep_structure(d: DocumentView, index: int, e: ElementView)
    requires
        layers_well_formed(d),
    ensures
        layers_well_formed(with_pushed_element(d, e)),
        layers_well_formed(with_replaced_element(d, index, e)),
        layers_well_formed(cleared(d)),
{
    if let Some(i) = layer_position(d.layers, d.active_layer_id) {
        lemma_elements_change_keeps_structure(d, i, d.layers[i].elements.push(e));
        lemma_elements_change_keeps_structure(d, i, d.layers[i].elements.update(index, e));
    }
    let c = cleared(d);
    let k = choose|k: int| 0 <= k < d.layers.len() && #[trigger] d.layers[k].id == d.active_layer_id;
    assert(c.layers[k].id == d.layers[k].id);
    assert forall|j: int| 0 <= j < c.layers.len() implies #[trigger] c.layers[j].id < c.next_layer_id by {
        assert(c.layers[j].id == d.layers[j].id);
    }
}

impl DocumentHistory {
    /// A history whose current drawing is `document` repaired, with nothing to undo or
    /// redo.
    pub fn new(document: PaintDocument) -> (h: Self)
        requires
            ids_below_max(document@.layers),
            layout_repairable(document@),
        ensures
            h@ == (HistoryView {
                current: repaired(document@),
                undo: Seq::empty(),
                redo: Seq::empty(),
            }),
            history_well_formed(h@),
    {
        let h = DocumentHistory {
            current: document.sanitized(),
            undo_stack: Vec::new(),
            redo_stack: Vec::new(),
        };
        assert(documents_view(h.undo_stack@) =~= Seq::<DocumentView>::empty());
        assert(documents_view(h.redo_stack@) =~= Seq::<DocumentView>::empty());
        h
    }

    pub fn current(&self) -> (r: &PaintDocument)
        ensures
            r@ == self@.current,
    {
        &self.current
    }

    pub fn can_undo(&self) -> (r: bool)
        ensures
            r == (self@.undo.len() > 0),
    {
        self.undo_stack.len() > 0
    }

    pub fn can_redo(&self) -> (r: bool)
        ensures
            r == (self@.redo.len() > 0),
    {
        self.redo_stack.len() > 0
    }

    /// Saves the current drawing for undo, makes `next` current and drops the redo side.
    fn record(&mut self, next: PaintDocument)
        ensures
            final(self)@ == edited(old(self)@, next@),
            history_well_formed(old(self)@) && layers_well_formed(next@) && layout_repairable(next@)
                && layout_repaired(next@) ==> history_well_formed(final(self)@),
    {
        let ghost undo_before = self.undo_stack@;
        let mut previous = next;
        std::mem::swap(&mut self.current, &mut previous);
        self.undo_stack.push(previous);
        self.redo_stack.clear();
        proof {
            lemma_documents_view_push(undo_before, previous);
            assert(documents_view(self.redo_stack@) =~= Seq::<DocumentView>::empty());
        }
    }

    /// Appends `element` to the active layer of the current drawing as one undoable
    /// step (recorded even when there is no active layer to receive it).
    pub fn commit_element(&mut self, element: PaintElement) -> (r: bool)
        ensures
            r,
            final(self)@ == edited(old(self)@, with_pushed_element(old(self)@.current, element.view())),
            history_well_formed(old(self)@) ==> history_well_formed(final(self)@),
    {
        let ghost e = element.view();
        let mut next = self.current.deep_copy();
        next.push_element(element);
        proof {
            if history_well_formed(self@) {
                lemma_element_edits_keep_structure(self@.current, 0, e);
            }
        }
        self.record(next);
        true
    }

    pub fn commit_stroke(&mut self, stroke: Stroke) -> (r: bool)
        ensures
            r,
            final(self)@ == edited(
                old(self)@,
                with_pushed_element(old(self)@.current, PaintElement::Stroke(stroke).view()),
            ),
            history_well_formed(old(self)@) ==> history_well_formed(final(self)@),
    {
        self.commit_element(PaintElement::Stroke(stroke))
    }

    pub fn commit_shape(&mut self, shape: ShapeElement) -> (r: bool)
        ensures
            r,
            final(self)@ == edited(
                old(self)@,
                with_pushed_element(old(self)@.current, ElementView::Shape(shape)),
            ),
            history_well_formed(old(self)@) ==> history_well_formed(final(self)@),
    {
        self.commit_element(PaintElement::Shape(shape))
    }

    pub fn commit_fill(&mut self, fill: FillElement) -> (r: bool)
        ensures
            r,
            final(self)@ == edited(
                old(self)@,
                with_pushed_element(old(self)@.current, ElementView::Fill(fill@)),
            ),
            history_well_formed(old(self)@) ==> history_well_formed(final(self)@),
    {
        self.commit_element(PaintElement::Fill(fill))
    }

    /// Replaces the element at `index` of the active layer as one undoable step;
    /// `false`, with nothing changed, when there is no such element or it already equals
    /// `element`.
    pub fn replace_element(&mut self, index: usize, element: PaintElement) -> (r: bool)
        ensures
            r == (match element_at(old(self)@.current, index as int) {
                Some(e) => !element_eq(e, element.view()),
                None => false,
            }),
            r ==> final(self)@ == edited(
                old(self)@,
                with_replaced_element(old(self)@.current, index as int, element.view()),
            ),
            !r ==> final(self)@ == old(self)@,
            history_well_formed(old(self)@) ==> history_well_formed(final(self)@),
    {
        let ghost e = element.view();
        match self.current.element(index) {
            Some(existing) => {
                if existing.same_content(&element) {
                    return false;
                }
            },
            None => {
                return false;
            },
        }
        let mut next = self.current.deep_copy();
        let replaced = next.replace_element(index, element);
        proof {
            if history_well_formed(self@) {
                lemma_element_edits_keep_structure(self@.current, index as int, e);
            }
        }
        self.record(next);
        true
    }

    /// Puts `moved`, the element at `index` displaced by `delta`, in its place as one
    /// undoable step; `false`, with nothing changed, when `delta` is zero or there is no
    /// such element.
    pub fn translate_element(&mut self, index: usize, delta: PaintVector, moved: PaintElement) -> (r: bool)
        ensures
            r == (!(bits_below_epsilon(delta.dx.bits) && bits_below_epsilon(delta.dy.bits))
                && element_at(old(self)@.current, index as int) is Some),
            r ==> final(self)@ == edited(
                old(self)@,
                with_replaced_element(old(self)@.current, index as int, moved.view()),
            ),
            !r ==> final(self)@ == old(self)@,
            history_well_formed(old(self)@) ==> history_well_formed(final(self)@),
    {
        let ghost e = moved.view();
        let mut next = self.current.deep_copy();
        if !next.translate_element(index, delta, moved) {
            return false;
        }
        proof {
            if history_well_formed(self@) {
                lemma_element_edits_keep_structure(self@.current, index as int, e);
            }
        }
        self.record(next);
        true
    }

    /// Empties every layer as one undoable step; `false`, with nothing changed, when
    /// there is nothing to clear.
    pub fn clear(&mut self) -> (r: bool)
        ensures
            r == exists|i: int|
                0 <= i < old(self)@.current.layers.len()
                    && #[trigger] old(self)@.current.layers[i].elements.len() > 0,
            r ==> final(self)@ == edited(old(self)@, cleared(old(self)@.current)),
            !r ==> final(self)@ == old(self)@,
            history_well_formed(old(self)@) ==> history_well_formed(final(self)@),
    {
        if !self.current.has_elements() {
            return false;
        }
        let mut next = self.current.deep_copy();
        next.clear_elements();
        proof {
            if history_well_formed(self@) {
                lemma_element_edits_keep_structure(self@.current, 0, ElementView::Group(Seq::empty()));
            }
        }
        self.record(next);
        true
    }

    /// Makes `document`, repaired, the current drawing as one undoable step; `false`,
    /// with nothing changed, when the repaired drawing equals the current one.
    pub fn replace_document(&mut self, document: PaintDocument) -> (r: bool)
        requires
            ids_below_max(document@.layers),
            layout_repairable(document@),
        ensures
            r == !document_eq(old(self)@.current, repaired(document@)),
            r ==> final(self)@ == edited(old(self)@, repaired(document@)),
            !r ==> final(self)@ == old(self)@,
            history_well_formed(old(self)@) ==> history_well_formed(final(self)@),
    {
        let document = document.sanitized();
        if self.current.same_content(&document) {
            return false;
        }
        self.record(document);
        true
    }

    /// Makes layer `layer_id` active in the current drawing, outside the undo history.
    pub fn set_active_layer(&mut self, layer_id: LayerId) -> (r: bool)
        ensures
            r == has_layer(old(self)@.current.layers, layer_id),
            r ==> final(self)@ == (HistoryView {
                current: with_active_layer(old(self)@.current, layer_id),
                ..old(self)@
            }),
            !r ==> final(self)@ == old(self)@,
            history_well_formed(old(self)@) ==> history_well_formed(final(self)@),
    {
        self.current.set_active_layer(layer_id)
    }

    /// Steps back to the nearest saved drawing; `false` when there is none.
    pub fn undo(&mut self) -> (r: bool)
        ensures
            r == (old(self)@.undo.len() > 0),
            final(self)@ == undone(old(self)@),
            history_well_formed(old(self)@) ==> history_well_formed(final(self)@),
    {
        let ghost undo_before = self.undo_stack@;
        let ghost redo_before = self.redo_stack@;
        match self.undo_stack.pop() {
            Some(previous) => {
                let mut current = previous;
                std::mem::swap(&mut self.current, &mut current);
                self.redo_stack.push(current);
                proof {
                    lemma_documents_view_drop_last(undo_before);
                    lemma_documents_view_push(redo_before, current);
                    assert(undo_before.drop_last() == self.undo_stack@);
                }
                true
            },
            None => false,
        }
    }

    /// Steps forward to the nearest undone drawing; `false` when there is none.
    pub fn redo(&mut self) -> (r: bool)
        ensures
            r == (old(self)@.redo.len() > 0),
            final(self)@ == redone(old(self)@),
            history_well_formed(old(self)@) ==> history_well_formed(final(self)@),
    {
        let ghost undo_before = self.undo_stack@;
        let ghost redo_before = self.redo_stack@;
        match self.redo_stack.pop() {
            Some(next) => {
                let mut current = next;
                std::mem::swap(&mut self.current, &mut current);
                self.undo_stack.push(current);
                proof {
                    lemma_documents_view_drop_last(redo_before);
                    lemma_documents_view_push(undo_before, current);
                    assert(redo_before.drop_last() == self.redo_stack@);
                }
                true
            },
            None => false,
        }
    }
}

} // verus!

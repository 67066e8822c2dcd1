use vstd::prelude::*;

use crate::element::{copy_elements, elements_view, ElementView, PaintElement};
use crate::model::LayerId;

verus! {

/// A named, orderable layer of elements; `elements[0]` is painted first.
#[derive(Debug, PartialEq)]
pub struct PaintLayer {
    pub id: LayerId,
    pub name: String,
    pub visible: bool,
    pub locked: bool,
    pub elements: Vec<PaintElement>,
}

pub struct LayerView {
    pub id: LayerId,
    pub name: Seq<char>,
    pub visible: bool,
    pub locked: bool,
    pub elements: Seq<ElementView>,
}

impl View for PaintLayer {
    type V = LayerView;

    open spec fn view(&self) -> LayerView {
        LayerView {
            id: self.id,
            name: self.name@,
            visible: self.visible,
            locked: self.locked,
            elements: elements_view(self.elements@),
        }
    }
}

impl LayerView {
    pub open spec fn is_editable(self) -> bool {
        self.visible && !self.locked
    }
}

impl PaintLayer {
    /// A visible, unlocked, empty layer.
    pub fn new(id: LayerId, name: String) -> (l: Self)
        ensures
            l@ == (LayerView {
                id,
                name: name@,
                visible: true,
                locked: false,
                elements: Seq::empty(),
            }),
    {
        let l = PaintLayer { id, name, visible: true, locked: false, elements: Vec::new() };
        assert(l@.elements =~= Seq::<ElementView>::empty());
        l
    }

    /// Visible and not locked: elements can be selected and edited.
    pub fn is_editable(&self) -> (r: bool)
        ensures
            r == self@.is_editable(),
    {
        self.visible && !self.locked
    }

    pub fn deep_copy(&self) -> (r: Self)
        ensures
            r@ == self@,
    {
        PaintLayer {
            id: self.id,
            name: self.name.clone(),
            visible: self.visible,
            locked: self.locked,
            elements: copy_elements(&self.elements),
        }
    }
}

/// The values of a sequence of layers.
pub open spec fn layers_view(s: Seq<PaintLayer>) -> Seq<LayerView> {
    Seq::new(s.len(), |i: int| s[i]@)
}

/// Copies a sequence of layers, keeping their values.
pub fn copy_layers(layers: &Vec<PaintLayer>) -> (r: Vec<PaintLayer>)
    ensures
        layers_view(r@) == layers_view(layers@),
{
    let mut out: Vec<PaintLayer> = Vec::new();
    let mut i: usize = 0;
    while i < layers.len()
        invariant
            i <= layers.len(),
            out@.len() == i,
            forall|j: int| 0 <= j < i ==> #[trigger] out@[j]@ == layers@[j]@,
        decreases layers.len() - i,
    {
        out.push(layers[i].deep_copy());
        i += 1;
    }
    assert(layers_view(out@) =~= layers_view(layers@));
    out
}

/// `i` is the first position of a layer with id `id`.
pub open spec fn first_layer_at(layers: Seq<LayerView>, id: LayerId, i: int) -> bool {
    0 <= i < layers.len() && layers[i].id == id && forall|j: int|
        0 <= j < i ==> #[trigger] layers[j].id != id
}

pub open spec fn has_layer(layers: Seq<LayerView>, id: LayerId) -> bool {
    exists|i: int| 0 <= i < layers.len() && #[trigger] layers[i].id == id
}

/// Position of the first layer with id `id`, if any.
pub open spec fn layer_position(layers: Seq<LayerView>, id: LayerId) -> Option<int> {
    if exists|i: int| first_layer_at(layers, id, i) {
        Some(choose|i: int| first_layer_at(layers, id, i))
    } else {
        None
    }
}

pub proof fn lemma_first_layer_unique(layers: Seq<LayerView>, id: LayerId, i: int)
    requires
        first_layer_at(layers, id, i),
    ensures
        layer_position(layers, id) == Some(i),
{
    let k = choose|k: int| first_layer_at(layers, id, k);
    assert(first_layer_at(layers, id, k));
    if k < i {
        assert(layers[k].id != id);
    }
    if i < k {
        assert(layers[i].id != id);
    }
}

/// A layer with id `id` at position `i` means the id has a first position.
pub proof fn lemma_layer_found(layers: Seq<LayerView>, id: LayerId, i: int)
    requires
        0 <= i < layers.len(),
        layers[i].id == id,
    ensures
        layer_position(layers, id) is Some,
    decreases i,
{
    if exists|j: int| 0 <= j < i && #[trigger] layers[j].id == id {
        let j = choose|j: int| 0 <= j < i && #[trigger] layers[j].id == id;
        lemma_layer_found(layers, id, j);
    } else {
        assert(first_layer_at(layers, id, i));
    }
}

pub proof fn lemma_no_layer(layers: Seq<LayerView>, id: LayerId)
    requires
        forall|j: int| 0 <= j < layers.len() ==> #[trigger] layers[j].id != id,
    ensures
        layer_position(layers, id) is None,
        !has_layer(layers, id),
{
}

/// Finds the first layer with the given id.
pub fn find_layer(layers: &Vec<PaintLayer>, id: LayerId) -> (r: Option<usize>)
    ensures
        r matches Some(i) ==> layer_position(layers_view(layers@), id) == Some(i as int),
        r is None ==> layer_position(layers_view(layers@), id) is None,
        r is Some <==> has_layer(layers_view(layers@), id),
{
    let mut i: usize = 0;
    while i < layers.len()
        invariant
            i <= layers.len(),
            forall|j: int| 0 <= j < i ==> #[trigger] layers_view(layers@)[j].id != id,
        decreases layers.len() - i,
    {
        if layers[i].id == id {
            proof {
                lemma_first_layer_unique(layers_view(layers@), id, i as int);
            }
            return Some(i);
        }
        i += 1;
    }
    proof {
        lemma_no_layer(layers_view(layers@), id);
    }
    None
}

} // verus!

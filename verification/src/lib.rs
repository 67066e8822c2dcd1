//! Document model, editing history, selection, flood fill and storage rules of a
//! layered paint program, with their contracts.

pub mod arrange;
pub mod decimal;
pub mod document;
pub mod editor;
pub mod element;
pub mod fill;
pub mod history;
pub mod indices;
pub mod input;
pub mod laws;
pub mod layer;
pub mod model;
pub mod panel;
pub mod restyle;
pub mod selection;
pub mod storage;
pub mod style;
pub mod svg;
pub mod text;
pub mod tools;
pub mod ui;

use vstd::prelude::*;

verus! {

broadcast use vstd::std_specs::vec::group_vec_axioms;

} // verus!

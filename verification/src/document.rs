//! What an edit reads of the document: its layers, their shapes and where they are placed.
use glam::{DAffine2, DVec2};
use vstd::prelude::*;

use crate::ids::LayerNodeIdentifier;
use crate::sequences::{find_first, lemma_first_index_is, lemma_first_index_none};
use crate::vector_data::{VectorData, VectorGraph};

verus! {

/// A layer with a vector shape.
#[derive(Debug)]
pub struct VectorLayer {
    pub layer: LayerNodeIdentifier,
    pub vector_data: VectorData,
    /// From the space of the layer to that of the viewport.
    pub to_viewport: DAffine2,
    /// From the space of the layer to that of the document.
    pub to_document: DAffine2,
}

/// The document as an edit sees it.
#[derive(Debug)]
pub struct Document {
    /// All layers, from top to bottom.
    pub layers: Vec<LayerNodeIdentifier>,
    /// The layers that have a shape.
    pub vectors: Vec<VectorLayer>,
    pub document_to_viewport: DAffine2,
    /// The rotation by which the canvas is tilted.
    pub tilt: DAffine2,
    /// How far from its anchor a handle has to be to be shown, in the viewport.
    pub hide_handle_distance: DVec2,
    /// How long a handle is pulled, as a share of the distance to the neighbor of its anchor.
    pub handle_length_factor: DVec2,
}

/// A layer with a shape, as mathematical values.
pub struct ShapeLayer {
    pub layer: LayerNodeIdentifier,
    pub graph: VectorGraph,
    pub to_viewport: DAffine2,
    pub to_document: DAffine2,
}

/// The document, as mathematical values.
pub struct DocumentView {
    pub layers: Seq<LayerNodeIdentifier>,
    pub vectors: Seq<ShapeLayer>,
    pub document_to_viewport: DAffine2,
    pub tilt: DAffine2,
    pub hide_handle_distance: DVec2,
    pub handle_length_factor: DVec2,
}

impl View for VectorLayer {
    type V = ShapeLayer;

    open spec fn view(&self) -> ShapeLayer {
        ShapeLayer {
            layer: self.layer,
            graph: self.vector_data@,
            to_viewport: self.to_viewport,
            to_document: self.to_document,
        }
    }
}

impl View for Document {
    type V = DocumentView;

    open spec fn view(&self) -> DocumentView {
        DocumentView {
            layers: self.layers@,
            vectors: self.vectors@.map_values(|vector: VectorLayer| vector@),
            document_to_viewport: self.document_to_viewport,
            tilt: self.tilt,
            hide_handle_distance: self.hide_handle_distance,
            handle_length_factor: self.handle_length_factor,
        }
    }
}

/// Whether the shape is that of the layer.
pub open spec fn shape_of(layer: LayerNodeIdentifier) -> spec_fn(ShapeLayer) -> bool {
    |vector: ShapeLayer| vector.layer == layer
}

impl DocumentView {
    /// The segments of each shape run between its points.
    pub open spec fn wf(self) -> bool {
        forall|i: int| 0 <= i < self.vectors.len() ==> (#[trigger] self.vectors[i]).graph.wf()
    }

    /// The shape of the layer, if it has one.
    pub open spec fn vector(self, layer: LayerNodeIdentifier) -> Option<ShapeLayer> {
        find_first(self.vectors, shape_of(layer))
    }
}

impl Document {
    /// The shape of the layer, if it has one.
    pub fn compute_modified_vector(&self, layer: LayerNodeIdentifier) -> (vector: Option<&VectorLayer>)
        ensures
            vector is Some == self@.vector(layer) is Some,
            vector matches Some(v) ==> self@.vector(layer) == Some(v@) && v.layer == layer,
            vector matches Some(v) ==> self@.wf() ==> v@.graph.wf(),
    {
        let mut i: usize = 0;
        while i < self.vectors.len()
            invariant
                i <= self.vectors.len(),
                forall|j: int| 0 <= j < i ==> !shape_of(layer)(#[trigger] self@.vectors[j]),
            decreases self.vectors.len() - i,
        {
            if self.vectors[i].layer == layer {
                proof {
                    lemma_first_index_is(self@.vectors, shape_of(layer), i as int);
                    assert(self@.vectors[i as int] == self.vectors[i as int]@);
                }
                return Some(&self.vectors[i]);
            }
            i += 1;
        }
        proof {
            lemma_first_index_none(self@.vectors, shape_of(layer));
        }
        None
    }
}

} // verus!

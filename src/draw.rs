//! The layer a body is drawn on.
use vstd::prelude::*;

verus! {

/// Number of draw layers.
pub const NUM_DRAW_LAYERS: u8 = 10;

/// What layer to draw an object on, below `NUM_DRAW_LAYERS`.
#[derive(Copy, Clone, Debug, PartialEq, Eq, Structural)]
pub struct DrawLayer {
    layer: u8,
}

impl DrawLayer {
    pub closed spec fn view(self) -> u8 {
        self.layer
    }

    pub open spec fn wf(self) -> bool {
        self@ < NUM_DRAW_LAYERS
    }

    /// A drawing on layer `layer`.
    pub fn new(layer: u8) -> (r: DrawLayer)
        requires
            layer < NUM_DRAW_LAYERS,
        ensures
            r@ == layer,
            r.wf(),
    {
        DrawLayer { layer }
    }

    /// Moves the drawing to layer `layer`.
    pub fn set_layer(&mut self, layer: u8)
        requires
            layer < NUM_DRAW_LAYERS,
        ensures
            final(self)@ == layer,
            final(self).wf(),
    {
        self.layer = layer;
    }

    /// The current layer.
    pub fn layer(&self) -> (r: u8)
        ensures
            r == self@,
    {
        self.layer
    }
}

} // verus!

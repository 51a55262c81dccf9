use vstd::prelude::*;
use crate::margin::Margin;
use crate::raster::PixelBuffer;

verus! {

/// Stacking layer of a surface, from bottom to top.
#[derive(Clone, Copy, Debug, PartialEq, Eq, Structural)]
pub enum Layer {
    Background,
    Bottom,
    Top,
    Overlay,
}

/// A set of screen edges.
#[derive(Clone, Copy, Debug, PartialEq, Eq, Structural)]
pub struct Anchor {
    pub top: bool,
    pub bottom: bool,
    pub left: bool,
    pub right: bool,
}

impl Anchor {
    /// No edge.
    pub fn empty() -> (r: Self)
        ensures
            r == (Anchor { top: false, bottom: false, left: false, right: false }),
    {
        Anchor { top: false, bottom: false, left: false, right: false }
    }
}

/// Whether, and how, a surface takes keyboard focus.
#[derive(Clone, Copy, Debug, PartialEq, Eq, Structural)]
pub enum KeyboardInteractivity {
    NoFocus,
    Exclusive,
    OnDemand,
}

/// Placement and input settings of an overlay surface, fixed before the
/// surface is created.
#[derive(Clone, Copy, Debug, PartialEq, Eq, Structural)]
pub struct SurfaceConfig {
    pub width: u32,
    pub height: u32,
    pub layer: Layer,
    pub anchor: Anchor,
    pub exclusive_edge: Anchor,
    pub exclusive_zone: i32,
    pub margin: Margin,
    pub kb_interactivity: KeyboardInteractivity,
}

impl SurfaceConfig {
    /// A `width` by `height` surface on the background layer, anchored to
    /// no edge, reserving no space, with no margin and no keyboard focus.
    pub fn new(width: u32, height: u32) -> (r: Self)
        ensures
            r == (SurfaceConfig {
                width,
                height,
                layer: Layer::Background,
                anchor: Anchor { top: false, bottom: false, left: false, right: false },
                exclusive_edge: Anchor { top: false, bottom: false, left: false, right: false },
                exclusive_zone: 0,
                margin: Margin { top: 0, bottom: 0, left: 0, right: 0 },
                kb_interactivity: KeyboardInteractivity::NoFocus,
            }),
    {
        SurfaceConfig {
            width,
            height,
            layer: Layer::Background,
            anchor: Anchor::empty(),
            exclusive_edge: Anchor::empty(),
            exclusive_zone: 0,
            margin: Margin::new(),
            kb_interactivity: KeyboardInteractivity::NoFocus,
        }
    }

    pub fn layer(self, layer: Layer) -> (r: Self)
        ensures
            r == (SurfaceConfig { layer, ..self }),
    {
        SurfaceConfig { layer, ..self }
    }

    pub fn anchor(self, anchor: Anchor) -> (r: Self)
        ensures
            r == (SurfaceConfig { anchor, ..self }),
    {
        SurfaceConfig { anchor, ..self }
    }

    pub fn exclusive_edge(self, exclusive_edge: Anchor) -> (r: Self)
        ensures
            r == (SurfaceConfig { exclusive_edge, ..self }),
    {
        SurfaceConfig { exclusive_edge, ..self }
    }

    pub fn exclusive_zone(self, exclusive_zone: i32) -> (r: Self)
        ensures
            r == (SurfaceConfig { exclusive_zone, ..self }),
    {
        SurfaceConfig { exclusive_zone, ..self }
    }

    pub fn margin(self, margin: Margin) -> (r: Self)
        ensures
            r == (SurfaceConfig { margin, ..self }),
    {
        SurfaceConfig { margin, ..self }
    }

    pub fn kb_interactivity(self, kb_interactivity: KeyboardInteractivity) -> (r: Self)
        ensures
            r == (SurfaceConfig { kb_interactivity, ..self }),
    {
        SurfaceConfig { kb_interactivity, ..self }
    }

    /// Byte length of the surface's pixel buffer, four bytes a pixel; `None`
    /// where it exceeds the `i32` size of a shared-memory pool.
    pub fn buffer_len(&self) -> (r: Option<usize>)
        ensures
            r == if self.width * self.height * 4 <= i32::MAX {
                Some((self.width * self.height * 4) as usize)
            } else {
                None::<usize>
            },
    {
        assert(self.width * self.height <= u32::MAX * u32::MAX) by (nonlinear_arith)
            requires self.width <= u32::MAX, self.height <= u32::MAX;
        let n = (self.width as u128) * (self.height as u128) * 4;
        if n <= i32::MAX as u128 {
            Some(n as usize)
        } else {
            None
        }
    }

    /// A zeroed pixel buffer of the surface's size; `None` where it would
    /// not fit a shared-memory pool.
    pub fn create_buffer(&self) -> (r: Option<PixelBuffer>)
        ensures
            (self.width * self.height * 4 <= i32::MAX) == r is Some,
            r matches Some(b) ==> {
                &&& b@.wf()
                &&& b@.width == self.width
                &&& b@.height == self.height
                &&& forall|i: int| 0 <= i < b@.bytes.len() ==> b@.bytes[i] == 0
            },
    {
        match self.buffer_len() {
            Some(_) => Some(PixelBuffer::new(self.width, self.height)),
            None => None,
        }
    }
}

} // verus!

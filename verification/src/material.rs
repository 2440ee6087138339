//! Placeholder material and density objects.
//!
//! The scattering models themselves (diffuse, metal, dielectric, emissive,
//! isotropic) work in floating point and live with the caller. What belongs
//! here are the two inert stand-ins the tracer wires in where no real
//! behaviour is wanted: `DummyMaterial` for the shapes of the
//! importance-sampling list, whose own materials must never answer a
//! shading query, and `DummyPDF` for specular scatter results, whose
//! density is never consulted.

use vstd::prelude::*;

verus! {

/// A material that never scatters and never emits; the shapes the
/// integrator samples toward carry it, since only their geometry is read.
#[derive(Clone, Copy, PartialEq, Eq, Structural, Debug)]
pub struct DummyMaterial;

impl DummyMaterial {
    pub fn new() -> (r: DummyMaterial)
        ensures
            r == (DummyMaterial {  }),
    {
        DummyMaterial {  }
    }
}

/// A density object with zero density everywhere and a zero sample
/// direction; specular scatter results carry it because a delta
/// distribution has no usable density.
#[derive(Clone, Copy, PartialEq, Eq, Structural, Debug)]
pub struct DummyPDF;

} // verus!

//! The decision core of a path-tracing renderer: when a traced path stops and
//! with which color it closes, which root of a sphere and which member of a
//! scene a ray meets first, and the order in which an image's pixels are
//! produced. The float arithmetic around these decisions is the caller's.
use vstd::prelude::*;

pub mod image;
pub mod scene;
pub mod trace;

verus! {

} // verus!

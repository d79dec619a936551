//! Poisson-disc (blue-noise) sampling of a rectangle on an integer lattice.
//!
//! A [`PoissonSurface`] fills the rectangle `[0, width) x [0, height)` with
//! points of which no two are closer than a given separation. Points carry
//! whole lattice coordinates, so every distance comparison is exact: two
//! points are too close exactly when the squared Euclidean distance between
//! them is below the square of the separation.
//!
//! The sampler is started by accepting one point, for instance a
//! [`PoissonSurface::random_point`]. Each step then takes a seed at random out
//! of the queue of accepted points, tries a batch of offsets around it and
//! yields the first candidate that lies in the domain with no accepted point
//! too close; the caller accepts it with [`PoissonSurface::insert`], or lets
//! [`PoissonSurface::fill`] step and accept until the domain is saturated.
//! The offsets come from the caller, who draws them from the ring between the
//! separation and [`PoissonSurface::outer_radius`].
//!
//! Random draws are taken from a generator of the `rand` crate that the caller
//! hands in, so a run can be repeated from a seed.

pub mod model;
pub mod packing;
pub mod point;
pub mod poisson_surface;
pub mod proximity;
pub mod random;
pub mod random_queue;

pub use point::{Offset, Point};
pub use poisson_surface::{Error, Halt, PoissonSurface, Run};
pub use random_queue::RandomQueue;

//! Planar geometry on a fixed-point grid: vectors, points, similarity
//! transforms and the canonical forms of closed polygons.
//!
//! # Numbers
//!
//! Every coordinate is a [`Scalar`], a whole number of grid steps of
//! 2^-32. Sums and differences are exact; a product, a quotient or a
//! square root is the exact result rounded down to the grid. The contracts
//! state each result as an integer count of grid steps, over values that
//! have no bounds: [`vect::VectValue`], [`point::PointValue`] and
//! [`matrix::MatrixValue`].
//!
//! A direction does not depend on how long its vector is. A unit vector is
//! taken of the vector brought to a working size of 61 bits, and the
//! rotation of [`Polygon::reorient`] of the exact product of two edges:
//! neither rounds to the grid before the one division that gives the
//! result. [`vect_laws`] holds what follows: a unit vector is one long
//! within three steps, whatever it was made from.
//!
//! # Types
//!
//! A [`Vect`] is a displacement and a [`Point`] a position; the two do not
//! mix. A [`Matrix`] is a rotation with a uniform stretch followed by a
//! shift. A [`Polygon`] is a circular view of a sequence of points, which
//! it borrows or owns, and [`PointIter`] is one pass over its vertices.
//!
//! # What can go wrong
//!
//! An operation that has no result says so with a [`GeometryError`]: a
//! direction of the zero vector, a polygon with too few vertices.
//!
//! A result that a `Scalar` cannot hold is ruled out beforehand: a
//! `requires` clause of the form `fits(..)` asks that it lies in range.
//! For the canonical forms of a polygon, [`Polygon::within_limit`] tests at
//! run time a condition under which everything does.

pub mod canonical;
pub mod error;
pub mod matrix;
pub mod point;
pub mod polygon;
pub mod scalar;
pub mod vect;
pub mod vect_laws;

pub use error::GeometryError;
pub use matrix::Matrix;
pub use point::Point;
pub use polygon::{PointIter, Polygon};
pub use scalar::Scalar;
pub use vect::Vect;

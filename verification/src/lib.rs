//! Interaction engine for a cylindrical application surface.
//!
//! The crate maps 3D rays and points onto the unwrapped side of a cylinder
//! and arbitrates, frame over frame, which tracked input source drives the
//! surface.  All world quantities are fixed-point integers (see [`fixed`]),
//! so every geometric and arbitration rule here is stated and proved exactly.

pub mod fixed;
pub mod input;
pub mod geometry;
pub mod tracker;
pub mod ring;
pub mod kiara;

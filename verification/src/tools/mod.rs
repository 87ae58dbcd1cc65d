//! Tools answered by the control surfaces.
pub mod status;

//! Topology and scheduling core of a two-dimensional particle and
//! spring-mesh simulation.
//!
//! Everything here is integer logic: which particles exist, which springs
//! join them, which pairs a collision pass visits and where its results
//! land, and how many fixed steps a frame owes. The numeric update of a
//! particle is the host's business; it reads the plans made here.

pub mod forces;
pub mod mesh;
pub mod pairs;
pub mod stepper;

//! A declarative multi-image container-build orchestrator.
//!
//! A configuration names several build steps, each producing one container
//! image; a step may import another step's final filesystem layer as a seed
//! for its own build. This crate holds the build-graph engine: dependency
//! resolution over import edges, synthesis of the build-instruction text,
//! the argument lists handed to the external image builder, and the state
//! machine that sequences builds and layer extractions. The subprocess and
//! filesystem work itself happens outside the library, which only decides
//! what is to be done next.

pub mod config;
pub mod error;
pub mod render;
pub mod resolve;
pub mod run;

//! Activity tracking with three-point estimates, and the leveling of
//! activities that depend on one another into an ordered sequence of phases.

pub mod modules;
pub mod perty;
pub mod perty_cli;

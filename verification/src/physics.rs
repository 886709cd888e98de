//! The physics engine: the intent model, the merge engine that serializes
//! module outputs into a consistent next state, the reference modules, and
//! the deterministic traversal primitives they share.

pub mod engine;
pub mod intent;
pub mod module;
pub mod module_behavior_steam;
pub mod module_diffusion_thermal;
pub mod module_reactions_basic;
pub mod module_transforms_thermal;
pub mod util;

//! A sand table: a square grid of sand levels, a ball that ploughs through it,
//! and a settling pass that smooths it out again.
pub mod fixed;
pub mod sand_kernel;
pub mod settlement;
pub mod physics;

pub use sand_kernel::{KernelError, SandKernel};
pub use physics::PhysicsEngine;
pub use settlement::SettlementEngine;

//! A small engine for an instanced-square rendering demo: a mesh registry
//! that hands out generation-checked handles to per-square transforms and
//! serializes the live ones for instanced drawing, a fixed-timestep square
//! simulation with a bounded population and per-entity lifetimes, and the
//! dimension bookkeeping for the window surface and its feedback texture.

pub mod numeric;
pub mod registry;
pub(crate) mod seq_facts;
pub mod sim;
pub mod surface;
pub mod transform;

pub use registry::MeshHandle;
pub use registry::Renderer;
pub use sim::Application;
pub use sim::MyApp;
pub use sim::SpawnParams;
pub use surface::FrameGeometry;
pub use transform::SquareTransform;

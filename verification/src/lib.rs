//! The runtime world of an interactive 3D application: an entity-component
//! store, a hierarchical scene graph over its entities, a bridge to a
//! rigid-body simulation, and ray-based object picking.

pub mod entity;
pub mod error;
pub mod math;
pub mod components;
pub mod store;
pub mod scene_graph;
pub mod simulation;
pub mod geometry;
pub mod resolver;
pub mod world;
pub mod picking;
pub mod traversal;

//! Instanced drawing of 2D sprites: the per-frame decisions of a renderer
//! that draws many sprites with few draw calls.
//!
//! Sprites that share geometry, texture, pipeline and layer form one batch.
//! The library finds the frame's camera, partitions the renderable entities
//! into batches, orders the batches by layer, encodes the per-instance
//! attributes and lays out what each draw call binds and issues. Touching the
//! device is left to the caller: every result is plain data.
//!
//! Floating-point values (colors, matrices) travel as their IEEE-754 bit
//! patterns in `u32`s; the library never interprets them.

pub mod batch;
pub mod components;
pub mod fragment;
pub mod instance;
pub mod instance_data;
pub mod instance_drawable;
pub mod instance_id;
pub mod instance_renderer;
pub mod pipeline;
pub mod vertex;

pub use batch::Batch;
pub use components::{Camera, Entity, Transform};
pub use instance::{BatchKey, Instance, InstanceEntity, Pipeline, Shape};
pub use instance_data::InstanceData;
pub use instance_drawable::InstanceDrawable;
pub use instance_id::InstanceId;
pub use instance_renderer::InstanceRenderer;

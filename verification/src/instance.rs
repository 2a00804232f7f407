//! The per-entity renderable record and the identity it is batched by.

use vstd::prelude::*;
use crate::components::{Entity, Transform};
use crate::pipeline::{state_in, CompareOp, PipelineHandle, PipelineInfo, PipelineTable, Viewport};

verus! {

/// A handle to shared geometry: its identity and the number of vertices in
/// its vertex buffer.
#[derive(Clone, Copy, Debug, PartialEq, Eq)]
pub struct Shape {
    pub id: usize,
    pub vertices: u64,
}

/// A handle to a shared graphics pipeline: its identity and the identities
/// of the vertex and fragment entry points it is built from.
#[derive(Clone, Copy, Debug, PartialEq, Eq)]
pub struct Pipeline {
    pub id: usize,
    pub vertex: usize,
    pub fragment: usize,
}

/// One renderable unit. It refers to its shape, texture and pipeline and
/// owns none of them. `color` is an RGBA tint as bit patterns of
/// single-precision floats; lower layers are drawn first.
#[derive(Clone, Copy, Debug, PartialEq, Eq)]
pub struct Instance {
    pub shape: Shape,
    pub texture: usize,
    pub pipeline: Pipeline,
    pub color: [u32; 4],
    pub layer: i32,
    pub active: bool,
}

/// What a batch is formed by: the identities of shape, texture and pipeline,
/// and the layer. Two records are drawn in one call exactly if their keys are
/// equal.
#[derive(Clone, Copy, Debug, PartialEq, Eq, Structural)]
pub struct BatchKey {
    pub shape: usize,
    pub texture: usize,
    pub pipeline: usize,
    pub layer: i32,
}

/// A renderable entity as a batch holds it: the entity's position in the
/// table, its instance record and its transform.
#[derive(Clone, Copy, Debug, PartialEq, Eq)]
pub struct InstanceEntity {
    pub id: usize,
    pub instance: Instance,
    pub transform: Transform,
}

impl Instance {
    /// A record of the given parts.
    pub fn new(
        shape: Shape,
        texture: usize,
        pipeline: Pipeline,
        color: [u32; 4],
        layer: i32,
        active: bool,
    ) -> (r: Self)
        ensures
            r == (Instance { shape, texture, pipeline, color, layer, active }),
    {
        Instance { shape, texture, pipeline, color, layer, active }
    }

    /// The description of the pipeline of instanced sprites for a pair of
    /// entry points, where of two sprites at one depth the last stays.
    pub fn pipeline(vertex: usize, fragment: usize, viewport: Viewport) -> (r: PipelineInfo)
        ensures
            r.describes(vertex, fragment, viewport, CompareOp::LessOrEqual),
    {
        PipelineInfo::new(vertex, fragment, viewport, CompareOp::LessOrEqual)
    }

    /// Replaces the object of the record's pipeline by one built for
    /// `render_target_generation`, and says what to build it from.
    pub fn recreate_pipeline(
        &self,
        pipelines: &mut PipelineTable,
        render_target_generation: u64,
    ) -> (r: (PipelineHandle, Pipeline))
        ensures
            final(pipelines)@ == old(pipelines)@.insert(
                self.pipeline.id,
                state_in(old(pipelines)@, self.pipeline).rebuilt(render_target_generation),
            ),
            r.0 == state_in(old(pipelines)@, self.pipeline).rebuilt(
                render_target_generation,
            ).handle(),
            r.1 == state_in(old(pipelines)@, self.pipeline).pipeline,
    {
        pipelines.recreate(self.pipeline, render_target_generation)
    }

    /// The key the record is batched by.
    pub open spec fn spec_key(&self) -> BatchKey {
        BatchKey {
            shape: self.shape.id,
            texture: self.texture,
            pipeline: self.pipeline.id,
            layer: self.layer,
        }
    }

    /// The key the record is batched by.
    #[verifier::when_used_as_spec(spec_key)]
    pub fn key(&self) -> (r: BatchKey)
        ensures
            r == self.spec_key(),
    {
        BatchKey {
            shape: self.shape.id,
            texture: self.texture,
            pipeline: self.pipeline.id,
            layer: self.layer,
        }
    }
}

/// The renderable entities of a table, in the table's order.
pub open spec fn instance_entities(entities: Seq<Entity>) -> Seq<InstanceEntity>
    decreases entities.len(),
{
    if entities.len() == 0 {
        Seq::empty()
    } else {
        let rest = instance_entities(entities.drop_last());
        let e = entities.last();
        if e.is_renderable() {
            rest.push(
                InstanceEntity {
                    id: (entities.len() - 1) as usize,
                    instance: e.instance->0,
                    transform: e.transform->0,
                },
            )
        } else {
            rest
        }
    }
}

} // verus!

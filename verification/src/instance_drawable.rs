//! Drawing one batch: what is bound, what is uploaded and what is issued, in
//! which order.

use std::sync::Arc;
use vstd::prelude::*;
use crate::components::{Camera, Transform};
use crate::fragment::{SAMPLER_BINDING, TEXTURE_BINDING, TEXTURE_SET};
use crate::instance::InstanceEntity;
use crate::instance_data::{encode, encoded, InstanceData};
use crate::pipeline::{
    asked,
    lemma_description_is_fixed,
    state_in,
    CompareOp,
    PipelineHandle,
    PipelineInfo,
    PipelineState,
    PipelineTable,
    Viewport,
};
use crate::vertex::{ViewUniform, GEOMETRY_SLOT, VIEW_BINDING, VIEW_SET};

verus! {

/// What a frame draws to and how: the generation of the render target,
/// which changes whenever the target is made anew; the viewport; and the
/// depth test that pipelines are built with.
#[derive(Clone, Copy, Debug, PartialEq, Eq)]
pub struct Frame {
    pub generation: u64,
    pub viewport: Viewport,
    pub depth_test: CompareOp,
}

/// What a descriptor set holds.
#[derive(Clone, Copy, Debug, PartialEq, Eq, Structural)]
pub enum Descriptors {
    /// The view block of the draw, in a uniform buffer written for it.
    View { binding: u32 },
    /// The sampler and the image of a texture.
    Texture { texture: usize, sampler_binding: u32, texture_binding: u32 },
}

/// One step of a draw, as the command buffer takes it.
#[derive(Clone, Copy, Debug, PartialEq, Eq, Structural)]
pub enum Command {
    /// Build the object `pipeline` from the draw's description. Nothing else
    /// of the draw may happen if this fails.
    CreatePipeline { pipeline: PipelineHandle },
    /// Bind the object `pipeline` for the draw.
    BindPipeline { pipeline: PipelineHandle },
    /// Make a descriptor set of `descriptors`, after the layout that the
    /// bound pipeline has for `set`, and bind it there.
    BindDescriptorSet { set: u32, descriptors: Descriptors },
    /// Bind the vertex buffer of `shape` at `first_slot` and the draw's
    /// instance array at the slot after it.
    BindVertexBuffers { first_slot: u32, shape: usize },
    /// Draw `instance_count` instances of `vertex_count` vertices each.
    Draw { vertex_count: u32, instance_count: u32, first_vertex: u32, first_instance: u32 },
}

/// All that one draw call needs, as plain data. Buffers and descriptor sets
/// are made from it for this draw alone and are not read back.
#[derive(Debug)]
pub struct BatchDraw {
    /// The pipeline object to bind.
    pub pipeline: PipelineHandle,
    /// What the object is built from, if it has to be built first.
    pub create: Option<PipelineInfo>,
    /// The content of the uniform buffer behind set 0.
    pub view: ViewUniform,
    /// The texture whose sampler and image stand behind set 1.
    pub texture: usize,
    /// The shape whose vertex buffer is bound.
    pub shape: usize,
    /// The content of the instance buffer.
    pub instances: Vec<InstanceData>,
    /// The number of vertices of the shape.
    pub vertex_count: u32,
    /// The number of instances drawn.
    pub instance_count: u32,
}

/// A draw as contracts see it.
pub struct BatchDrawView {
    pub pipeline: PipelineHandle,
    pub create: Option<PipelineInfo>,
    pub view: ViewUniform,
    pub texture: usize,
    pub shape: usize,
    pub instances: Seq<InstanceData>,
    pub vertex_count: u32,
    pub instance_count: u32,
}

impl View for BatchDraw {
    type V = BatchDrawView;

    open spec fn view(&self) -> BatchDrawView {
        BatchDrawView {
            pipeline: self.pipeline,
            create: self.create,
            view: self.view,
            texture: self.texture,
            shape: self.shape,
            instances: self.instances@,
            vertex_count: self.vertex_count,
            instance_count: self.instance_count,
        }
    }
}

impl BatchDrawView {
    /// Whether `self` is the draw of the batch `members` seen by `camera`
    /// at `camera_transform`, where the batch's pipeline was in `state`
    /// before.
    ///
    /// The first member stands for the batch: its pipeline, texture, shape
    /// and layer are the batch's. The pipeline object is the one that `state`
    /// yields for the frame's generation, with a description exactly if it
    /// has to be built. The instance array holds every member in order. The
    /// counts are those of the shape's vertices and of the members, cut to 32
    /// bits.
    pub open spec fn draws(
        self,
        members: Seq<InstanceEntity>,
        camera: Camera,
        camera_transform: Transform,
        state: PipelineState,
        frame: Frame,
    ) -> bool {
        let first = members[0].instance;
        &&& self.pipeline == state.got(frame.generation).handle()
        &&& match self.create {
            Some(info) => !state.is_live(frame.generation) && info.describes(
                state.pipeline.vertex,
                state.pipeline.fragment,
                frame.viewport,
                frame.depth_test,
            ),
            None => state.is_live(frame.generation),
        }
        &&& self.view == ViewUniform::of(camera, camera_transform, first.layer)
        &&& self.texture == first.texture
        &&& self.shape == first.shape.id
        &&& self.instances == encoded(members)
        &&& self.vertex_count == first.shape.vertices as u32
        &&& self.instance_count == members.len() as u32
    }

    /// The steps of the draw, in the one order in which they are issued:
    /// the pipeline is built if it has to be, then bound; then the view's
    /// set, the texture's set and the vertex buffers; then the draw itself,
    /// from the first vertex and the first instance.
    pub open spec fn commands(self) -> Seq<Command> {
        let build = if self.create is Some {
            seq![Command::CreatePipeline { pipeline: self.pipeline }]
        } else {
            Seq::<Command>::empty()
        };
        build + seq![
            Command::BindPipeline { pipeline: self.pipeline },
            Command::BindDescriptorSet {
                set: VIEW_SET,
                descriptors: Descriptors::View { binding: VIEW_BINDING },
            },
            Command::BindDescriptorSet {
                set: TEXTURE_SET,
                descriptors: Descriptors::Texture {
                    texture: self.texture,
                    sampler_binding: SAMPLER_BINDING,
                    texture_binding: TEXTURE_BINDING,
                },
            },
            Command::BindVertexBuffers { first_slot: GEOMETRY_SLOT, shape: self.shape },
            Command::Draw {
                vertex_count: self.vertex_count,
                instance_count: self.instance_count,
                first_vertex: 0,
                first_instance: 0,
            },
        ]
    }
}

/// A batch has one draw: whatever meets [`BatchDrawView::draws`] for the
/// same batch, camera, pipeline state and frame is the same draw.
pub proof fn lemma_draw_is_fixed(
    a: BatchDrawView,
    b: BatchDrawView,
    members: Seq<InstanceEntity>,
    camera: Camera,
    camera_transform: Transform,
    state: PipelineState,
    frame: Frame,
)
    requires
        a.draws(members, camera, camera_transform, state, frame),
        b.draws(members, camera, camera_transform, state, frame),
    ensures
        a == b,
{
    if a.create is Some {
        lemma_description_is_fixed(
            a.create->0,
            b.create->0,
            state.pipeline.vertex,
            state.pipeline.fragment,
            frame.viewport,
            frame.depth_test,
        );
    }
}

impl BatchDraw {
    /// The steps of the draw, in the order in which they are issued.
    pub fn commands(&self) -> (r: Vec<Command>)
        ensures
            r@ == self@.commands(),
    {
        let mut r: Vec<Command> = Vec::new();
        if self.create.is_some() {
            r.push(Command::CreatePipeline { pipeline: self.pipeline });
        }
        r.push(Command::BindPipeline { pipeline: self.pipeline });
        r.push(
            Command::BindDescriptorSet {
                set: VIEW_SET,
                descriptors: Descriptors::View { binding: VIEW_BINDING },
            },
        );
        r.push(
            Command::BindDescriptorSet {
                set: TEXTURE_SET,
                descriptors: Descriptors::Texture {
                    texture: self.texture,
                    sampler_binding: SAMPLER_BINDING,
                    texture_binding: TEXTURE_BINDING,
                },
            },
        );
        r.push(Command::BindVertexBuffers { first_slot: GEOMETRY_SLOT, shape: self.shape });
        r.push(
            Command::Draw {
                vertex_count: self.vertex_count,
                instance_count: self.instance_count,
                first_vertex: 0,
                first_instance: 0,
            },
        );
        r
    }
}

/// The way instanced sprites are drawn: one draw call per batch.
#[derive(Debug)]
pub struct InstanceDrawable;

impl InstanceDrawable {
    /// The drawable, to be shared by all that draw with it.
    pub fn new() -> (r: Arc<Self>)
        ensures
            *r == InstanceDrawable,
    {
        Arc::new(InstanceDrawable)
    }

    /// Lays out the draw of one batch.
    ///
    /// An empty batch is not drawn and touches no pipeline. Otherwise the
    /// batch's pipeline is asked for under the frame's generation, and the
    /// result is the one draw that [`BatchDrawView::draws`] admits.
    pub fn draw(
        &self,
        i: &Vec<InstanceEntity>,
        camera: &Camera,
        camera_transform: &Transform,
        frame: &Frame,
        pipelines: &mut PipelineTable,
    ) -> (r: Option<BatchDraw>)
        ensures
            i.len() == 0 ==> r is None && final(pipelines)@ == old(pipelines)@,
            i.len() > 0 ==> {
                let pipeline = i[0].instance.pipeline;
                &&& r matches Some(d)
                &&& d@.draws(
                    i@,
                    *camera,
                    *camera_transform,
                    state_in(old(pipelines)@, pipeline),
                    *frame,
                )
                &&& final(pipelines)@ == asked(old(pipelines)@, pipeline, frame.generation)
            },
    {
        if i.len() == 0 {
            return None;
        }
        let instance = i[0].instance;
        let (pipeline, build) = pipelines.get_or_create(instance.pipeline, frame.generation);
        let create = match build {
            Some(from) => Some(
                PipelineInfo::new(from.vertex, from.fragment, frame.viewport, frame.depth_test),
            ),
            None => None,
        };
        let instances = encode(i);
        let d = BatchDraw {
            pipeline,
            create,
            view: ViewUniform::new(camera, camera_transform, instance.layer),
            texture: instance.texture,
            shape: instance.shape.id,
            vertex_count: #[verifier::truncate] (instance.shape.vertices as u32),
            instance_count: #[verifier::truncate] (i.len() as u32),
            instances,
        };
        Some(d)
    }
}

} // verus!

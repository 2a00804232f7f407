//! Drawing a frame: the camera is found, the renderable entities are
//! batched, and the batches are drawn in order.

use std::sync::Arc;
use vstd::prelude::*;
use crate::batch::{
    batch_views,
    batches_of,
    collect,
    is_batching,
    lemma_batches_hold_entities,
    lemma_batching_exists,
    lemma_instance_entities,
    lemma_member_count,
    member_count,
    BatchView,
};
use crate::components::{active_camera, active_camera_of, Camera, Entity, Transform};
use crate::instance::{instance_entities, Pipeline};
use crate::instance_drawable::{
    lemma_draw_is_fixed,
    BatchDraw,
    BatchDrawView,
    Frame,
    InstanceDrawable,
};
use crate::pipeline::{
    asked,
    state_in,
    CompareOp,
    PipelineInfo,
    PipelineState,
    PipelineTable,
    Viewport,
};

verus! {

/// Draws the instanced sprites of a frame. It remembers the generation of
/// the render target and the pipelines that it has drawn with.
#[derive(Debug)]
pub struct InstanceRenderer {
    generation: u64,
    depth_test: CompareOp,
    drawable: Arc<InstanceDrawable>,
    pipelines: PipelineTable,
}

/// A renderer as contracts see it.
pub struct RendererState {
    pub generation: u64,
    pub depth_test: CompareOp,
    pub pipelines: Map<usize, PipelineState>,
}

impl View for InstanceRenderer {
    type V = RendererState;

    closed spec fn view(&self) -> RendererState {
        RendererState {
            generation: self.generation,
            depth_test: self.depth_test,
            pipelines: self.pipelines@,
        }
    }
}

/// The generation of the render target in a frame, given that of the frame
/// before and whether the target has changed since: a changed target has
/// another generation, an unchanged one the same.
pub open spec fn next_generation(generation: u64, changed: bool) -> u64 {
    if !changed {
        generation
    } else if generation == u64::MAX {
        0
    } else {
        (generation + 1) as u64
    }
}

/// The pipeline that a batch is drawn with: that of its first member.
pub open spec fn pipeline_of(batch: BatchView) -> Pipeline {
    batch.members[0].instance.pipeline
}

/// The pipelines' states after the batches `bs` were drawn, in order, under
/// `generation`.
pub open spec fn table_after(
    table: Map<usize, PipelineState>,
    bs: Seq<BatchView>,
    generation: u64,
) -> Map<usize, PipelineState>
    decreases bs.len(),
{
    if bs.len() == 0 {
        table
    } else {
        asked(table_after(table, bs.drop_last(), generation), pipeline_of(bs.last()), generation)
    }
}

/// `draws` are the draws of the batches `bs`, one each and in the same
/// order, where the pipelines were in the states `table` before the first:
/// each batch finds its pipeline as the batches before it left it.
pub open spec fn frame_draws(
    draws: Seq<BatchDrawView>,
    bs: Seq<BatchView>,
    camera: Camera,
    camera_transform: Transform,
    table: Map<usize, PipelineState>,
    frame: Frame,
) -> bool {
    &&& draws.len() == bs.len()
    &&& forall|i: int|
        0 <= i < bs.len() ==> (#[trigger] draws[i]).draws(
            bs[i].members,
            camera,
            camera_transform,
            state_in(table_after(table, bs.take(i), frame.generation), pipeline_of(bs[i])),
            frame,
        )
}

/// The views of a sequence of draws.
pub open spec fn draw_views(draws: Seq<BatchDraw>) -> Seq<BatchDrawView> {
    draws.map_values(|d: BatchDraw| d@)
}

impl InstanceRenderer {
    /// A renderer that has drawn nothing yet, with the depth test that its
    /// pipelines are built with.
    pub fn new(depth_test: CompareOp) -> (r: Self)
        ensures
            r@ == (RendererState {
                generation: 0,
                depth_test,
                pipelines: Map::<usize, PipelineState>::empty(),
            }),
    {
        InstanceRenderer {
            generation: 0,
            depth_test,
            drawable: InstanceDrawable::new(),
            pipelines: PipelineTable::new(),
        }
    }

    /// The description of the pipeline of instanced sprites for a pair of
    /// entry points, where of two sprites at one depth the first stays.
    pub fn pipeline(vertex: usize, fragment: usize, viewport: Viewport) -> (r: PipelineInfo)
        ensures
            r.describes(vertex, fragment, viewport, CompareOp::Less),
    {
        PipelineInfo::new(vertex, fragment, viewport, CompareOp::Less)
    }

    /// The generation of the render target in the last frame.
    pub fn generation(&self) -> (r: u64)
        ensures
            r == self@.generation,
    {
        self.generation
    }

    /// The depth test that pipelines are built with.
    pub fn depth_test(&self) -> (r: CompareOp)
        ensures
            r == self@.depth_test,
    {
        self.depth_test
    }

    /// The pipelines that the renderer has drawn with.
    pub fn pipelines(&self) -> (r: &PipelineTable)
        ensures
            r@ == self@.pipelines,
    {
        &self.pipelines
    }

    /// Lays out the draws of a frame, in the order in which they are issued.
    ///
    /// `render_target_changed` says whether the render target was made anew
    /// since the last frame; `viewport` is what pipelines are built for now.
    /// Without a camera nothing is drawn and no pipeline is touched. With
    /// one, the renderable entities are batched, and each batch gets one
    /// draw, in the batches' order. A pipeline is built again by the first
    /// draw that uses it after the render target changed, and by no other.
    pub fn draw(
        &mut self,
        entities: &Vec<Entity>,
        render_target_changed: bool,
        viewport: Viewport,
    ) -> (draws: Vec<BatchDraw>)
        ensures
            final(self)@.generation == next_generation(
                old(self)@.generation,
                render_target_changed,
            ),
            final(self)@.depth_test == old(self)@.depth_test,
            match active_camera_of(entities@) {
                None => draws@.len() == 0 && final(self)@.pipelines == old(self)@.pipelines,
                Some((camera, camera_transform)) => {
                    let bs = batches_of(instance_entities(entities@));
                    let frame = (Frame {
                        generation: final(self)@.generation,
                        viewport,
                        depth_test: old(self)@.depth_test,
                    });
                    &&& frame_draws(
                        draw_views(draws@),
                        bs,
                        camera,
                        camera_transform,
                        old(self)@.pipelines,
                        frame,
                    )
                    &&& final(self)@.pipelines == table_after(
                        old(self)@.pipelines,
                        bs,
                        frame.generation,
                    )
                },
            },
    {
        if render_target_changed {
            self.generation = if self.generation == u64::MAX {
                0
            } else {
                self.generation + 1
            };
        }
        let mut draws: Vec<BatchDraw> = Vec::new();
        let (camera, camera_transform) = match active_camera(entities) {
            Some((_, camera, camera_transform)) => (camera, camera_transform),
            None => {
                return draws;
            },
        };
        let frame = Frame { generation: self.generation, viewport, depth_test: self.depth_test };
        let batches = collect(entities);
        let ghost bs = batch_views(batches@);
        let ghost table = self.pipelines@;
        let mut k: usize = 0;
        while k < batches.len()
            invariant
                k <= batches.len(),
                bs == batch_views(batches@),
                is_batching(instance_entities(entities@), bs),
                draws@.len() == k,
                forall|i: int|
                    0 <= i < k ==> (#[trigger] draw_views(draws@)[i]).draws(
                        bs[i].members,
                        camera,
                        camera_transform,
                        state_in(
                            table_after(table, bs.take(i), frame.generation),
                            pipeline_of(bs[i]),
                        ),
                        frame,
                    ),
                self.pipelines@ == table_after(table, bs.take(k as int), frame.generation),
                self.generation == frame.generation,
                self.depth_test == frame.depth_test,
            decreases batches.len() - k,
        {
            let ghost before = draw_views(draws@);
            proof {
                assert(bs[k as int] == batches@[k as int]@);
                assert(bs.take(k + 1).drop_last() =~= bs.take(k as int));
            }
            let drawn = self.drawable.draw(
                batches[k].members(),
                &camera,
                &camera_transform,
                &frame,
                &mut self.pipelines,
            );
            if let Some(d) = drawn {
                draws.push(d);
            }
            proof {
                let after = draw_views(draws@);
                assert forall|i: int| 0 <= i < k + 1 implies (#[trigger] after[i]).draws(
                    bs[i].members,
                    camera,
                    camera_transform,
                    state_in(table_after(table, bs.take(i), frame.generation), pipeline_of(bs[i])),
                    frame,
                ) by {
                    if i < k {
                        assert(after[i] == before[i]);
                    }
                }
            }
            k += 1;
        }
        proof {
            assert(bs.take(k as int) =~= bs);
        }
        draws
    }

    /// Declares every pipeline object invalid. After a frame that failed on
    /// the device this makes the next frame start clean: each pipeline is
    /// built anew by the first draw that uses it.
    pub fn invalidate(&mut self)
        ensures
            final(self)@.generation == old(self)@.generation,
            final(self)@.depth_test == old(self)@.depth_test,
            final(self)@.pipelines.dom() == old(self)@.pipelines.dom(),
            forall|id: usize| #[trigger]
                old(self)@.pipelines.dom().contains(id) ==> final(self)@.pipelines[id] == old(
                    self,
                )@.pipelines[id].invalidated(),
    {
        self.pipelines.invalidate();
    }
}

/// The batches, the camera, the pipelines' states and the frame fix the
/// draws: whatever meets [`frame_draws`] for them is the same sequence.
pub proof fn lemma_frame_is_fixed(
    a: Seq<BatchDrawView>,
    b: Seq<BatchDrawView>,
    bs: Seq<BatchView>,
    camera: Camera,
    camera_transform: Transform,
    table: Map<usize, PipelineState>,
    frame: Frame,
)
    requires
        frame_draws(a, bs, camera, camera_transform, table, frame),
        frame_draws(b, bs, camera, camera_transform, table, frame),
    ensures
        a == b,
{
    assert forall|i: int| 0 <= i < a.len() implies a[i] == b[i] by {
        lemma_draw_is_fixed(
            a[i],
            b[i],
            bs[i].members,
            camera,
            camera_transform,
            state_in(table_after(table, bs.take(i), frame.generation), pipeline_of(bs[i])),
            frame,
        );
    }
}

/// Draws are issued lowest layer first, and each draws all members of its
/// batch: of two draws of a frame the earlier has the lower layer or the
/// same, and the instance arrays hold as many instances as there are
/// renderable entities.
pub proof fn lemma_draws_in_layer_order(
    draws: Seq<BatchDrawView>,
    entities: Seq<Entity>,
    camera: Camera,
    camera_transform: Transform,
    table: Map<usize, PipelineState>,
    frame: Frame,
)
    requires
        entities.len() <= usize::MAX,
        frame_draws(
            draws,
            batches_of(instance_entities(entities)),
            camera,
            camera_transform,
            table,
            frame,
        ),
    ensures
        forall|i: int, j: int|
            0 <= i < j < draws.len() ==> (#[trigger] draws[i]).view.layer <= (
            #[trigger] draws[j]).view.layer,
        forall|i: int|
            0 <= i < draws.len() ==> (#[trigger] draws[i]).instances.len() == batches_of(
                instance_entities(entities),
            )[i].members.len(),
        member_count(batches_of(instance_entities(entities))) == instance_entities(entities).len(),
{
    let ms = instance_entities(entities);
    let bs = batches_of(ms);
    lemma_instance_entities(entities);
    lemma_batching_exists(ms);
    lemma_batches_hold_entities(ms, bs);
    lemma_member_count(ms, bs);
    assert forall|i: int| 0 <= i < draws.len() implies (#[trigger] draws[i]).view.layer
        == bs[i].key.layer && draws[i].instances.len() == bs[i].members.len() by {
        assert(bs[i].members[0].instance.spec_key() == bs[i].key);
    }
    assert forall|i: int, j: int| 0 <= i < j < draws.len() implies (#[trigger] draws[i]).view.layer
        <= (#[trigger] draws[j]).view.layer by {
        assert(bs[i].precedes(bs[j]));
    }
}

/// Some batch of `bs` is drawn with pipeline `id`.
pub open spec fn uses(bs: Seq<BatchView>, id: usize) -> bool {
    exists|j: int| 0 <= j < bs.len() && pipeline_of(#[trigger] bs[j]).id == id
}

/// Batch `j` is the first of `bs` that is drawn with pipeline `id`.
pub open spec fn is_first_use(bs: Seq<BatchView>, id: usize, j: int) -> bool {
    &&& 0 <= j < bs.len()
    &&& pipeline_of(bs[j]).id == id
    &&& forall|k: int| 0 <= k < j ==> pipeline_of(#[trigger] bs[k]).id != id
}

/// The first batch of `bs` that is drawn with pipeline `id`, if one is.
pub open spec fn first_use(bs: Seq<BatchView>, id: usize) -> int {
    choose|j: int| is_first_use(bs, id, j)
}

/// Among the batches that use a pipeline there is a first, and one only.
proof fn lemma_first_use(bs: Seq<BatchView>, id: usize)
    requires
        uses(bs, id),
    ensures
        is_first_use(bs, id, first_use(bs, id)),
        forall|j: int| is_first_use(bs, id, j) ==> j == first_use(bs, id),
    decreases bs.len(),
{
    let front = bs.drop_last();
    if uses(front, id) {
        lemma_first_use(front, id);
        let f = first_use(front, id);
        assert(is_first_use(bs, id, f)) by {
            assert forall|k: int| 0 <= k < f implies pipeline_of(#[trigger] bs[k]).id != id by {
                assert(bs[k] == front[k]);
            }
        }
    } else {
        let j = choose|j: int| 0 <= j < bs.len() && pipeline_of(#[trigger] bs[j]).id == id;
        if j < front.len() {
            assert(pipeline_of(front[j]).id == id);
        }
        assert(is_first_use(bs, id, bs.len() - 1)) by {
            assert forall|k: int| 0 <= k < bs.len() - 1 implies pipeline_of(#[trigger] bs[k]).id
                != id by {
                assert(pipeline_of(front[k]).id != id);
            }
        }
    }
    let f = first_use(bs, id);
    assert forall|j: int| is_first_use(bs, id, j) implies j == f by {
        if j < f {
            assert(pipeline_of(bs[j]).id != id);
        } else if f < j {
            assert(pipeline_of(bs[f]).id != id);
        }
    }
}

/// What drawing makes of the pipelines. A pipeline that some batch used is
/// in the state that the first batch using it asked it into: valid for the
/// frame's generation, built once if it was not valid before. Every other
/// pipeline is as it was.
pub proof fn lemma_table_after(
    table: Map<usize, PipelineState>,
    bs: Seq<BatchView>,
    generation: u64,
    id: usize,
)
    ensures
        uses(bs, id) ==> table_after(table, bs, generation).dom().contains(id) && table_after(
            table,
            bs,
            generation,
        )[id] == state_in(table, pipeline_of(bs[first_use(bs, id)])).got(generation),
        !uses(bs, id) ==> (table_after(table, bs, generation).dom().contains(id)
            <==> table.dom().contains(id)),
        !uses(bs, id) && table.dom().contains(id) ==> table_after(table, bs, generation)[id]
            == table[id],
    decreases bs.len(),
{
    if bs.len() > 0 {
        let front = bs.drop_last();
        let last = pipeline_of(bs.last());
        let mid = table_after(table, front, generation);
        lemma_table_after(table, front, generation, id);
        if uses(front, id) {
            lemma_first_use(front, id);
            let f = first_use(front, id);
            assert(pipeline_of(bs[f]).id == id) by {
                assert(bs[f] == front[f]);
            }
            lemma_first_use(bs, id);
            assert(is_first_use(bs, id, f)) by {
                assert forall|k: int| 0 <= k < f implies pipeline_of(#[trigger] bs[k]).id != id by {
                    assert(bs[k] == front[k]);
                }
            }
            assert(state_in(mid, last).got(generation).got(generation) == state_in(mid, last).got(
                generation,
            ));
        } else if last.id == id {
            lemma_first_use(bs, id);
            assert(is_first_use(bs, id, bs.len() - 1)) by {
                assert forall|k: int| 0 <= k < bs.len() - 1 implies pipeline_of(
                    #[trigger] bs[k],
                ).id != id by {
                    assert(pipeline_of(front[k]).id != id);
                }
            }
        } else {
            if uses(bs, id) {
                let j = choose|j: int| 0 <= j < bs.len() && pipeline_of(#[trigger] bs[j]).id == id;
                assert(pipeline_of(front[j]).id == id);
            }
        }
    }
}

/// A pipeline is built by the first draw that uses it, if its object is not
/// valid for the frame's generation, and by no other draw: draw `i` comes
/// with a description to build from exactly if its pipeline was not valid
/// before the frame and no earlier draw uses the same pipeline.
pub proof fn lemma_built_by_first_use(
    draws: Seq<BatchDrawView>,
    bs: Seq<BatchView>,
    camera: Camera,
    camera_transform: Transform,
    table: Map<usize, PipelineState>,
    frame: Frame,
    i: int,
)
    requires
        frame_draws(draws, bs, camera, camera_transform, table, frame),
        0 <= i < bs.len(),
    ensures
        draws[i].create is Some <==> !state_in(table, pipeline_of(bs[i])).is_live(frame.generation)
            && !uses(bs.take(i), pipeline_of(bs[i]).id),
{
    let pipeline = pipeline_of(bs[i]);
    lemma_table_after(table, bs.take(i), frame.generation, pipeline.id);
    assert(draws[i].draws(
        bs[i].members,
        camera,
        camera_transform,
        state_in(table_after(table, bs.take(i), frame.generation), pipeline),
        frame,
    ));
}

/// A rebuild happens if and only if the render target changed. Take a frame
/// whose generation follows `before` by [`next_generation`], and a draw whose
/// pipeline was valid for `before`. If the target did not change, the draw
/// binds the very object that the pipeline had, and nothing is built. If it
/// changed, the draw binds another object, and that object is built by the
/// first draw of the frame that uses the pipeline and by it alone.
pub proof fn lemma_rebuild_iff_target_changed(
    draws: Seq<BatchDrawView>,
    bs: Seq<BatchView>,
    camera: Camera,
    camera_transform: Transform,
    table: Map<usize, PipelineState>,
    frame: Frame,
    before: u64,
    changed: bool,
    i: int,
)
    requires
        frame_draws(draws, bs, camera, camera_transform, table, frame),
        frame.generation == next_generation(before, changed),
        0 <= i < bs.len(),
        state_in(table, pipeline_of(bs[i])).is_live(before),
    ensures
        draws[i].pipeline != state_in(table, pipeline_of(bs[i])).handle() <==> changed,
        draws[i].create is Some <==> changed && !uses(bs.take(i), pipeline_of(bs[i]).id),
{
    let pipeline = pipeline_of(bs[i]);
    let state = state_in(table, pipeline);
    let earlier = bs.take(i);
    lemma_built_by_first_use(draws, bs, camera, camera_transform, table, frame, i);
    lemma_table_after(table, earlier, frame.generation, pipeline.id);
    assert(draws[i].draws(
        bs[i].members,
        camera,
        camera_transform,
        state_in(table_after(table, earlier, frame.generation), pipeline),
        frame,
    ));
    if uses(earlier, pipeline.id) {
        lemma_first_use(earlier, pipeline.id);
        let first = pipeline_of(earlier[first_use(earlier, pipeline.id)]);
        assert(state_in(table, first) == state);
        assert(state.got(frame.generation).got(frame.generation) == state.got(frame.generation));
    }
}

} // verus!

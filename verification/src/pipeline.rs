//! The graphics pipeline of instanced drawing: what it is built from, and
//! when it has to be built again.

use vstd::prelude::*;
use crate::instance::Pipeline;
use crate::vertex::{
    attributes,
    bindings,
    spec_attributes,
    spec_bindings,
    VertexAttribute,
    VertexBinding,
};

verus! {

/// How primitives are assembled from vertices.
#[derive(Clone, Copy, Debug, PartialEq, Eq, Structural)]
pub enum Topology {
    TriangleList,
    TriangleStrip,
    TriangleFan,
}

/// When a fragment passes the depth test.
#[derive(Clone, Copy, Debug, PartialEq, Eq, Structural)]
pub enum CompareOp {
    /// Nearer than what was drawn: of two sprites at one depth the first
    /// stays.
    Less,
    /// Nearer or as near: of two sprites at one depth the last stays.
    LessOrEqual,
}

/// How a fragment is combined with what was drawn.
#[derive(Clone, Copy, Debug, PartialEq, Eq, Structural)]
pub enum Blend {
    /// The fragment replaces the color.
    Opaque,
    /// Source over destination, weighted by the source's alpha.
    Alpha,
}

/// The part of the render target that is drawn to: the top left corner and
/// the size in pixels, and the range that depths are mapped to. All values
/// are bit patterns of single-precision floats.
#[derive(Clone, Copy, Debug, PartialEq, Eq)]
pub struct Viewport {
    pub offset: [u32; 2],
    pub extent: [u32; 2],
    pub depth_range: [u32; 2],
}

/// Everything a pipeline object is built from.
#[derive(Clone, Copy, Debug, PartialEq, Eq)]
pub struct PipelineInfo {
    pub vertex: usize,
    pub fragment: usize,
    pub attributes: [VertexAttribute; 6],
    pub bindings: [VertexBinding; 2],
    pub topology: Topology,
    pub viewport: Viewport,
    pub depth_test: CompareOp,
    pub depth_write: bool,
    pub blend: Blend,
    pub subpass: u32,
}

impl PipelineInfo {
    /// Whether `self` is the pipeline of instanced sprites for the entry
    /// points `vertex` and `fragment`, the viewport `viewport` and the depth
    /// test `depth_test`: the vertex stage's fixed inputs, triangle fans, one
    /// viewport, depth test with depth writes, alpha blending, in the first
    /// subpass.
    pub open spec fn describes(
        self,
        vertex: usize,
        fragment: usize,
        viewport: Viewport,
        depth_test: CompareOp,
    ) -> bool {
        &&& self.vertex == vertex
        &&& self.fragment == fragment
        &&& self.attributes@ == spec_attributes()
        &&& self.bindings@ == spec_bindings()
        &&& self.topology == Topology::TriangleFan
        &&& self.viewport == viewport
        &&& self.depth_test == depth_test
        &&& self.depth_write
        &&& self.blend == Blend::Alpha
        &&& self.subpass == 0
    }

    /// The one description that [`describes`](Self::describes) admits.
    pub fn new(vertex: usize, fragment: usize, viewport: Viewport, depth_test: CompareOp) -> (r:
        Self)
        ensures
            r.describes(vertex, fragment, viewport, depth_test),
    {
        PipelineInfo {
            vertex,
            fragment,
            attributes: attributes(),
            bindings: bindings(),
            topology: Topology::TriangleFan,
            viewport,
            depth_test,
            depth_write: true,
            blend: Blend::Alpha,
            subpass: 0,
        }
    }
}

/// Two descriptions of one pipeline are the same description.
pub proof fn lemma_description_is_fixed(
    a: PipelineInfo,
    b: PipelineInfo,
    vertex: usize,
    fragment: usize,
    viewport: Viewport,
    depth_test: CompareOp,
)
    requires
        a.describes(vertex, fragment, viewport, depth_test),
        b.describes(vertex, fragment, viewport, depth_test),
    ensures
        a == b,
{
    assert(a.attributes == b.attributes);
    assert(a.bindings == b.bindings);
}

/// The identity of a pipeline object: which pipeline it is, and which build
/// of it. Two handles are equal exactly if they name the same object.
#[derive(Clone, Copy, Debug, PartialEq, Eq, Structural)]
pub struct PipelineHandle {
    pub pipeline: usize,
    pub build: u64,
}

/// The state of one pipeline as contracts see it: the handle to the shared
/// pipeline, the render-target generation that its object was built for
/// (`None` while there is no valid object), and the number of its last build.
pub struct PipelineState {
    pub pipeline: Pipeline,
    pub generation: Option<u64>,
    pub builds: u64,
}

/// The number of the build after build `n`. Numbers are reused only after
/// all others were.
pub open spec fn next_build(n: u64) -> u64 {
    if n == u64::MAX {
        0
    } else {
        (n + 1) as u64
    }
}

impl PipelineState {
    /// The state of a pipeline that was never built.
    pub open spec fn fresh(pipeline: Pipeline) -> PipelineState {
        PipelineState { pipeline, generation: None, builds: 0 }
    }

    /// Whether the object is valid for the render target of `generation`.
    pub open spec fn is_live(self, generation: u64) -> bool {
        self.generation == Some(generation)
    }

    /// The identity of the object.
    pub open spec fn handle(self) -> PipelineHandle {
        PipelineHandle { pipeline: self.pipeline.id, build: self.builds }
    }

    /// The state after the object was replaced by one built for
    /// `generation`: a new object, from the same entry points.
    pub open spec fn rebuilt(self, generation: u64) -> PipelineState {
        PipelineState {
            pipeline: self.pipeline,
            generation: Some(generation),
            builds: next_build(self.builds),
        }
    }

    /// The state after the pipeline was asked for under `generation`:
    /// unchanged if its object is valid for it, else rebuilt.
    pub open spec fn got(self, generation: u64) -> PipelineState {
        if self.is_live(generation) {
            self
        } else {
            self.rebuilt(generation)
        }
    }

    /// What the object has to be built from when the pipeline is asked for
    /// under `generation`: nothing if it is valid for it, else the entry
    /// points that the pipeline has had from the start.
    pub open spec fn to_build(self, generation: u64) -> Option<Pipeline> {
        if self.is_live(generation) {
            None
        } else {
            Some(self.pipeline)
        }
    }

    /// The state after the object was declared invalid.
    pub open spec fn invalidated(self) -> PipelineState {
        PipelineState { pipeline: self.pipeline, generation: None, builds: self.builds }
    }
}

/// Keeps track of the one pipeline object that a pipeline has at a time. The
/// object is replaced, never changed, when the render target is.
#[derive(Clone, Copy, Debug)]
pub struct PipelineCache {
    pipeline: Pipeline,
    generation: Option<u64>,
    builds: u64,
}

impl View for PipelineCache {
    type V = PipelineState;

    closed spec fn view(&self) -> PipelineState {
        PipelineState { pipeline: self.pipeline, generation: self.generation, builds: self.builds }
    }
}

impl PipelineCache {
    /// The cache of a pipeline that has no object yet.
    pub fn new(pipeline: Pipeline) -> (r: Self)
        ensures
            r@ == PipelineState::fresh(pipeline),
    {
        PipelineCache { pipeline, generation: None, builds: 0 }
    }

    /// The handle to the shared pipeline.
    pub fn pipeline(&self) -> (r: Pipeline)
        ensures
            r == self@.pipeline,
    {
        self.pipeline
    }

    /// The identity of the current object, if it is valid.
    pub fn handle(&self) -> (r: Option<PipelineHandle>)
        ensures
            r == if self@.generation is Some {
                Some(self@.handle())
            } else {
                None
            },
    {
        match self.generation {
            Some(_) => Some(PipelineHandle { pipeline: self.pipeline.id, build: self.builds }),
            None => None,
        }
    }

    /// Whether the object is valid for the render target of `generation`.
    pub fn is_live(&self, render_target_generation: u64) -> (r: bool)
        ensures
            r == self@.is_live(render_target_generation),
    {
        match self.generation {
            Some(g) => g == render_target_generation,
            None => false,
        }
    }

    /// The pipeline object for the render target of
    /// `render_target_generation`, and what it has to be built from first,
    /// if it has to be built.
    ///
    /// If the current object is valid for that generation, it is handed out
    /// and nothing changes. Otherwise the cache moves on to a new object,
    /// which the caller builds from the same entry points before any draw
    /// uses it; the old object is not used again.
    pub fn get_or_create(&mut self, render_target_generation: u64) -> (r: (
        PipelineHandle,
        Option<Pipeline>,
    ))
        ensures
            final(self)@ == old(self)@.got(render_target_generation),
            r.0 == final(self)@.handle(),
            r.1 == old(self)@.to_build(render_target_generation),
    {
        if self.is_live(render_target_generation) {
            (PipelineHandle { pipeline: self.pipeline.id, build: self.builds }, None)
        } else {
            self.builds = if self.builds == u64::MAX {
                0
            } else {
                self.builds + 1
            };
            self.generation = Some(render_target_generation);
            (PipelineHandle { pipeline: self.pipeline.id, build: self.builds }, Some(self.pipeline))
        }
    }

    /// Replaces the object by one built for `render_target_generation`,
    /// whether or not the current one is valid.
    pub fn recreate(&mut self, render_target_generation: u64) -> (r: PipelineHandle)
        ensures
            final(self)@ == old(self)@.rebuilt(render_target_generation),
            r == final(self)@.handle(),
    {
        self.builds = if self.builds == u64::MAX {
            0
        } else {
            self.builds + 1
        };
        self.generation = Some(render_target_generation);
        PipelineHandle { pipeline: self.pipeline.id, build: self.builds }
    }

    /// Declares the object invalid, as after a failed frame: the next
    /// [`get_or_create`](Self::get_or_create) builds a new one.
    pub fn invalidate(&mut self)
        ensures
            final(self)@ == old(self)@.invalidated(),
    {
        self.generation = None;
    }
}

/// A rebuild happens exactly when the render target changed: for a pipeline
/// whose object is valid for generation `before`, asking under `now` builds
/// a new object if and only if `now` differs from `before`; if it does not,
/// the state and the handle stay as they were.
pub proof fn lemma_rebuild_iff_changed(state: PipelineState, before: u64, now: u64)
    requires
        state.is_live(before),
    ensures
        state.got(now).handle() != state.handle() <==> now != before,
        now == before ==> state.got(now) == state,
        state.got(now).is_live(now),
        state.got(now).pipeline == state.pipeline,
{
}

/// Asking twice under one generation builds at most once: the second answer
/// is the first.
pub proof fn lemma_get_is_idempotent(state: PipelineState, generation: u64)
    ensures
        state.got(generation).got(generation) == state.got(generation),
        state.got(generation).is_live(generation),
{
}

/// After an object was declared invalid, the next request builds a new one,
/// under whatever generation.
pub proof fn lemma_invalid_is_rebuilt(state: PipelineState, generation: u64)
    ensures
        !state.invalidated().is_live(generation),
        state.invalidated().got(generation).handle() != state.handle(),
{
}

/// The caches of the pipelines in use, by pipeline identity.
#[derive(Debug)]
pub struct PipelineTable {
    caches: Vec<PipelineCache>,
}

/// Cache `i` is the first one of pipeline `id`.
spec fn is_first(caches: Seq<PipelineCache>, id: usize, i: int) -> bool {
    &&& 0 <= i < caches.len()
    &&& caches[i]@.pipeline.id == id
    &&& forall|j: int| 0 <= j < i ==> (#[trigger] caches[j])@.pipeline.id != id
}

/// No cache is of pipeline `id`.
spec fn is_absent(caches: Seq<PipelineCache>, id: usize) -> bool {
    forall|j: int| 0 <= j < caches.len() ==> (#[trigger] caches[j])@.pipeline.id != id
}

/// The states of the pipelines that have a cache.
spec fn states(caches: Seq<PipelineCache>) -> Map<usize, PipelineState> {
    Map::new(
        |id: usize| exists|i: int| is_first(caches, id, i),
        |id: usize| caches[choose|i: int| is_first(caches, id, i)]@,
    )
}

/// The state that pipeline `id` has in `caches` is that of its first cache.
proof fn lemma_state_of_first(caches: Seq<PipelineCache>, id: usize, i: int)
    requires
        is_first(caches, id, i),
    ensures
        states(caches).dom().contains(id),
        states(caches)[id] == caches[i]@,
{
    let c = choose|c: int| is_first(caches, id, c);
    if c < i {
        assert(caches[c]@.pipeline.id != id);
    } else if i < c {
        assert(caches[i]@.pipeline.id != id);
    }
}

/// A pipeline without a cache has no state.
proof fn lemma_absent_has_no_state(caches: Seq<PipelineCache>, id: usize)
    requires
        is_absent(caches, id),
    ensures
        !states(caches).dom().contains(id),
{
    if states(caches).dom().contains(id) {
        let c = choose|c: int| is_first(caches, id, c);
        assert(caches[c]@.pipeline.id != id);
    }
}

/// A pipeline with a state has a first cache.
proof fn lemma_first_of_state(caches: Seq<PipelineCache>, id: usize) -> (i: int)
    requires
        states(caches).dom().contains(id),
    ensures
        is_first(caches, id, i),
        states(caches)[id] == caches[i]@,
{
    choose|c: int| is_first(caches, id, c)
}

/// Two sequences of caches in which the same pipelines stand at the same
/// places have the same first caches.
proof fn lemma_same_firsts(before: Seq<PipelineCache>, after: Seq<PipelineCache>)
    requires
        before.len() <= after.len(),
        forall|j: int|
            0 <= j < before.len() ==> (#[trigger] after[j])@.pipeline.id == before[j]@.pipeline.id,
    ensures
        forall|id: usize, c: int|
            0 <= c < before.len() ==> (is_first(before, id, c) <==> is_first(after, id, c)),
{
    assert forall|id: usize, c: int| 0 <= c < before.len() implies (is_first(before, id, c)
        <==> is_first(after, id, c)) by {
        if is_first(before, id, c) {
            assert forall|j: int| 0 <= j < c implies (#[trigger] after[j])@.pipeline.id != id by {
                assert(before[j]@.pipeline.id != id);
            }
        }
        if is_first(after, id, c) {
            assert forall|j: int| 0 <= j < c implies (#[trigger] before[j])@.pipeline.id != id by {
                assert(after[j]@.pipeline.id != id);
            }
        }
    }
}

/// Changing the state of a pipeline's first cache changes the pipeline's
/// state, and no other.
proof fn lemma_first_changed(
    before: Seq<PipelineCache>,
    after: Seq<PipelineCache>,
    id: usize,
    i: int,
)
    requires
        is_first(before, id, i),
        after.len() == before.len(),
        after[i]@.pipeline.id == id,
        forall|j: int| 0 <= j < before.len() && j != i ==> (#[trigger] after[j]) == before[j],
    ensures
        states(after) == states(before).insert(id, after[i]@),
{
    let want = states(before).insert(id, after[i]@);
    lemma_same_firsts(before, after);
    lemma_state_of_first(after, id, i);
    assert forall|other: usize| other != id implies (#[trigger] states(after).dom().contains(other)
        <==> want.dom().contains(other)) && (want.dom().contains(other) ==> states(after)[other]
        == want[other]) by {
        if states(before).dom().contains(other) {
            let c = lemma_first_of_state(before, other);
            lemma_state_of_first(after, other, c);
        }
        if states(after).dom().contains(other) {
            let c = lemma_first_of_state(after, other);
            lemma_state_of_first(before, other, c);
        }
    }
}

/// A cache added for a pipeline that had none gives that pipeline a state,
/// and changes no other.
proof fn lemma_cache_added(before: Seq<PipelineCache>, cache: PipelineCache)
    requires
        is_absent(before, cache@.pipeline.id),
    ensures
        is_first(before.push(cache), cache@.pipeline.id, before.len() as int),
        states(before.push(cache)) == states(before).insert(cache@.pipeline.id, cache@),
{
    let id = cache@.pipeline.id;
    let after = before.push(cache);
    let want = states(before).insert(id, cache@);
    lemma_same_firsts(before, after);
    assert(is_first(after, id, before.len() as int)) by {
        assert forall|j: int| 0 <= j < before.len() implies (#[trigger] after[j])@.pipeline.id
            != id by {
            assert(before[j]@.pipeline.id != id);
        }
    }
    lemma_state_of_first(after, id, before.len() as int);
    assert forall|other: usize| other != id implies (#[trigger] states(after).dom().contains(other)
        <==> want.dom().contains(other)) && (want.dom().contains(other) ==> states(after)[other]
        == want[other]) by {
        if states(before).dom().contains(other) {
            let c = lemma_first_of_state(before, other);
            lemma_state_of_first(after, other, c);
        }
        if states(after).dom().contains(other) {
            let c = lemma_first_of_state(after, other);
            lemma_state_of_first(before, other, c);
        }
    }
}

/// The state in which `pipeline` is asked for: the one the table holds for
/// its identity, or that of a pipeline never built.
pub open spec fn state_in(table: Map<usize, PipelineState>, pipeline: Pipeline) -> PipelineState {
    if table.dom().contains(pipeline.id) {
        table[pipeline.id]
    } else {
        PipelineState::fresh(pipeline)
    }
}

/// The table after `pipeline` was asked for under `generation`.
pub open spec fn asked(
    table: Map<usize, PipelineState>,
    pipeline: Pipeline,
    generation: u64,
) -> Map<usize, PipelineState> {
    table.insert(pipeline.id, state_in(table, pipeline).got(generation))
}

impl View for PipelineTable {
    type V = Map<usize, PipelineState>;

    closed spec fn view(&self) -> Map<usize, PipelineState> {
        states(self.caches@)
    }
}

impl PipelineTable {
    /// A table without pipelines.
    pub fn new() -> (r: Self)
        ensures
            r@ == Map::<usize, PipelineState>::empty(),
    {
        let r = PipelineTable { caches: Vec::new() };
        r
    }

    /// The place of the cache of pipeline `id`, if it has one.
    fn find(&self, id: usize) -> (r: Option<usize>)
        ensures
            match r {
                Some(i) => is_first(self.caches@, id, i as int),
                None => is_absent(self.caches@, id),
            },
    {
        let mut i: usize = 0;
        while i < self.caches.len()
            invariant
                i <= self.caches.len(),
                forall|j: int| 0 <= j < i ==> (#[trigger] self.caches@[j])@.pipeline.id != id,
            decreases self.caches.len() - i,
        {
            if self.caches[i].pipeline().id == id {
                return Some(i);
            }
            i += 1;
        }
        None
    }

    /// The place of the cache of `pipeline`; the pipeline is taken up if the
    /// table does not know it.
    fn place(&mut self, pipeline: Pipeline) -> (i: usize)
        ensures
            is_first(final(self).caches@, pipeline.id, i as int),
            final(self).caches@[i as int]@ == state_in(old(self)@, pipeline),
            final(self)@ == old(self)@.insert(pipeline.id, state_in(old(self)@, pipeline)),
    {
        match self.find(pipeline.id) {
            Some(i) => {
                proof {
                    lemma_state_of_first(self.caches@, pipeline.id, i as int);
                }
                i
            },
            None => {
                let cache = PipelineCache::new(pipeline);
                proof {
                    lemma_absent_has_no_state(self.caches@, pipeline.id);
                    lemma_cache_added(self.caches@, cache);
                }
                self.caches.push(cache);
                self.caches.len() - 1
            },
        }
    }

    /// The cache of pipeline `id`, if it has one.
    pub fn get(&self, id: usize) -> (r: Option<PipelineCache>)
        ensures
            match r {
                Some(cache) => self@.dom().contains(id) && cache@ == self@[id],
                None => !self@.dom().contains(id),
            },
    {
        match self.find(id) {
            Some(i) => {
                proof {
                    lemma_state_of_first(self.caches@, id, i as int);
                }
                Some(self.caches[i])
            },
            None => {
                proof {
                    lemma_absent_has_no_state(self.caches@, id);
                }
                None
            },
        }
    }

    /// The object of `pipeline` for the render target of
    /// `render_target_generation`, and what it has to be built from first,
    /// if it has to be built.
    ///
    /// A pipeline that the table does not know is taken up, with the entry
    /// points that `pipeline` names; a known one keeps those it was taken up
    /// with. No other pipeline is touched.
    pub fn get_or_create(&mut self, pipeline: Pipeline, render_target_generation: u64) -> (r: (
        PipelineHandle,
        Option<Pipeline>,
    ))
        ensures
            final(self)@ == asked(old(self)@, pipeline, render_target_generation),
            r.0 == state_in(old(self)@, pipeline).got(render_target_generation).handle(),
            r.1 == state_in(old(self)@, pipeline).to_build(render_target_generation),
    {
        let i = self.place(pipeline);
        let ghost placed = self.caches@;
        let r = self.caches[i].get_or_create(render_target_generation);
        proof {
            lemma_first_changed(placed, self.caches@, pipeline.id, i as int);
        }
        r
    }

    /// Replaces the object of `pipeline` by one built for
    /// `render_target_generation`, whether or not the current one is valid,
    /// and says what to build it from. An unknown pipeline is taken up as by
    /// [`get_or_create`](Self::get_or_create).
    pub fn recreate(&mut self, pipeline: Pipeline, render_target_generation: u64) -> (r: (
        PipelineHandle,
        Pipeline,
    ))
        ensures
            final(self)@ == old(self)@.insert(
                pipeline.id,
                state_in(old(self)@, pipeline).rebuilt(render_target_generation),
            ),
            r.0 == state_in(old(self)@, pipeline).rebuilt(render_target_generation).handle(),
            r.1 == state_in(old(self)@, pipeline).pipeline,
    {
        let i = self.place(pipeline);
        let ghost placed = self.caches@;
        let handle = self.caches[i].recreate(render_target_generation);
        proof {
            lemma_first_changed(placed, self.caches@, pipeline.id, i as int);
            assert(self@ =~= old(self)@.insert(
                pipeline.id,
                state_in(old(self)@, pipeline).rebuilt(render_target_generation),
            ));
        }
        (handle, self.caches[i].pipeline())
    }

    /// Declares every object invalid, as after a failed frame: each pipeline
    /// is built anew when it is next asked for.
    pub fn invalidate(&mut self)
        ensures
            final(self)@.dom() == old(self)@.dom(),
            forall|id: usize| #[trigger]
                old(self)@.dom().contains(id) ==> final(self)@[id] == old(self)@[id].invalidated(),
    {
        let ghost before = self.caches@;
        let mut i: usize = 0;
        while i < self.caches.len()
            invariant
                i <= self.caches.len(),
                self.caches.len() == before.len(),
                forall|j: int|
                    0 <= j < i ==> (#[trigger] self.caches@[j])@ == before[j]@.invalidated(),
                forall|j: int| i <= j < before.len() ==> (#[trigger] self.caches@[j]) == before[j],
            decreases self.caches.len() - i,
        {
            self.caches[i].invalidate();
            i += 1;
        }
        proof {
            let after = self.caches@;
            lemma_same_firsts(before, after);
            assert(states(after).dom() =~= states(before).dom()) by {
                assert forall|id: usize| states(after).dom().contains(id) <==> states(
                    before,
                ).dom().contains(id) by {
                    if states(before).dom().contains(id) {
                        let c = lemma_first_of_state(before, id);
                        lemma_state_of_first(after, id, c);
                    }
                    if states(after).dom().contains(id) {
                        let c = lemma_first_of_state(after, id);
                        lemma_state_of_first(before, id, c);
                    }
                }
            }
            assert forall|id: usize| #[trigger]
                states(before).dom().contains(id) implies states(after)[id] == states(
                before,
            )[id].invalidated() by {
                let c = lemma_first_of_state(before, id);
                lemma_state_of_first(after, id, c);
            }
        }
    }
}

} // verus!

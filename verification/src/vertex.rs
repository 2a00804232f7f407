//! The interface of the vertex stage: the attributes it reads and the
//! uniform block it is given.

use vstd::prelude::*;
use crate::components::{Camera, Transform};

verus! {

/// The descriptor set of the view block.
pub const VIEW_SET: u32 = 0;

/// The binding of the view block in its set.
pub const VIEW_BINDING: u32 = 0;

/// The number of 16-byte rows of the view block.
pub const BLOCK_ROWS: usize = 8;

/// The vertex buffer slot of the shared geometry.
pub const GEOMETRY_SLOT: u32 = 0;

/// The vertex buffer slot of the instance array.
pub const INSTANCE_SLOT: u32 = 1;

/// How often the vertex stage steps to the next element of a buffer.
#[derive(Clone, Copy, Debug, PartialEq, Eq, Structural)]
pub enum InputRate {
    Vertex,
    Instance,
}

/// One input of the vertex stage: a vector of `components` single-precision
/// floats, read at `offset` bytes into each element of the buffer in `slot`.
#[derive(Clone, Copy, Debug, PartialEq, Eq, Structural)]
pub struct VertexAttribute {
    pub location: u32,
    pub slot: u32,
    pub rate: InputRate,
    pub components: u32,
    pub offset: u32,
}

/// The size in bytes of one element of a vertex buffer.
#[derive(Clone, Copy, Debug, PartialEq, Eq, Structural)]
pub struct VertexBinding {
    pub slot: u32,
    pub rate: InputRate,
    pub stride: u32,
}

/// The input at `location` that is read at `offset` of the elements of the
/// geometry buffer.
pub open spec fn per_vertex(location: u32, components: u32, offset: u32) -> VertexAttribute {
    VertexAttribute { location, slot: GEOMETRY_SLOT, rate: InputRate::Vertex, components, offset }
}

/// The input at `location` that is read at `offset` of the elements of the
/// instance array.
pub open spec fn per_instance(location: u32, components: u32, offset: u32) -> VertexAttribute {
    VertexAttribute { location, slot: INSTANCE_SLOT, rate: InputRate::Instance, components, offset }
}

/// The inputs of the vertex stage, by location: position and texture
/// coordinate of the shared geometry, then tint and the three transform rows
/// of the instance.
pub open spec fn spec_attributes() -> Seq<VertexAttribute> {
    seq![
        per_vertex(0, 2, 0),
        per_vertex(1, 2, 8),
        per_instance(2, 4, 0),
        per_instance(3, 3, 16),
        per_instance(4, 3, 28),
        per_instance(5, 3, 40),
    ]
}

/// The two vertex buffers: the geometry, 16 bytes a vertex, and the instance
/// array, 52 bytes an instance.
pub open spec fn spec_bindings() -> Seq<VertexBinding> {
    seq![
        VertexBinding { slot: GEOMETRY_SLOT, rate: InputRate::Vertex, stride: 16 },
        VertexBinding { slot: INSTANCE_SLOT, rate: InputRate::Instance, stride: 52 },
    ]
}

/// The size in bytes of an attribute.
pub open spec fn size_of(a: VertexAttribute) -> int {
    4 * a.components
}

/// A layout is packed if, in every buffer, the attributes follow one another
/// without gap or overlap from offset 0, and the stride is where the last one
/// ends. Locations count up from 0.
pub open spec fn is_packed(attributes: Seq<VertexAttribute>, bindings: Seq<VertexBinding>) -> bool {
    &&& forall|i: int| 0 <= i < attributes.len() ==> (#[trigger] attributes[i]).location == i
    &&& forall|i: int|
        0 <= i < attributes.len() ==> {
            let a = #[trigger] attributes[i];
            &&& 0 <= a.slot < bindings.len()
            &&& bindings[a.slot as int].slot == a.slot
            &&& bindings[a.slot as int].rate == a.rate
            &&& if i > 0 && attributes[i - 1].slot == a.slot {
                a.offset == attributes[i - 1].offset + size_of(attributes[i - 1])
            } else {
                a.offset == 0
            }
            &&& if i + 1 < attributes.len() && attributes[i + 1].slot == a.slot {
                true
            } else {
                bindings[a.slot as int].stride == a.offset + size_of(a)
            }
        }
}

/// The vertex stage's inputs are laid out packed.
pub proof fn lemma_layout_packed()
    ensures
        is_packed(spec_attributes(), spec_bindings()),
{
}

/// The first input of a buffer.
fn first(location: u32, slot: u32, rate: InputRate, components: u32) -> (r: VertexAttribute)
    ensures
        r == (VertexAttribute { location, slot, rate, components, offset: 0 }),
{
    VertexAttribute { location, slot, rate, components, offset: 0 }
}

/// The input that follows `before` in its buffer: at the next location,
/// where `before` ends.
fn next(before: VertexAttribute, components: u32) -> (r: VertexAttribute)
    requires
        before.location < u32::MAX,
        before.offset + 4 * before.components <= u32::MAX,
    ensures
        r == (VertexAttribute {
            location: (before.location + 1) as u32,
            slot: before.slot,
            rate: before.rate,
            components,
            offset: (before.offset + 4 * before.components) as u32,
        }),
{
    VertexAttribute {
        location: before.location + 1,
        slot: before.slot,
        rate: before.rate,
        components,
        offset: before.offset + 4 * before.components,
    }
}

/// The end of the buffer element whose last input is `last`.
fn end(last: VertexAttribute) -> (r: VertexBinding)
    requires
        last.offset + 4 * last.components <= u32::MAX,
    ensures
        r == (VertexBinding {
            slot: last.slot,
            rate: last.rate,
            stride: (last.offset + 4 * last.components) as u32,
        }),
{
    VertexBinding { slot: last.slot, rate: last.rate, stride: last.offset + 4 * last.components }
}

/// The inputs of the vertex stage.
pub fn attributes() -> (r: [VertexAttribute; 6])
    ensures
        r@ == spec_attributes(),
{
    let position = first(0, GEOMETRY_SLOT, InputRate::Vertex, 2);
    let uv = next(position, 2);
    let color = first(2, INSTANCE_SLOT, InputRate::Instance, 4);
    let transform_x = next(color, 3);
    let transform_y = next(transform_x, 3);
    let transform_z = next(transform_y, 3);
    let r = [position, uv, color, transform_x, transform_y, transform_z];
    r
}

/// The vertex buffers that the inputs are read from.
pub fn bindings() -> (r: [VertexBinding; 2])
    ensures
        r@ == spec_bindings(),
{
    let inputs = attributes();
    let r = [end(inputs[1]), end(inputs[5])];
    r
}

/// The uniform block of the vertex stage: the camera's transform, the
/// camera's projection and the layer of the batch being drawn. The matrices
/// are bit patterns of single-precision floats, row by row. The device reads
/// a depth in place of the layer: see [`block`](Self::block).
#[derive(Clone, Copy, Debug, PartialEq, Eq)]
pub struct ViewUniform {
    pub camera_transform: [[u32; 3]; 3],
    pub camera_proj: [[u32; 4]; 4],
    pub layer: i32,
}

impl ViewUniform {
    /// The block for a batch of `layer` seen by `camera` placed at
    /// `camera_transform`: both matrices as the components hold them.
    pub open spec fn of(camera: Camera, camera_transform: Transform, layer: i32) -> ViewUniform {
        ViewUniform { camera_transform: camera_transform.matrix, camera_proj: camera.proj, layer }
    }

    /// The block for a batch of `layer` seen by `camera` placed at
    /// `camera_transform`.
    pub fn new(camera: &Camera, camera_transform: &Transform, layer: i32) -> (r: Self)
        ensures
            r == Self::of(*camera, *camera_transform, layer),
    {
        ViewUniform { camera_transform: camera_transform.matrix, camera_proj: camera.proj, layer }
    }

    /// Whether `rows` is the block as the device reads it, in rows of 16
    /// bytes: the three rows of the camera's transform, each filled up with
    /// a zero; the four rows of the projection; and `depth`, the depth of the
    /// batch's layer, in a row of its own.
    pub open spec fn is_block(self, depth: u32, rows: Seq<[u32; 4]>) -> bool {
        &&& rows.len() == BLOCK_ROWS
        &&& forall|i: int|
            0 <= i < 3 ==> (#[trigger] rows[i])@ == self.camera_transform[i]@.push(0)
        &&& forall|i: int| 0 <= i < 4 ==> rows[3 + i] == #[trigger] self.camera_proj[i]
        &&& rows[7]@ == seq![depth, 0, 0, 0]
    }

    /// The block as the device reads it. The caller brings the depth that
    /// the camera gives the batch's layer, as a bit pattern.
    pub fn block(&self, depth: u32) -> (r: [[u32; 4]; 8])
        ensures
            self.is_block(depth, r@),
    {
        let t = &self.camera_transform;
        let p = &self.camera_proj;
        let r = [
            [t[0][0], t[0][1], t[0][2], 0],
            [t[1][0], t[1][1], t[1][2], 0],
            [t[2][0], t[2][1], t[2][2], 0],
            p[0],
            p[1],
            p[2],
            p[3],
            [depth, 0, 0, 0],
        ];
        assert forall|i: int| 0 <= i < 3 implies (#[trigger] r@[i])@
            == self.camera_transform[i]@.push(0) by {
            assert(r@[i]@ =~= self.camera_transform[i]@.push(0));
        }
        r
    }
}

} // verus!

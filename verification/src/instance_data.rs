//! The per-instance vertex attributes.

use vstd::prelude::*;
use crate::components::Transform;
use crate::instance::{Instance, InstanceEntity};
use crate::vertex::{spec_attributes, spec_bindings, INSTANCE_SLOT};

verus! {

/// The attributes of one drawn instance, in the order and layout in which
/// the vertex stage reads them: the tint, then the three rows of the
/// transform. All values are bit patterns of single-precision floats.
#[derive(Clone, Copy, Debug, PartialEq, Eq)]
pub struct InstanceData {
    pub color: [u32; 4],
    pub transform_x: [u32; 3],
    pub transform_y: [u32; 3],
    pub transform_z: [u32; 3],
}

impl InstanceData {
    /// The attributes of a record under a transform: the record's color and
    /// the matrix's rows, each value unchanged.
    pub open spec fn of(instance: Instance, transform: Transform) -> InstanceData {
        InstanceData {
            color: instance.color,
            transform_x: transform.matrix[0],
            transform_y: transform.matrix[1],
            transform_z: transform.matrix[2],
        }
    }

    /// The record as the words of one element of the instance buffer: the
    /// tint, then the three rows, with nothing between them.
    pub open spec fn spec_words(self) -> Seq<u32> {
        self.color@ + self.transform_x@ + self.transform_y@ + self.transform_z@
    }

    /// The 13 words of one element of the instance buffer.
    pub fn words(&self) -> (r: [u32; 13])
        ensures
            r@ == self.spec_words(),
    {
        let r = [
            self.color[0],
            self.color[1],
            self.color[2],
            self.color[3],
            self.transform_x[0],
            self.transform_x[1],
            self.transform_x[2],
            self.transform_y[0],
            self.transform_y[1],
            self.transform_y[2],
            self.transform_z[0],
            self.transform_z[1],
            self.transform_z[2],
        ];
        r
    }

    /// The field that the vertex stage reads at `location`.
    pub open spec fn field(self, location: int) -> Seq<u32> {
        if location == 2 {
            self.color@
        } else if location == 3 {
            self.transform_x@
        } else if location == 4 {
            self.transform_y@
        } else {
            self.transform_z@
        }
    }

    /// Encodes one record with its transform. Nothing is clamped, scaled or
    /// reordered.
    pub fn new(instance: &Instance, transform: &Transform) -> (r: Self)
        ensures
            r == Self::of(*instance, *transform),
    {
        InstanceData {
            color: instance.color,
            transform_x: transform.matrix[0],
            transform_y: transform.matrix[1],
            transform_z: transform.matrix[2],
        }
    }
}

/// The instance array of a batch: one attribute record per member, in the
/// members' order.
pub open spec fn encoded(members: Seq<InstanceEntity>) -> Seq<InstanceData> {
    Seq::new(members.len(), |i: int| InstanceData::of(members[i].instance, members[i].transform))
}

/// Encodes the members of a batch, keeping their order: entry `i` of the
/// result belongs to member `i`.
pub fn encode(members: &Vec<InstanceEntity>) -> (r: Vec<InstanceData>)
    ensures
        r@ == encoded(members@),
{
    let mut out: Vec<InstanceData> = Vec::new();
    let mut i: usize = 0;
    while i < members.len()
        invariant
            i <= members.len(),
            out@ == encoded(members@.take(i as int)),
        decreases members.len() - i,
    {
        out.push(InstanceData::new(&members[i].instance, &members[i].transform));
        i += 1;
    }
    out
}

/// The words of an instance lie where the vertex stage reads them: each
/// input of the instance slot finds its field at its offset, and the words
/// fill the slot's stride.
pub proof fn lemma_words_follow_layout(data: InstanceData)
    ensures
        4 * data.spec_words().len() == spec_bindings()[INSTANCE_SLOT as int].stride,
        forall|location: int|
            2 <= location < 6 ==> {
                let a = #[trigger] spec_attributes()[location];
                &&& a.slot == INSTANCE_SLOT
                &&& a.components == data.field(location).len()
                &&& data.spec_words().subrange(
                    a.offset as int / 4,
                    a.offset as int / 4 + a.components as int,
                ) == data.field(location)
            },
{
    let words = data.spec_words();
    assert(words.subrange(0, 4) =~= data.color@);
    assert(words.subrange(4, 7) =~= data.transform_x@);
    assert(words.subrange(7, 10) =~= data.transform_y@);
    assert(words.subrange(10, 13) =~= data.transform_z@);
}

} // verus!

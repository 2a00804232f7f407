//! What the renderer reads of the entity store.

use vstd::prelude::*;
use crate::instance::Instance;

verus! {

/// A camera component: its projection matrix, as bit patterns of
/// single-precision floats.
#[derive(Clone, Copy, Debug, PartialEq, Eq)]
pub struct Camera {
    pub proj: [[u32; 4]; 4],
    pub active: bool,
}

/// A transform component: its composed 2D affine matrix, row by row, as bit
/// patterns of single-precision floats.
#[derive(Clone, Copy, Debug, PartialEq, Eq)]
pub struct Transform {
    pub matrix: [[u32; 3]; 3],
    pub active: bool,
}

/// One row of the entity table. An entity's identity is its position in the
/// table.
#[derive(Clone, Copy, Debug, PartialEq, Eq)]
pub struct Entity {
    pub camera: Option<Camera>,
    pub transform: Option<Transform>,
    pub instance: Option<Instance>,
}

impl Camera {
    /// A camera of the given parts.
    pub fn new(proj: [[u32; 4]; 4], active: bool) -> (r: Self)
        ensures
            r == (Camera { proj, active }),
    {
        Camera { proj, active }
    }
}

impl Transform {
    /// A transform of the given parts.
    pub fn new(matrix: [[u32; 3]; 3], active: bool) -> (r: Self)
        ensures
            r == (Transform { matrix, active }),
    {
        Transform { matrix, active }
    }
}

impl Entity {
    /// Whether the entity can serve as the frame's camera: it has an active
    /// camera and an active transform.
    pub open spec fn is_camera(self) -> bool {
        &&& self.camera matches Some(c)
        &&& c.active
        &&& self.transform matches Some(t)
        &&& t.active
    }

    /// Whether the entity is drawn: it has an active instance record and an
    /// active transform.
    pub open spec fn is_renderable(self) -> bool {
        &&& self.instance matches Some(i)
        &&& i.active
        &&& self.transform matches Some(t)
        &&& t.active
    }
}

/// Entity `i` is the first that can serve as camera.
pub open spec fn is_first_camera(entities: Seq<Entity>, i: int) -> bool {
    &&& 0 <= i < entities.len()
    &&& entities[i].is_camera()
    &&& forall|j: int| 0 <= j < i ==> !(#[trigger] entities[j]).is_camera()
}

/// The camera of a table: the components of the first entity that has an
/// active camera and an active transform, if there is one.
pub open spec fn active_camera_of(entities: Seq<Entity>) -> Option<(Camera, Transform)> {
    if exists|i: int| is_first_camera(entities, i) {
        let i = choose|i: int| is_first_camera(entities, i);
        Some((entities[i].camera->0, entities[i].transform->0))
    } else {
        None
    }
}

/// The frame's camera: the first entity that has an active camera and an
/// active transform, with both components. `None` when there is no such
/// entity; the frame then draws nothing.
pub fn active_camera(entities: &Vec<Entity>) -> (r: Option<(usize, Camera, Transform)>)
    ensures
        match r {
            Some((id, camera, transform)) => {
                &&& is_first_camera(entities@, id as int)
                &&& entities[id as int].camera == Some(camera)
                &&& entities[id as int].transform == Some(transform)
                &&& active_camera_of(entities@) == Some((camera, transform))
            },
            None => {
                &&& forall|j: int| 0 <= j < entities.len() ==> !(#[trigger] entities[j]).is_camera()
                &&& active_camera_of(entities@) is None
            },
        },
{
    let mut i: usize = 0;
    while i < entities.len()
        invariant
            i <= entities.len(),
            forall|j: int| 0 <= j < i ==> !(#[trigger] entities[j]).is_camera(),
        decreases entities.len() - i,
    {
        if let Some(camera) = entities[i].camera {
            if let Some(transform) = entities[i].transform {
                if camera.active && transform.active {
                    proof {
                        assert(is_first_camera(entities@, i as int));
                        let c = choose|c: int| is_first_camera(entities@, c);
                        if c < i {
                            assert(!entities[c].is_camera());
                        } else if i < c {
                            assert(!entities[i as int].is_camera());
                        }
                    }
                    return Some((i, camera, transform));
                }
            }
        }
        i += 1;
    }
    proof {
        if exists|c: int| is_first_camera(entities@, c) {
            let c = choose|c: int| is_first_camera(entities@, c);
            assert(!entities[c].is_camera());
        }
    }
    None
}

} // verus!

//! Shared identities: an id that several owners hold together.

use std::rc::Rc;
use vstd::prelude::*;

verus! {

/// A source of ids. It hands out 0, 1, 2 and so on; after the largest value
/// it starts again at 0.
#[derive(Debug)]
pub struct IdCounter {
    next: usize,
}

/// The id after `id`.
pub open spec fn id_after(id: usize) -> usize {
    if id == usize::MAX {
        0
    } else {
        (id + 1) as usize
    }
}

impl View for IdCounter {
    type V = usize;

    /// The id that is handed out next.
    closed spec fn view(&self) -> usize {
        self.next
    }
}

impl IdCounter {
    /// A counter that starts at 0.
    pub fn new() -> (r: Self)
        ensures
            r@ == 0,
    {
        IdCounter { next: 0 }
    }
}

/// Takes the next id from `count`, for sharing.
pub fn iid(count: &mut IdCounter) -> (r: Rc<usize>)
    ensures
        *r == old(count)@,
        final(count)@ == id_after(old(count)@),
{
    let id = count.next;
    count.next = if id == usize::MAX {
        0
    } else {
        id + 1
    };
    Rc::new(id)
}

/// An identity that is shared by everything that holds a clone of it.
#[derive(Debug)]
pub struct InstanceId {
    id: Rc<usize>,
}

impl Clone for InstanceId {
    /// Another holder of the same id.
    fn clone(&self) -> (r: Self)
        ensures
            r@ == self@,
    {
        InstanceId { id: self.id.clone() }
    }
}

impl View for InstanceId {
    type V = usize;

    closed spec fn view(&self) -> usize {
        *self.id
    }
}

impl InstanceId {
    /// An identity with the next id of `count`.
    pub fn new(count: &mut IdCounter) -> (r: Self)
        ensures
            r@ == old(count)@,
            final(count)@ == id_after(old(count)@),
    {
        InstanceId { id: iid(count) }
    }

    /// The id.
    pub fn get(&self) -> (r: usize)
        ensures
            r == self@,
    {
        *self.id
    }
}

/// Two ids taken one after the other differ.
pub proof fn lemma_ids_differ(id: usize)
    ensures
        id_after(id) != id,
{
}

} // verus!

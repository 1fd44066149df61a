//! Queues of objects that were reached and wait to be scanned.

use crate::util::address::ObjectReference;
use crate::util::constants::EDGES_WORK_BUFFER_SIZE;
use vstd::prelude::*;

verus! {

/// A queue that takes the objects that a trace reaches for the first time.
pub trait ObjectQueue {
    /// The objects enqueued so far, oldest first.
    spec fn nodes(&self) -> Seq<ObjectReference>;

    /// Adds `object` to the queue.
    fn enqueue(&mut self, object: ObjectReference)
        ensures
            final(self).nodes() == old(self).nodes().push(object),
    ;
}

/// A queue of objects that keeps them in a vector.
pub struct VectorObjectQueue {
    buffer: Vec<ObjectReference>,
}

impl View for VectorObjectQueue {
    type V = Seq<ObjectReference>;

    closed spec fn view(&self) -> Seq<ObjectReference> {
        self.buffer@
    }
}

impl VectorObjectQueue {
    /// An empty queue.
    pub fn new() -> (q: Self)
        ensures
            q@.len() == 0,
    {
        VectorObjectQueue { buffer: Vec::new() }
    }

    /// Whether the queue holds no object.
    pub fn is_empty(&self) -> (r: bool)
        ensures
            r == (self@.len() == 0),
    {
        self.buffer.len() == 0
    }

    /// Whether the queue holds as many objects as one work packet takes.
    pub fn is_full(&self) -> (r: bool)
        ensures
            r == (self@.len() >= EDGES_WORK_BUFFER_SIZE),
    {
        self.buffer.len() >= EDGES_WORK_BUFFER_SIZE
    }

    /// The number of objects in the queue.
    pub fn len(&self) -> (n: usize)
        ensures
            n == self@.len(),
    {
        self.buffer.len()
    }

    /// Takes all objects out of the queue, oldest first, and leaves it
    /// empty.
    pub fn take(&mut self) -> (nodes: Vec<ObjectReference>)
        ensures
            nodes@ == old(self)@,
            final(self)@.len() == 0,
    {
        let mut nodes: Vec<ObjectReference> = Vec::new();
        nodes.append(&mut self.buffer);
        nodes
    }

    /// The objects of the queue, oldest first.
    pub fn into_vec(self) -> (nodes: Vec<ObjectReference>)
        ensures
            nodes@ == self@,
    {
        self.buffer
    }
}

impl ObjectQueue for VectorObjectQueue {
    closed spec fn nodes(&self) -> Seq<ObjectReference> {
        self.buffer@
    }

    fn enqueue(&mut self, object: ObjectReference) {
        self.buffer.push(object);
    }
}

/// The objects of a vector queue are what it holds.
pub broadcast proof fn lemma_vector_queue_nodes(q: VectorObjectQueue)
    ensures
        #[trigger] q.nodes() == q@,
{
}

} // verus!

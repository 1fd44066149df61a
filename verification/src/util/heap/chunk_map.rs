//! Chunks, and the map that records which of them are in use.

use crate::util::address::Address;
use crate::util::constants::BYTES_IN_CHUNK;
use crate::util::metadata::SideMetadata;
use vstd::prelude::*;

verus! {

/// A chunk: a region of four mebibytes, aligned to its size. It is the unit
/// by which parallel scans of a space are divided.
#[derive(Clone, Copy, PartialEq, Eq, Structural, Debug, Hash)]
pub struct Chunk(pub usize);

impl Chunk {
    /// A chunk starts on a multiple of its size.
    pub open spec fn wf(self) -> bool {
        self.0 % BYTES_IN_CHUNK == 0
    }

    /// The chunk that starts at `addr`.
    pub fn from_aligned_address(addr: Address) -> (c: Chunk)
        requires
            addr.0 % BYTES_IN_CHUNK == 0,
        ensures
            c.0 == addr.0,
            c.wf(),
    {
        Chunk(addr.0)
    }

    /// The chunk that `addr` lies in.
    pub fn from_unaligned_address(addr: Address) -> (c: Chunk)
        ensures
            c.0 == addr.0 - addr.0 % BYTES_IN_CHUNK,
            c.wf(),
    {
        Chunk(addr.0 - addr.0 % BYTES_IN_CHUNK)
    }

    /// The address at which the chunk starts.
    pub fn start(self) -> (a: Address)
        ensures
            a.0 == self.0,
    {
        Address(self.0)
    }
}

/// Whether a chunk is in use.
#[derive(Clone, Copy, PartialEq, Eq, Structural, Debug)]
pub enum ChunkState {
    /// No block of the chunk is in use.
    Free,
    /// Some block of the chunk may be in use.
    Allocated,
}

impl ChunkState {
    /// Whether the state is `Allocated`.
    pub fn is_allocated(self) -> (r: bool)
        ensures
            r == (self == ChunkState::Allocated),
    {
        match self {
            ChunkState::Allocated => true,
            ChunkState::Free => false,
        }
    }

    /// Whether the state is `Free`.
    pub fn is_free(self) -> (r: bool)
        ensures
            r == (self == ChunkState::Free),
    {
        match self {
            ChunkState::Allocated => false,
            ChunkState::Free => true,
        }
    }
}

/// The mathematical content of a chunk map: where it starts, and for each
/// chunk in order whether it is allocated.
pub struct ChunkMapView {
    /// The address of the first chunk.
    pub start: usize,
    /// For each chunk, whether it is allocated.
    pub allocated: Seq<bool>,
}

impl ChunkMapView {
    /// The map starts on a chunk boundary and ends within the address space.
    pub open spec fn wf(self) -> bool {
        &&& self.start % BYTES_IN_CHUNK == 0
        &&& self.start + self.allocated.len() * BYTES_IN_CHUNK <= usize::MAX
    }

    /// Whether the map covers `chunk`.
    pub open spec fn covers(self, chunk: Chunk) -> bool {
        &&& chunk.wf()
        &&& self.start <= chunk.0
        &&& chunk.0 < self.start + self.allocated.len() * BYTES_IN_CHUNK
    }

    /// The position of `chunk` in the map.
    pub open spec fn index(self, chunk: Chunk) -> int {
        (chunk.0 - self.start) / (BYTES_IN_CHUNK as int)
    }

    /// The chunk at position `i`.
    pub open spec fn chunk_at(self, i: int) -> Chunk {
        Chunk((self.start + i * BYTES_IN_CHUNK) as usize)
    }

    /// Whether `chunk` is covered and allocated.
    pub open spec fn is_allocated(self, chunk: Chunk) -> bool {
        self.covers(chunk) && self.allocated[self.index(chunk)]
    }

    /// The chunks of the map, in address order.
    pub open spec fn all_chunks(self) -> Seq<Chunk> {
        Seq::new(self.allocated.len(), |i: int| self.chunk_at(i))
    }

    /// The allocated chunks among the first `n`, in address order.
    pub open spec fn allocated_chunks(self, n: int) -> Seq<Chunk>
        decreases n,
    {
        if n <= 0 {
            Seq::empty()
        } else if self.allocated[n - 1] {
            self.allocated_chunks(n - 1).push(self.chunk_at(n - 1))
        } else {
            self.allocated_chunks(n - 1)
        }
    }
}

/// Records for each chunk of a space whether it is allocated.
pub struct ChunkMap {
    start: usize,
    states: SideMetadata<u8>,
}

impl View for ChunkMap {
    type V = ChunkMapView;

    closed spec fn view(&self) -> ChunkMapView {
        ChunkMapView {
            start: self.start,
            allocated: Seq::new(self.states@.len(), |i: int| self.states@[i] != 0),
        }
    }
}

impl ChunkMap {
    /// A map of `chunks` chunks from `start` on, all free.
    pub fn new(start: Address, chunks: usize) -> (map: Self)
        requires
            start.0 % BYTES_IN_CHUNK == 0,
            start.0 + chunks * BYTES_IN_CHUNK <= usize::MAX,
        ensures
            map@.wf(),
            map@.start == start.0,
            map@.allocated.len() == chunks,
            forall|i: int| 0 <= i < chunks ==> !map@.allocated[i],
    {
        ChunkMap { start: start.0, states: SideMetadata::new(chunks, 0u8) }
    }

    /// The number of chunks that the map covers.
    pub fn len(&self) -> (n: usize)
        ensures
            n == self@.allocated.len(),
    {
        self.states.len()
    }

    /// The position of `chunk` in the map, or `None` when the map does not
    /// cover it.
    fn index_of(&self, chunk: Chunk) -> (r: Option<usize>)
        requires
            self@.wf(),
            chunk.wf(),
        ensures
            self@.covers(chunk) ==> r == Some(self@.index(chunk) as usize) && 0 <= self@.index(chunk)
                < self@.allocated.len() && self@.chunk_at(self@.index(chunk)) == chunk,
            !self@.covers(chunk) ==> r.is_none(),
    {
        if chunk.0 < self.start {
            return None;
        }
        let index: usize = (chunk.0 - self.start) / BYTES_IN_CHUNK;
        if index < self.states.len() {
            Some(index)
        } else {
            None
        }
    }

    /// Records `chunk` as allocated or as free. A chunk that the map does
    /// not cover is left alone.
    pub fn set_allocated(&mut self, chunk: Chunk, allocated: bool)
        requires
            old(self)@.wf(),
            chunk.wf(),
        ensures
            final(self)@.wf(),
            final(self)@.start == old(self)@.start,
            old(self)@.covers(chunk) ==> final(self)@.allocated == old(self)@.allocated.update(
                old(self)@.index(chunk),
                allocated,
            ),
            !old(self)@.covers(chunk) ==> final(self)@ == old(self)@,
    {
        match self.index_of(chunk) {
            Some(index) => {
                self.states.store(
                    index,
                    if allocated {
                        1
                    } else {
                        0
                    },
                );
                proof {
                    assert(self@.allocated =~= old(self)@.allocated.update(
                        old(self)@.index(chunk),
                        allocated,
                    ));
                }
            },
            None => {},
        }
    }

    /// The state of `chunk`, or `None` when the map does not cover it.
    pub fn get(&self, chunk: Chunk) -> (r: Option<ChunkState>)
        requires
            self@.wf(),
            chunk.wf(),
        ensures
            !self@.covers(chunk) ==> r.is_none(),
            self@.is_allocated(chunk) ==> r == Some(ChunkState::Allocated),
            self@.covers(chunk) && !self@.is_allocated(chunk) ==> r == Some(ChunkState::Free),
    {
        match self.index_of(chunk) {
            Some(index) => {
                if self.states.load(index) != 0 {
                    Some(ChunkState::Allocated)
                } else {
                    Some(ChunkState::Free)
                }
            },
            None => None,
        }
    }

    /// The chunk at position `index`.
    pub fn chunk_at(&self, index: usize) -> (c: Chunk)
        requires
            self@.wf(),
            index < self@.allocated.len(),
        ensures
            c == self@.chunk_at(index as int),
            self@.covers(c),
            self@.index(c) == index,
    {
        assert(index * BYTES_IN_CHUNK <= self@.allocated.len() * BYTES_IN_CHUNK) by (nonlinear_arith)
            requires
                index < self@.allocated.len(),
        ;
        assert(index * BYTES_IN_CHUNK + BYTES_IN_CHUNK <= self@.allocated.len() * BYTES_IN_CHUNK)
            by (nonlinear_arith)
            requires
                index < self@.allocated.len(),
        ;
        Chunk(self.start + index * BYTES_IN_CHUNK)
    }

    /// All chunks that the map covers, in address order.
    pub fn all_chunks(&self) -> (chunks: Vec<Chunk>)
        requires
            self@.wf(),
        ensures
            chunks@ == self@.all_chunks(),
    {
        let mut chunks: Vec<Chunk> = Vec::new();
        let mut i: usize = 0;
        while i < self.states.len()
            invariant
                self@.wf(),
                i <= self@.allocated.len(),
                self.states@.len() == self@.allocated.len(),
                chunks@.len() == i,
                forall|j: int| 0 <= j < i ==> chunks@[j] == self@.chunk_at(j),
            decreases self@.allocated.len() - i,
        {
            chunks.push(self.chunk_at(i));
            i += 1;
        }
        chunks
    }

    /// One task for each allocated chunk, made by `make_task`, in address
    /// order of the chunks.
    pub fn generate_tasks<T, F: Fn(Chunk) -> T>(&self, make_task: F) -> (tasks: Vec<T>)
        requires
            self@.wf(),
            forall|c: Chunk| self@.is_allocated(c) ==> call_requires(make_task, (c,)),
        ensures
            tasks@.len() == self@.allocated_chunks(self@.allocated.len() as int).len(),
            forall|k: int|
                0 <= k < tasks@.len() ==> call_ensures(
                    make_task,
                    (#[trigger] self@.allocated_chunks(self@.allocated.len() as int)[k],),
                    tasks@[k],
                ),
    {
        let mut tasks: Vec<T> = Vec::new();
        let mut i: usize = 0;
        while i < self.states.len()
            invariant
                self@.wf(),
                i <= self@.allocated.len(),
                self.states@.len() == self@.allocated.len(),
                forall|c: Chunk| self@.is_allocated(c) ==> call_requires(make_task, (c,)),
                tasks@.len() == self@.allocated_chunks(i as int).len(),
                forall|k: int|
                    0 <= k < tasks@.len() ==> call_ensures(
                        make_task,
                        (#[trigger] self@.allocated_chunks(i as int)[k],),
                        tasks@[k],
                    ),
            decreases self@.allocated.len() - i,
        {
            if self.states.load(i) != 0 {
                let chunk = self.chunk_at(i);
                assert(self@.allocated[i as int]);
                assert(self@.is_allocated(chunk));
                tasks.push(make_task(chunk));
            }
            i += 1;
        }
        tasks
    }
}

} // verus!

//! Side metadata: tables kept apart from the memory that they describe, with
//! one cell for each region of a fixed size.

use crate::util::address::Address;
use crate::util::constants::BYTES_IN_CHUNK;
use vstd::prelude::*;

verus! {

/// What a table holds after the `count` cells from `start` on were set to
/// `value`.
pub open spec fn filled<T>(cells: Seq<T>, start: int, count: int, value: T) -> Seq<T> {
    Seq::new(
        cells.len(),
        |i: int|
            if start <= i < start + count {
                value
            } else {
                cells[i]
            },
    )
}

/// One table of side metadata, addressed by the index of the region.
pub struct SideMetadata<T> {
    cells: Vec<T>,
}

impl<T> View for SideMetadata<T> {
    type V = Seq<T>;

    closed spec fn view(&self) -> Seq<T> {
        self.cells@
    }
}

impl<T: Copy> SideMetadata<T> {
    /// A table of `len` cells that all hold `zero`.
    pub fn new(len: usize, zero: T) -> (table: Self)
        ensures
            table@.len() == len,
            forall|i: int| 0 <= i < len ==> table@[i] == zero,
    {
        let mut cells: Vec<T> = Vec::new();
        let mut i: usize = 0;
        while i < len
            invariant
                i <= len,
                cells@.len() == i,
                forall|j: int| 0 <= j < i ==> cells@[j] == zero,
            decreases len - i,
        {
            cells.push(zero);
            i += 1;
        }
        SideMetadata { cells }
    }

    /// The number of cells.
    pub fn len(&self) -> (n: usize)
        ensures
            n == self@.len(),
    {
        self.cells.len()
    }

    /// Reads the cell at `index`.
    pub fn load(&self, index: usize) -> (value: T)
        requires
            index < self@.len(),
        ensures
            value == self@[index as int],
    {
        self.cells[index]
    }

    /// Writes `value` to the cell at `index`.
    pub fn store(&mut self, index: usize, value: T)
        requires
            index < old(self)@.len(),
        ensures
            final(self)@ == old(self)@.update(index as int, value),
    {
        self.cells[index] = value;
    }

    /// Sets the `count` cells from `start` on to `value`.
    pub fn fill(&mut self, start: usize, count: usize, value: T)
        requires
            start + count <= old(self)@.len(),
        ensures
            final(self)@ == filled(old(self)@, start as int, count as int, value),
    {
        let len: usize = self.cells.len();
        let mut i: usize = 0;
        while i < count
            invariant
                i <= count,
                start + count <= len,
                self@.len() == len,
                self@ == filled(old(self)@, start as int, i as int, value),
            decreases count - i,
        {
            self.cells[start + i] = value;
            i += 1;
        }
    }
}

impl SideMetadata<u8> {
    /// Writes `new` to the cell at `index` if it holds `current`. Returns
    /// the byte that the cell held before, as `Ok` when the write took
    /// place and as `Err` when it did not.
    pub fn compare_exchange(&mut self, index: usize, current: u8, new: u8) -> (r: Result<u8, u8>)
        requires
            index < old(self)@.len(),
        ensures
            old(self)@[index as int] == current ==> r == Ok::<u8, u8>(current) && final(self)@
                == old(self)@.update(index as int, new),
            old(self)@[index as int] != current ==> r == Err::<u8, u8>(old(self)@[index as int])
                && final(self)@ == old(self)@,
    {
        let held: u8 = self.cells[index];
        if held == current {
            self.cells[index] = new;
            Ok(held)
        } else {
            Err(held)
        }
    }
}

/// Names the byte tables that a space can own.
#[derive(Clone, Copy, PartialEq, Eq, Structural, Debug)]
pub enum SideMetadataSpec {
    /// The mark byte of each line.
    LineMark,
    /// The state byte of each block.
    BlockMark,
    /// For each block, whether it is to be evacuated.
    BlockDefragSource,
    /// For each block, the number of holes found when it was last swept.
    BlockHoles,
    /// The mark byte of each object.
    ObjectMark,
    /// The forwarding state of each object.
    ForwardingBits,
    /// A marker for each object that has a forwarding pointer table entry.
    ForwardingPointer,
    /// The pinning byte of each object.
    PinningBit,
    /// The log byte of each object.
    LogBit,
    /// For each object boundary, whether a valid object starts there.
    VoBit,
}

/// The number of byte tables.
pub const NUM_SIDE_METADATA_SPECS: usize = 10;

impl SideMetadataSpec {
    /// The position of the table among the tables of a space.
    pub open spec fn spec_ordinal(self) -> int {
        match self {
            SideMetadataSpec::LineMark => 0,
            SideMetadataSpec::BlockMark => 1,
            SideMetadataSpec::BlockDefragSource => 2,
            SideMetadataSpec::BlockHoles => 3,
            SideMetadataSpec::ObjectMark => 4,
            SideMetadataSpec::ForwardingBits => 5,
            SideMetadataSpec::ForwardingPointer => 6,
            SideMetadataSpec::PinningBit => 7,
            SideMetadataSpec::LogBit => 8,
            SideMetadataSpec::VoBit => 9,
        }
    }

    /// The number of bytes of memory that one cell of the table describes.
    pub open spec fn spec_region_bytes(self) -> int {
        match self {
            SideMetadataSpec::LineMark => 256,
            SideMetadataSpec::BlockMark => 32768,
            SideMetadataSpec::BlockDefragSource => 32768,
            SideMetadataSpec::BlockHoles => 32768,
            _ => 8,
        }
    }

    /// The number of cells that the table has for one chunk.
    pub open spec fn spec_cells_in_chunk(self) -> int {
        match self {
            SideMetadataSpec::LineMark => 16384,
            SideMetadataSpec::BlockMark => 128,
            SideMetadataSpec::BlockDefragSource => 128,
            SideMetadataSpec::BlockHoles => 128,
            _ => 524288,
        }
    }

    /// The position of the table among the tables of a space.
    pub fn ordinal(self) -> (n: usize)
        ensures
            n == self.spec_ordinal(),
            n < NUM_SIDE_METADATA_SPECS,
    {
        match self {
            SideMetadataSpec::LineMark => 0,
            SideMetadataSpec::BlockMark => 1,
            SideMetadataSpec::BlockDefragSource => 2,
            SideMetadataSpec::BlockHoles => 3,
            SideMetadataSpec::ObjectMark => 4,
            SideMetadataSpec::ForwardingBits => 5,
            SideMetadataSpec::ForwardingPointer => 6,
            SideMetadataSpec::PinningBit => 7,
            SideMetadataSpec::LogBit => 8,
            SideMetadataSpec::VoBit => 9,
        }
    }

    /// The number of bytes of memory that one cell of the table describes.
    pub fn region_bytes(self) -> (n: usize)
        ensures
            n == self.spec_region_bytes(),
    {
        match self {
            SideMetadataSpec::LineMark => 256,
            SideMetadataSpec::BlockMark => 32768,
            SideMetadataSpec::BlockDefragSource => 32768,
            SideMetadataSpec::BlockHoles => 32768,
            _ => 8,
        }
    }

    /// The number of cells that the table has for one chunk.
    pub fn cells_in_chunk(self) -> (n: usize)
        ensures
            n == self.spec_cells_in_chunk(),
            n * self.spec_region_bytes() == BYTES_IN_CHUNK,
    {
        match self {
            SideMetadataSpec::LineMark => 16384,
            SideMetadataSpec::BlockMark => 128,
            SideMetadataSpec::BlockDefragSource => 128,
            SideMetadataSpec::BlockHoles => 128,
            _ => 524288,
        }
    }
}

/// The mathematical content of the side metadata of a space: where the
/// space lies, and what each table holds.
#[verifier::ext_equal]
pub struct SideMetadataView {
    /// The address at which the space starts.
    pub start: usize,
    /// The number of chunks that the space spans.
    pub chunks: usize,
    /// The byte tables, by the ordinal of their name. A table that the
    /// space does not own is empty.
    pub tables: Seq<Seq<u8>>,
    /// The forwarding pointer of each object.
    pub pointers: Seq<usize>,
}

impl SideMetadataView {
    /// The address just past the space.
    pub open spec fn end(self) -> int {
        self.start + self.chunks * BYTES_IN_CHUNK
    }

    /// Whether `addr` lies in the space.
    pub open spec fn contains(self, addr: int) -> bool {
        self.start <= addr < self.end()
    }

    /// Whether the space owns the table `spec`.
    pub open spec fn has(self, spec: SideMetadataSpec) -> bool {
        self.tables[spec.spec_ordinal()].len() > 0
    }

    /// The index of the cell of table `spec` that describes `addr`.
    pub open spec fn index(self, spec: SideMetadataSpec, addr: int) -> int {
        (addr - self.start) / spec.spec_region_bytes()
    }

    /// The layout is sound: the space starts on a chunk boundary, ends
    /// within the address space, and every table is either absent or has
    /// one cell for each region.
    pub open spec fn wf(self) -> bool {
        &&& self.start > 0
        &&& self.start % BYTES_IN_CHUNK == 0
        &&& self.chunks > 0
        &&& self.end() <= usize::MAX
        &&& self.tables.len() == NUM_SIDE_METADATA_SPECS
        &&& forall|spec: SideMetadataSpec|
            self.tables[#[trigger] spec.spec_ordinal()].len() == 0 || self.tables[spec.spec_ordinal()].len()
                == self.chunks * spec.spec_cells_in_chunk()
        &&& (self.has(SideMetadataSpec::ForwardingPointer) ==> self.pointers.len() == self.chunks
            * 524288)
        &&& (!self.has(SideMetadataSpec::ForwardingPointer) ==> self.pointers.len() == 0)
    }

    /// The byte that table `spec` holds for `addr`.
    pub open spec fn load(self, spec: SideMetadataSpec, addr: int) -> u8 {
        self.tables[spec.spec_ordinal()][self.index(spec, addr)]
    }

    /// The content after `value` was written to table `spec` for `addr`.
    pub open spec fn store(self, spec: SideMetadataSpec, addr: int, value: u8) -> Self {
        SideMetadataView {
            tables: self.tables.update(
                spec.spec_ordinal(),
                self.tables[spec.spec_ordinal()].update(self.index(spec, addr), value),
            ),
            ..self
        }
    }

    /// The content after table `spec` was set to `value` for the `bytes`
    /// bytes of memory from `addr` on.
    pub open spec fn fill(self, spec: SideMetadataSpec, addr: int, bytes: int, value: u8) -> Self {
        SideMetadataView {
            tables: self.tables.update(
                spec.spec_ordinal(),
                filled(
                    self.tables[spec.spec_ordinal()],
                    self.index(spec, addr),
                    bytes / spec.spec_region_bytes(),
                    value,
                ),
            ),
            ..self
        }
    }

    /// The forwarding pointer held for the object at `addr`.
    pub open spec fn load_pointer(self, addr: int) -> usize {
        self.pointers[self.index(SideMetadataSpec::ForwardingPointer, addr)]
    }

    /// The content after `value` was written as the forwarding pointer of
    /// the object at `addr`.
    pub open spec fn store_pointer(self, addr: int, value: usize) -> Self {
        SideMetadataView {
            pointers: self.pointers.update(
                self.index(SideMetadataSpec::ForwardingPointer, addr),
                value,
            ),
            ..self
        }
    }
}

/// The side metadata of one space.
pub struct SideMetadataContext {
    start: usize,
    chunks: usize,
    tables: Vec<SideMetadata<u8>>,
    pointers: SideMetadata<usize>,
}

impl View for SideMetadataContext {
    type V = SideMetadataView;

    closed spec fn view(&self) -> SideMetadataView {
        SideMetadataView {
            start: self.start,
            chunks: self.chunks,
            tables: Seq::new(self.tables@.len(), |i: int| self.tables@[i]@),
            pointers: self.pointers@,
        }
    }
}

/// Whether `spec` occurs in `specs`.
pub open spec fn listed(specs: Seq<SideMetadataSpec>, spec: SideMetadataSpec) -> bool {
    exists|i: int| 0 <= i < specs.len() && specs[i] == spec
}

/// Nothing occurs in the empty list.
pub proof fn lemma_listed_empty()
    ensures
        forall|spec: SideMetadataSpec| !listed(Seq::<SideMetadataSpec>::empty(), spec),
{
}

/// What occurs in a list with one more entry is what occurred before, and
/// the new entry.
pub proof fn lemma_listed_push(specs: Seq<SideMetadataSpec>, added: SideMetadataSpec)
    ensures
        forall|spec: SideMetadataSpec|
            #[trigger] listed(specs.push(added), spec) == (listed(specs, spec) || spec == added),
{
    let longer = specs.push(added);
    assert forall|spec: SideMetadataSpec|
        #[trigger] listed(longer, spec) == (listed(specs, spec) || spec == added) by {
        if listed(specs, spec) {
            let i = choose|i: int| 0 <= i < specs.len() && specs[i] == spec;
            assert(longer[i] == spec);
        }
        if spec == added {
            assert(longer[specs.len() as int] == spec);
        }
        if listed(longer, spec) {
            let i = choose|i: int| 0 <= i < longer.len() && longer[i] == spec;
            if i < specs.len() {
                assert(specs[i] == spec);
            }
        }
    }
}

/// A multiple of the size of a block is a multiple of the size of the
/// regions of every table.
pub proof fn lemma_blocks_are_regions(spec: SideMetadataSpec, n: int)
    requires
        0 <= n <= usize::MAX,
        n % 32768 == 0,
    ensures
        (n as usize) % (spec.spec_region_bytes() as usize) == 0,
{
    match spec {
        SideMetadataSpec::LineMark => {
            assert(n % 256 == 0);
        },
        SideMetadataSpec::BlockMark | SideMetadataSpec::BlockDefragSource | SideMetadataSpec::BlockHoles => {},
        _ => {
            assert(n % 8 == 0);
        },
    }
}

/// The index of a cell lies in its table.
pub proof fn lemma_index_in_table(view: SideMetadataView, spec: SideMetadataSpec, addr: int)
    requires
        view.wf(),
        view.has(spec),
        view.contains(addr),
    ensures
        0 <= view.index(spec, addr) < view.tables[spec.spec_ordinal()].len(),
{
    assert(view.tables[spec.spec_ordinal()].len() == view.chunks * spec.spec_cells_in_chunk());
    let off = addr - view.start;
    assert(0 <= off < view.chunks * 4194304);
    match spec {
        SideMetadataSpec::LineMark => {
            assert(off / 256 < view.chunks * 16384);
        },
        SideMetadataSpec::BlockMark | SideMetadataSpec::BlockDefragSource | SideMetadataSpec::BlockHoles => {
            assert(off / 32768 < view.chunks * 128);
        },
        _ => {
            assert(off / 8 < view.chunks * 524288);
        },
    }
}

impl SideMetadataContext {
    /// The side metadata of a space of `chunks` chunks that starts at
    /// `start`, with the tables that `specs` lists. Every cell is zero.
    pub fn new(start: Address, chunks: usize, specs: &Vec<SideMetadataSpec>) -> (ctx: Self)
        requires
            start.0 > 0,
            start.0 % BYTES_IN_CHUNK == 0,
            chunks > 0,
            start.0 + chunks * BYTES_IN_CHUNK <= usize::MAX,
        ensures
            ctx@.wf(),
            ctx@.start == start.0,
            ctx@.chunks == chunks,
            forall|spec: SideMetadataSpec| ctx@.has(spec) == listed(specs@, spec),
            forall|t: int, i: int|
                0 <= t < ctx@.tables.len() && 0 <= i < ctx@.tables[t].len() ==> ctx@.tables[t][i] == 0,
            forall|i: int| 0 <= i < ctx@.pointers.len() ==> ctx@.pointers[i] == 0,
    {
        let all: [SideMetadataSpec; 10] = [
            SideMetadataSpec::LineMark,
            SideMetadataSpec::BlockMark,
            SideMetadataSpec::BlockDefragSource,
            SideMetadataSpec::BlockHoles,
            SideMetadataSpec::ObjectMark,
            SideMetadataSpec::ForwardingBits,
            SideMetadataSpec::ForwardingPointer,
            SideMetadataSpec::PinningBit,
            SideMetadataSpec::LogBit,
            SideMetadataSpec::VoBit,
        ];
        let mut tables: Vec<SideMetadata<u8>> = Vec::new();
        let mut pointers: SideMetadata<usize> = SideMetadata::new(0, 0);
        let mut t: usize = 0;
        while t < 10
            invariant
                t <= 10,
                chunks > 0,
                chunks * BYTES_IN_CHUNK <= usize::MAX,
                tables@.len() == t,
                forall|k: int| 0 <= k < 10 ==> (#[trigger] all@[k]).spec_ordinal() == k,
                forall|k: int|
                    0 <= k < t ==> (#[trigger] tables@[k])@.len() == (if listed(specs@, all@[k]) {
                        chunks * all@[k].spec_cells_in_chunk()
                    } else {
                        0
                    }),
                forall|k: int, i: int|
                    0 <= k < t && 0 <= i < tables@[k]@.len() ==> (#[trigger] tables@[k]@[i]) == 0,
                pointers@.len() == (if t > 6 && listed(specs@, SideMetadataSpec::ForwardingPointer) {
                    chunks * 524288
                } else {
                    0
                }),
                forall|i: int| 0 <= i < pointers@.len() ==> pointers@[i] == 0,
            decreases 10 - t,
        {
            let spec = all[t];
            let present = Self::is_listed(specs, spec);
            let cells: usize = spec.cells_in_chunk();
            assert(chunks * cells <= chunks * BYTES_IN_CHUNK) by (nonlinear_arith)
                requires
                    cells <= BYTES_IN_CHUNK,
            ;
            let len: usize = if present {
                chunks * cells
            } else {
                0
            };
            tables.push(SideMetadata::new(len, 0u8));
            if t == 6 && present {
                pointers = SideMetadata::new(len, 0usize);
            }
            t += 1;
        }
        let ctx = SideMetadataContext { start: start.0, chunks, tables, pointers };
        proof {
            assert forall|spec: SideMetadataSpec| ctx@.has(spec) == listed(specs@, spec) by {
                let k = spec.spec_ordinal();
                assert(all@[k] == spec);
                assert(ctx@.tables[k] == tables@[k]@);
                assert(chunks * spec.spec_cells_in_chunk() > 0) by (nonlinear_arith)
                    requires
                        chunks > 0,
                        spec.spec_cells_in_chunk() > 0,
                ;
            }
            assert forall|spec: SideMetadataSpec|
                ctx@.tables[#[trigger] spec.spec_ordinal()].len() == 0 || ctx@.tables[spec.spec_ordinal()].len()
                    == ctx@.chunks * spec.spec_cells_in_chunk() by {
                let k = spec.spec_ordinal();
                assert(all@[k] == spec);
                assert(ctx@.tables[k] == tables@[k]@);
            }
            assert(ctx@.tables[6] == tables@[6]@);
            assert(all@[6] == SideMetadataSpec::ForwardingPointer);
        }
        ctx
    }

    /// Whether `spec` occurs in `specs`.
    fn is_listed(specs: &Vec<SideMetadataSpec>, spec: SideMetadataSpec) -> (r: bool)
        ensures
            r == listed(specs@, spec),
    {
        let mut i: usize = 0;
        while i < specs.len()
            invariant
                i <= specs@.len(),
                forall|j: int| 0 <= j < i ==> specs@[j] != spec,
            decreases specs@.len() - i,
        {
            if specs[i] == spec {
                return true;
            }
            i += 1;
        }
        false
    }

    /// The address at which the space starts.
    pub fn start(&self) -> (a: Address)
        ensures
            a.0 == self@.start,
    {
        Address(self.start)
    }

    /// The number of chunks that the space spans.
    pub fn chunks(&self) -> (n: usize)
        ensures
            n == self@.chunks,
    {
        self.chunks
    }

    /// Whether `addr` lies in the space.
    pub fn contains(&self, addr: Address) -> (r: bool)
        requires
            self@.wf(),
        ensures
            r == self@.contains(addr.0 as int),
    {
        addr.0 >= self.start && addr.0 - self.start < self.chunks * BYTES_IN_CHUNK
    }

    /// Whether the space owns the table `spec`.
    pub fn has(&self, spec: SideMetadataSpec) -> (r: bool)
        requires
            self@.wf(),
        ensures
            r == self@.has(spec),
    {
        self.tables[spec.ordinal()].len() > 0
    }

    /// Reads the byte that table `spec` holds for `addr`.
    pub fn load(&self, spec: SideMetadataSpec, addr: Address) -> (value: u8)
        requires
            self@.wf(),
            self@.has(spec),
            self@.contains(addr.0 as int),
        ensures
            value == self@.load(spec, addr.0 as int),
    {
        proof {
            lemma_index_in_table(self@, spec, addr.0 as int);
        }
        let index: usize = (addr.0 - self.start) / spec.region_bytes();
        self.tables[spec.ordinal()].load(index)
    }

    /// Writes `value` to table `spec` for `addr`.
    pub fn store(&mut self, spec: SideMetadataSpec, addr: Address, value: u8)
        requires
            old(self)@.wf(),
            old(self)@.has(spec),
            old(self)@.contains(addr.0 as int),
        ensures
            final(self)@ == old(self)@.store(spec, addr.0 as int, value),
            final(self)@.wf(),
    {
        proof {
            lemma_index_in_table(self@, spec, addr.0 as int);
        }
        let index: usize = (addr.0 - self.start) / spec.region_bytes();
        self.tables[spec.ordinal()].store(index, value);
        proof {
            assert(self@.tables =~~= old(self)@.store(spec, addr.0 as int, value).tables);
        }
    }

    /// Writes `new` to table `spec` for `addr` if the table holds `current`
    /// there. Returns the byte held before, as `Ok` when the write took
    /// place and as `Err` when it did not.
    pub fn compare_exchange(
        &mut self,
        spec: SideMetadataSpec,
        addr: Address,
        current: u8,
        new: u8,
    ) -> (r: Result<u8, u8>)
        requires
            old(self)@.wf(),
            old(self)@.has(spec),
            old(self)@.contains(addr.0 as int),
        ensures
            final(self)@.wf(),
            old(self)@.load(spec, addr.0 as int) == current ==> r == Ok::<u8, u8>(current)
                && final(self)@ == old(self)@.store(spec, addr.0 as int, new),
            old(self)@.load(spec, addr.0 as int) != current ==> r == Err::<u8, u8>(
                old(self)@.load(spec, addr.0 as int),
            ) && final(self)@ == old(self)@,
    {
        proof {
            lemma_index_in_table(self@, spec, addr.0 as int);
        }
        let index: usize = (addr.0 - self.start) / spec.region_bytes();
        let r = self.tables[spec.ordinal()].compare_exchange(index, current, new);
        proof {
            if old(self)@.load(spec, addr.0 as int) == current {
                assert(self@.tables =~~= old(self)@.store(spec, addr.0 as int, new).tables);
            } else {
                assert(self@.tables =~~= old(self)@.tables);
            }
        }
        r
    }

    /// Sets table `spec` to `value` for the `bytes` bytes of memory from
    /// `start` on. Both `start` and `bytes` are multiples of the region size
    /// of the table.
    pub fn fill(&mut self, spec: SideMetadataSpec, start: Address, bytes: usize, value: u8)
        requires
            old(self)@.wf(),
            old(self)@.has(spec),
            old(self)@.start <= start.0,
            start.0 + bytes <= old(self)@.end(),
            start.0 % (spec.spec_region_bytes() as usize) == 0,
            bytes % (spec.spec_region_bytes() as usize) == 0,
        ensures
            final(self)@ == old(self)@.fill(spec, start.0 as int, bytes as int, value),
            final(self)@.wf(),
    {
        let region: usize = spec.region_bytes();
        let first: usize = (start.0 - self.start) / region;
        let count: usize = bytes / region;
        proof {
            let view = self@;
            assert(view.tables[spec.spec_ordinal()].len() == view.chunks * spec.spec_cells_in_chunk());
            let off = start.0 - view.start;
            assert(off + bytes <= view.chunks * 4194304);
            match spec {
                SideMetadataSpec::LineMark => {
                    assert(off / 256 + bytes / 256 <= view.chunks * 16384);
                },
                SideMetadataSpec::BlockMark | SideMetadataSpec::BlockDefragSource | SideMetadataSpec::BlockHoles => {
                    assert(off / 32768 + bytes / 32768 <= view.chunks * 128);
                },
                _ => {
                    assert(off / 8 + bytes / 8 <= view.chunks * 524288);
                },
            }
        }
        self.tables[spec.ordinal()].fill(first, count, value);
        proof {
            assert(self@.tables =~~= old(self)@.fill(spec, start.0 as int, bytes as int, value).tables);
        }
    }

    /// Resets table `spec` to zero for the `bytes` bytes of memory from
    /// `start` on.
    pub fn bzero_metadata(&mut self, spec: SideMetadataSpec, start: Address, bytes: usize)
        requires
            old(self)@.wf(),
            old(self)@.has(spec),
            old(self)@.start <= start.0,
            start.0 + bytes <= old(self)@.end(),
            start.0 % (spec.spec_region_bytes() as usize) == 0,
            bytes % (spec.spec_region_bytes() as usize) == 0,
        ensures
            final(self)@ == old(self)@.fill(spec, start.0 as int, bytes as int, 0),
            final(self)@.wf(),
    {
        self.fill(spec, start, bytes, 0);
    }

    /// Resets table `spec` to zero for the `bytes` bytes of memory from
    /// `start` on, which are whole blocks.
    pub fn bzero_blocks(&mut self, spec: SideMetadataSpec, start: Address, bytes: usize)
        requires
            old(self)@.wf(),
            old(self)@.has(spec),
            old(self)@.start <= start.0,
            start.0 + bytes <= old(self)@.end(),
            start.0 % 32768 == 0,
            bytes % 32768 == 0,
        ensures
            final(self)@ == old(self)@.fill(spec, start.0 as int, bytes as int, 0),
            final(self)@.wf(),
    {
        proof {
            lemma_blocks_are_regions(spec, start.0 as int);
            lemma_blocks_are_regions(spec, bytes as int);
        }
        self.fill(spec, start, bytes, 0);
    }

    /// Reads the forwarding pointer held for the object at `addr`.
    pub fn load_pointer(&self, addr: Address) -> (value: usize)
        requires
            self@.wf(),
            self@.has(SideMetadataSpec::ForwardingPointer),
            self@.contains(addr.0 as int),
        ensures
            value == self@.load_pointer(addr.0 as int),
    {
        proof {
            lemma_index_in_table(self@, SideMetadataSpec::ForwardingPointer, addr.0 as int);
        }
        let index: usize = (addr.0 - self.start) / 8;
        self.pointers.load(index)
    }

    /// Writes `value` as the forwarding pointer of the object at `addr`.
    pub fn store_pointer(&mut self, addr: Address, value: usize)
        requires
            old(self)@.wf(),
            old(self)@.has(SideMetadataSpec::ForwardingPointer),
            old(self)@.contains(addr.0 as int),
        ensures
            final(self)@ == old(self)@.store_pointer(addr.0 as int, value),
            final(self)@.wf(),
    {
        proof {
            lemma_index_in_table(self@, SideMetadataSpec::ForwardingPointer, addr.0 as int);
        }
        let index: usize = (addr.0 - self.start) / 8;
        self.pointers.store(index, value);
        proof {
            assert(self@.tables =~~= old(self)@.tables);
        }
    }
}

} // verus!

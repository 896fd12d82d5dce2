use vstd::prelude::*;
use crate::memory::{block_copy, copy_range, lemma_read_after_write, lemma_read_unchanged, read_u32_at, write_u32_at, GuestMemory};

verus! {

/// A fixed block is addressed directly; a movable one through a master
/// pointer cell that holds its current base address.
#[derive(Debug, Clone, Copy, PartialEq, Eq, Structural)]
pub enum BlockKind {
    Fixed,
    Movable,
}

/// One live allocation. `cell` is meaningful for movable blocks only.
#[derive(Debug, Clone, Copy, PartialEq, Eq, Structural)]
pub struct Block {
    pub kind: BlockKind,
    pub cell: u32,
    pub base: u32,
    pub size: u32,
}

/// A fault in the heap's own bookkeeping: the address names no live block.
#[derive(Debug, Clone, Copy, PartialEq, Eq, Structural)]
pub enum HeapFault {
    UnknownPointer { address: u32 },
    UnknownHandle { handle: u32 },
}

/// Bytes a block of `size` reserves: an empty block still takes one byte, so
/// that no two live blocks share an address.
pub open spec fn extent(size: u32) -> int {
    if size == 0 {
        1
    } else {
        size as int
    }
}

pub open spec fn disjoint(lo1: int, hi1: int, lo2: int, hi2: int) -> bool {
    hi1 <= lo2 || hi2 <= lo1
}

pub open spec fn data_end(b: Block) -> int {
    b.base + extent(b.size)
}

pub open spec fn cell_end(b: Block) -> int {
    b.cell + 4
}

/// Neither the data nor the cell of `b` meets `[lo, hi)`.
pub open spec fn clear_of(b: Block, lo: int, hi: int) -> bool {
    &&& disjoint(b.base as int, data_end(b), lo, hi)
    &&& b.kind == BlockKind::Movable ==> disjoint(b.cell as int, cell_end(b), lo, hi)
}

/// No range of `a` meets a range of `b`.
pub open spec fn separate(a: Block, b: Block) -> bool {
    &&& clear_of(b, a.base as int, data_end(a))
    &&& a.kind == BlockKind::Movable ==> clear_of(b, a.cell as int, cell_end(a))
}

pub open spec fn inside(start: int, end: int, b: Block) -> bool {
    &&& start <= b.base
    &&& data_end(b) <= end
    &&& b.kind == BlockKind::Movable ==> {
        &&& start <= b.cell
        &&& cell_end(b) <= end
        &&& disjoint(b.base as int, data_end(b), b.cell as int, cell_end(b))
    }
}

/// Each block lies in `[start, end)` and no two blocks overlap.
pub open spec fn blocks_wf(start: int, end: int, bs: Seq<Block>) -> bool {
    &&& forall|i: int| 0 <= i < bs.len() ==> inside(start, end, #[trigger] bs[i])
    &&& forall|i: int, j: int|
        #![trigger bs[i], bs[j]]
        0 <= i < bs.len() && 0 <= j < bs.len() && i != j ==> separate(bs[i], bs[j])
}

/// A block `b` may join `bs` without overlapping any of them.
pub open spec fn fits_among(start: int, end: int, bs: Seq<Block>, b: Block) -> bool {
    &&& inside(start, end, b)
    &&& forall|i: int|
        0 <= i < bs.len() ==> {
            &&& clear_of(#[trigger] bs[i], b.base as int, data_end(b))
            &&& b.kind == BlockKind::Movable ==> clear_of(bs[i], b.cell as int, cell_end(b))
        }
}

pub proof fn lemma_push_wf(start: int, end: int, bs: Seq<Block>, b: Block)
    requires
        blocks_wf(start, end, bs),
        fits_among(start, end, bs, b),
    ensures
        blocks_wf(start, end, bs.push(b)),
{
    let nb = bs.push(b);
    assert forall|i: int, j: int|
        #![trigger nb[i], nb[j]]
        0 <= i < nb.len() && 0 <= j < nb.len() && i != j implies separate(nb[i], nb[j]) by {
        if i < bs.len() && j < bs.len() {
            assert(separate(bs[i], bs[j]));
        } else if i < bs.len() {
            assert(clear_of(bs[i], b.base as int, data_end(b)));
        } else {
            assert(clear_of(bs[j], b.base as int, data_end(b)));
        }
    }
}

pub proof fn lemma_remove_wf(start: int, end: int, bs: Seq<Block>, k: int)
    requires
        blocks_wf(start, end, bs),
        0 <= k < bs.len(),
    ensures
        blocks_wf(start, end, bs.remove(k)),
{
    let nb = bs.remove(k);
    assert forall|i: int| 0 <= i < nb.len() implies inside(start, end, #[trigger] nb[i]) by {
        if i < k {
            assert(nb[i] == bs[i]);
        } else {
            assert(nb[i] == bs[i + 1]);
        }
    }
    assert forall|i: int, j: int|
        #![trigger nb[i], nb[j]]
        0 <= i < nb.len() && 0 <= j < nb.len() && i != j implies separate(nb[i], nb[j]) by {
        let i2 = if i < k { i } else { i + 1 };
        let j2 = if j < k { j } else { j + 1 };
        assert(nb[i] == bs[i2]);
        assert(nb[j] == bs[j2]);
        assert(separate(bs[i2], bs[j2]));
    }
}

pub proof fn lemma_update_wf(start: int, end: int, bs: Seq<Block>, k: int, b: Block)
    requires
        blocks_wf(start, end, bs),
        0 <= k < bs.len(),
        fits_among(start, end, bs.remove(k), b),
    ensures
        blocks_wf(start, end, bs.update(k, b)),
{
    let nb = bs.update(k, b);
    let rest = bs.remove(k);
    assert forall|i: int| 0 <= i < bs.len() && i != k implies {
        &&& clear_of(#[trigger] bs[i], b.base as int, data_end(b))
        &&& b.kind == BlockKind::Movable ==> clear_of(bs[i], b.cell as int, cell_end(b))
    } by {
        let i2 = if i < k { i } else { i - 1 };
        assert(rest[i2] == bs[i]);
    }
    assert forall|i: int, j: int|
        #![trigger nb[i], nb[j]]
        0 <= i < nb.len() && 0 <= j < nb.len() && i != j implies separate(nb[i], nb[j]) by {
        if i != k && j != k {
            assert(separate(bs[i], bs[j]));
        } else if i != k {
            assert(clear_of(bs[i], b.base as int, data_end(b)));
        } else {
            assert(clear_of(bs[j], b.base as int, data_end(b)));
        }
    }
}

/// `[lo, hi)` is a non-empty part of `[start, end)` that no block of `bs` touches.
pub open spec fn free_in(start: int, end: int, bs: Seq<Block>, lo: int, hi: int) -> bool {
    &&& start <= lo < hi <= end
    &&& forall|i: int| 0 <= i < bs.len() ==> clear_of(#[trigger] bs[i], lo, hi)
}

/// `c` is `start` or the end of a range that a block of `bs` uses.
pub open spec fn candidate_in(start: int, bs: Seq<Block>, c: int) -> bool {
    ||| c == start
    ||| exists|k: int|
        0 <= k < bs.len() && (c == data_end(#[trigger] bs[k]) || (bs[k].kind == BlockKind::Movable
            && c == cell_end(bs[k])))
}

/// The fixed block of `size` bytes at `d` that stands for a handle's data
/// while a place for its cell is sought.
pub open spec fn data_block(d: u32, size: u32) -> Block {
    Block { kind: BlockKind::Fixed, cell: 0, base: d, size }
}

/// With the data of a handle of `size` bytes at `d`, either that data or
/// its cell has no place among `bs`.
pub open spec fn no_cell_beside(start: int, end: int, bs: Seq<Block>, d: u32, size: u32) -> bool {
    !free_in(start, end, bs, d as int, d + extent(size)) || forall|x: int|
        !#[trigger] free_in(start, end, bs.push(data_block(d, size)), x, x + 4)
}

/// If a range of length `len` is free among `bs`, a free one starts at a
/// candidate.
proof fn lemma_slide(start: int, end: int, bs: Seq<Block>, c: int, a: int, len: int)
    requires
        forall|i: int| 0 <= i < bs.len() ==> inside(start, end, #[trigger] bs[i]),
        len > 0,
        candidate_in(start, bs, c),
        c <= a,
        free_in(start, end, bs, a, a + len),
    ensures
        exists|c2: int| candidate_in(start, bs, c2) && free_in(start, end, bs, c2, c2 + len),
    decreases a - c,
{
    if free_in(start, end, bs, c, c + len) {
        return;
    }
    assert(start <= c) by {
        if c != start {
            let k = choose|k: int|
                0 <= k < bs.len() && (c == data_end(#[trigger] bs[k]) || (bs[k].kind
                    == BlockKind::Movable && c == cell_end(bs[k])));
            assert(inside(start, end, bs[k]));
        }
    }
    let i = choose|i: int| 0 <= i < bs.len() && !clear_of(#[trigger] bs[i], c, c + len);
    let b = bs[i];
    assert(clear_of(b, a, a + len));
    assert(inside(start, end, b));
    if !disjoint(b.base as int, data_end(b), c, c + len) {
        lemma_slide(start, end, bs, data_end(b), a, len);
    } else {
        lemma_slide(start, end, bs, cell_end(b), a, len);
    }
}

/// Where no single range holds a handle's cell and data, any fitting pair
/// has its data at a candidate among `bs`.
proof fn lemma_split_place(start: int, end: int, bs: Seq<Block>, c: int, d: int, size: u32)
    requires
        0 <= start,
        end <= u32::MAX,
        blocks_wf(start, end, bs),
        free_in(start, end, bs, c, c + 4),
        free_in(start, end, bs, d, d + extent(size)),
        disjoint(c, c + 4, d, d + extent(size)),
        forall|a: int| !#[trigger] free_in(start, end, bs, a, a + (4 + extent(size))),
    ensures
        exists|d2: int|
            #![trigger free_in(start, end, bs, d2, d2 + extent(size))]
            {
                &&& candidate_in(start, bs, d2)
                &&& free_in(start, end, bs, d2, d2 + extent(size))
                &&& !no_cell_beside(start, end, bs, d2 as u32, size)
            },
{
    let n = bs.len() as int;
    assert(c as u32 == c);
    let cb = data_block(c as u32, 4);
    let bsc = bs.push(cb);
    let ext = extent(size);
    assert forall|i: int| 0 <= i < bsc.len() implies inside(start, end, #[trigger] bsc[i]) by {
        if i < n {
            assert(bsc[i] == bs[i]);
        }
    }
    assert forall|i: int| 0 <= i < bsc.len() implies clear_of(#[trigger] bsc[i], d, d + ext) by {
        if i < n {
            assert(bsc[i] == bs[i]);
        }
    }
    lemma_slide(start, end, bsc, start, d, ext);
    let d2 = choose|d2: int|
        candidate_in(start, bsc, d2) && free_in(start, end, bsc, d2, d2 + ext);
    assert forall|i: int| 0 <= i < n implies clear_of(#[trigger] bs[i], d2, d2 + ext) by {
        assert(bsc[i] == bs[i]);
    }
    assert(clear_of(bsc[n], d2, d2 + ext));
    assert(free_in(start, end, bs, d2, d2 + ext));
    if d2 == c + 4 {
        assert forall|i: int| 0 <= i < n implies clear_of(#[trigger] bs[i], c, c + (4 + ext)) by {
            assert(clear_of(bs[i], c, c + 4));
            assert(clear_of(bs[i], d2, d2 + ext));
            assert(inside(start, end, bs[i]));
        }
        assert(free_in(start, end, bs, c, c + (4 + ext)));
        assert(false);
    }
    assert(candidate_in(start, bs, d2)) by {
        if d2 != start {
            let k = choose|k: int|
                0 <= k < bsc.len() && (d2 == data_end(#[trigger] bsc[k]) || (bsc[k].kind
                    == BlockKind::Movable && d2 == cell_end(bsc[k])));
            assert(k != n);
            assert(bsc[k] == bs[k]);
        }
    }
    assert(d2 as u32 == d2);
    let bsd = bs.push(data_block(d2 as u32, size));
    assert forall|i: int| 0 <= i < bsd.len() implies clear_of(#[trigger] bsd[i], c, c + 4) by {
        if i < n {
            assert(bsd[i] == bs[i]);
        }
    }
    assert(free_in(start, end, bsd, c, c + 4));
}

/// How many bytes survive a resize from `old_size` to `new_size`.
pub open spec fn kept(old_size: u32, new_size: u32) -> int {
    if old_size <= new_size {
        old_size as int
    } else {
        new_size as int
    }
}

/// The live blocks in the guest range `[start, end)`.
pub struct Heap {
    start: u32,
    end: u32,
    blocks: Vec<Block>,
}

fn extent_of(size: u32) -> (r: u64)
    ensures
        r == extent(size),
{
    if size == 0 {
        1
    } else {
        size as u64
    }
}

impl Heap {
    pub closed spec fn start(&self) -> int {
        self.start as int
    }

    pub closed spec fn end(&self) -> int {
        self.end as int
    }

    pub closed spec fn blocks(&self) -> Seq<Block> {
        self.blocks@
    }

    /// Every block lies in the heap's range and no two live blocks overlap.
    pub open spec fn wf(&self) -> bool {
        &&& 0 < self.start() <= self.end() <= u32::MAX
        &&& blocks_wf(self.start(), self.end(), self.blocks())
    }

    /// `[lo, hi)` is a non-empty range of the heap that no live block touches.
    pub open spec fn free(&self, lo: int, hi: int) -> bool {
        free_in(self.start(), self.end(), self.blocks(), lo, hi)
    }

    /// `[lo, hi)` is free but for block `j`'s own data, which it may overlap.
    pub open spec fn free_except(&self, j: int, lo: int, hi: int) -> bool {
        &&& self.start() <= lo < hi <= self.end()
        &&& forall|i: int|
            0 <= i < self.blocks().len() && i != j ==> clear_of(#[trigger] self.blocks()[i], lo, hi)
        &&& self.blocks()[j].kind == BlockKind::Movable ==> disjoint(
            self.blocks()[j].cell as int,
            cell_end(self.blocks()[j]),
            lo,
            hi,
        )
    }

    pub fn new(start: u32, end: u32) -> (r: Heap)
        requires
            0 < start <= end,
        ensures
            r.wf(),
            r.start() == start,
            r.end() == end,
            r.blocks() == Seq::<Block>::empty(),
    {
        Heap { start, end, blocks: Vec::new() }
    }

    fn clear_of_exec(b: &Block, lo: u64, hi: u64) -> (r: bool)
        ensures
            r == clear_of(*b, lo as int, hi as int),
    {
        let data_hi = b.base as u64 + extent_of(b.size);
        let data_ok = data_hi <= lo || hi <= b.base as u64;
        match b.kind {
            BlockKind::Fixed => data_ok,
            BlockKind::Movable => data_ok && (b.cell as u64 + 4 <= lo || hi <= b.cell as u64),
        }
    }

    /// Whether `[lo, hi)` is free.
    fn is_free(&self, lo: u64, hi: u64) -> (r: bool)
        requires
            self.wf(),
        ensures
            r == self.free(lo as int, hi as int),
    {
        if lo < self.start as u64 || hi <= lo || hi > self.end as u64 {
            return false;
        }
        let mut i: usize = 0;
        while i < self.blocks.len()
            invariant
                i <= self.blocks@.len(),
                forall|k: int| 0 <= k < i ==> clear_of(#[trigger] self.blocks()[k], lo as int, hi as int),
            decreases self.blocks@.len() - i,
        {
            if !Self::clear_of_exec(&self.blocks[i], lo, hi) {
                assert(!clear_of(self.blocks()[i as int], lo as int, hi as int));
                return false;
            }
            i = i + 1;
        }
        true
    }

    /// Whether `[lo, hi)` is free but for block `j`'s data.
    fn is_free_except(&self, j: usize, lo: u64, hi: u64) -> (r: bool)
        requires
            self.wf(),
            j < self.blocks().len(),
        ensures
            r == self.free_except(j as int, lo as int, hi as int),
    {
        if lo < self.start as u64 || hi <= lo || hi > self.end as u64 {
            return false;
        }
        let own = self.blocks[j];
        if own.kind == BlockKind::Movable && !(own.cell as u64 + 4 <= lo || hi <= own.cell as u64) {
            return false;
        }
        let mut i: usize = 0;
        while i < self.blocks.len()
            invariant
                i <= self.blocks@.len(),
                forall|k: int|
                    0 <= k < i && k != j ==> clear_of(#[trigger] self.blocks()[k], lo as int, hi as int),
            decreases self.blocks@.len() - i,
        {
            if i != j && !Self::clear_of_exec(&self.blocks[i], lo, hi) {
                return false;
            }
            i = i + 1;
        }
        true
    }

    /// The start of a free range of length `len`, if there is one anywhere.
    fn find_free(&self, len: u64) -> (r: Option<u32>)
        requires
            self.wf(),
            0 < len,
        ensures
            r matches Some(a) ==> self.free(a as int, a + len),
            r is None ==> forall|a: int| !#[trigger] self.free(a, a + len),
    {
        let start = self.start;
        if len > (self.end - self.start) as u64 {
            return None;
        }
        if len <= u32::MAX as u64 && self.is_free(start as u64, start as u64 + len) {
            return Some(start);
        }
        let mut i: usize = 0;
        while i < self.blocks.len()
            invariant
                self.wf(),
                0 < len <= u32::MAX,
                i <= self.blocks@.len(),
                !self.free(self.start(), self.start() + len),
                forall|k: int|
                    0 <= k < i ==> {
                        &&& !self.free(data_end(#[trigger] self.blocks()[k]), data_end(self.blocks()[k]) + len)
                        &&& self.blocks()[k].kind == BlockKind::Movable ==> !self.free(
                            cell_end(self.blocks()[k]),
                            cell_end(self.blocks()[k]) + len,
                        )
                    },
            decreases self.blocks@.len() - i,
        {
            let b = self.blocks[i];
            proof {
                assert(inside(self.start(), self.end(), self.blocks()[i as int]));
            }
            let data_hi = b.base as u64 + extent_of(b.size);
            if self.is_free(data_hi, data_hi + len) {
                return Some(data_hi as u32);
            }
            if b.kind == BlockKind::Movable {
                let cell_hi = b.cell as u64 + 4;
                if self.is_free(cell_hi, cell_hi + len) {
                    return Some(cell_hi as u32);
                }
            }
            i = i + 1;
        }
        proof {
            assert forall|a: int| !#[trigger] self.free(a, a + len) by {
                if self.free(a, a + len) {
                    lemma_slide(self.start(), self.end(), self.blocks(), self.start(), a, len as int);
                    let c = choose|c: int|
                        candidate_in(self.start(), self.blocks(), c) && free_in(
                            self.start(),
                            self.end(),
                            self.blocks(),
                            c,
                            c + len,
                        );
                    if c != self.start() {
                        let k = choose|k: int|
                            0 <= k < self.blocks().len() && (c == data_end(
                                #[trigger] self.blocks()[k],
                            ) || (self.blocks()[k].kind == BlockKind::Movable && c == cell_end(
                                self.blocks()[k],
                            )));
                        assert(!self.free(data_end(self.blocks()[k]), data_end(self.blocks()[k]) + len));
                    }
                }
            }
        }
        None
    }

    /// Block `i` is the fixed block at pointer `p`.
    pub open spec fn ptr_at(&self, i: int, p: u32) -> bool {
        &&& 0 <= i < self.blocks().len()
        &&& self.blocks()[i].kind == BlockKind::Fixed
        &&& self.blocks()[i].base == p
    }

    pub open spec fn has_ptr(&self, p: u32) -> bool {
        exists|i: int| self.ptr_at(i, p)
    }

    /// Block `i` is the movable block whose master pointer cell is at `h`.
    pub open spec fn handle_at(&self, i: int, h: u32) -> bool {
        &&& 0 <= i < self.blocks().len()
        &&& self.blocks()[i].kind == BlockKind::Movable
        &&& self.blocks()[i].cell == h
    }

    pub open spec fn has_handle(&self, h: u32) -> bool {
        exists|i: int| self.handle_at(i, h)
    }

    /// Every master pointer cell in `mem` holds its block's base address.
    pub open spec fn synced(&self, mem: Seq<u8>) -> bool {
        forall|i: int|
            0 <= i < self.blocks().len() && (#[trigger] self.blocks()[i]).kind == BlockKind::Movable
                ==> read_u32_at(mem, self.blocks()[i].cell as int) == self.blocks()[i].base
    }

    /// No two live blocks answer to the same pointer.
    pub proof fn lemma_ptr_unique(&self, i: int, j: int, p: u32)
        requires
            self.wf(),
            self.ptr_at(i, p),
            self.ptr_at(j, p),
        ensures
            i == j,
    {
        if i != j {
            assert(separate(self.blocks()[i], self.blocks()[j]));
        }
    }

    /// No two live blocks answer to the same handle.
    pub proof fn lemma_handle_unique(&self, i: int, j: int, h: u32)
        requires
            self.wf(),
            self.handle_at(i, h),
            self.handle_at(j, h),
        ensures
            i == j,
    {
        if i != j {
            assert(separate(self.blocks()[i], self.blocks()[j]));
        }
    }

    /// A block can always shrink where it stands.
    proof fn lemma_shrink_in_place(&self, i: int, new_size: u32)
        requires
            self.wf(),
            0 <= i < self.blocks().len(),
            new_size <= self.blocks()[i].size,
        ensures
            self.free_except(
                i,
                self.blocks()[i].base as int,
                self.blocks()[i].base + extent(new_size),
            ),
    {
        let b = self.blocks()[i];
        assert(inside(self.start(), self.end(), b));
        assert forall|k: int| 0 <= k < self.blocks().len() && k != i implies clear_of(
            #[trigger] self.blocks()[k],
            b.base as int,
            b.base + extent(new_size),
        ) by {
            assert(separate(b, self.blocks()[k]));
        }
    }

    fn find_ptr(&self, p: u32) -> (r: Option<usize>)
        requires
            self.wf(),
        ensures
            r matches Some(i) ==> self.ptr_at(i as int, p),
            r is None ==> !self.has_ptr(p),
    {
        let mut i: usize = 0;
        while i < self.blocks.len()
            invariant
                i <= self.blocks@.len(),
                forall|k: int| 0 <= k < i ==> !self.ptr_at(k, p),
            decreases self.blocks@.len() - i,
        {
            if self.blocks[i].kind == BlockKind::Fixed && self.blocks[i].base == p {
                return Some(i);
            }
            i = i + 1;
        }
        None
    }

    fn find_handle(&self, h: u32) -> (r: Option<usize>)
        requires
            self.wf(),
        ensures
            r matches Some(i) ==> self.handle_at(i as int, h),
            r is None ==> !self.has_handle(h),
    {
        let mut i: usize = 0;
        while i < self.blocks.len()
            invariant
                i <= self.blocks@.len(),
                forall|k: int| 0 <= k < i ==> !self.handle_at(k, h),
            decreases self.blocks@.len() - i,
        {
            if self.blocks[i].kind == BlockKind::Movable && self.blocks[i].cell == h {
                return Some(i);
            }
            i = i + 1;
        }
        None
    }

    /// Reserves a fixed block of `size` bytes and returns its address, or zero
    /// when no free range can hold it.
    pub fn new_ptr(&mut self, size: u32) -> (r: u32)
        requires
            old(self).wf(),
        ensures
            final(self).wf(),
            final(self).start() == old(self).start(),
            final(self).end() == old(self).end(),
            r != 0 <==> exists|a: int| #[trigger] old(self).free(a, a + extent(size)),
            r != 0 ==> old(self).free(r as int, r + extent(size)),
            r != 0 ==> final(self).blocks() == old(self).blocks().push(
                (Block { kind: BlockKind::Fixed, cell: 0, base: r, size }),
            ),
            r == 0 ==> final(self).blocks() == old(self).blocks(),
            forall|m: Seq<u8>| #[trigger] old(self).synced(m) ==> final(self).synced(m),
    {
        match self.find_free(extent_of(size)) {
            Some(a) => {
                let b = Block { kind: BlockKind::Fixed, cell: 0, base: a, size };
                proof {
                    assert(fits_among(self.start(), self.end(), self.blocks(), b));
                    lemma_push_wf(self.start(), self.end(), self.blocks(), b);
                }
                self.blocks.push(b);
                a
            },
            None => 0,
        }
    }

    /// Releases the fixed block at `p`.
    pub fn dispose_ptr(&mut self, p: u32) -> (r: Result<(), HeapFault>)
        requires
            old(self).wf(),
        ensures
            final(self).wf(),
            final(self).start() == old(self).start(),
            final(self).end() == old(self).end(),
            r is Ok <==> old(self).has_ptr(p),
            r is Err ==> r == Err::<(), HeapFault>(HeapFault::UnknownPointer { address: p })
                && final(self).blocks() == old(self).blocks(),
            r is Ok ==> exists|i: int|
                old(self).ptr_at(i, p) && final(self).blocks() == old(self).blocks().remove(i),
            !final(self).has_ptr(p),
            forall|m: Seq<u8>| #[trigger] old(self).synced(m) ==> final(self).synced(m),
    {
        match self.find_ptr(p) {
            Some(i) => {
                let ghost before = self.blocks();
                proof {
                    lemma_remove_wf(self.start(), self.end(), self.blocks(), i as int);
                }
                self.blocks.remove(i);
                proof {
                    assert(old(self).ptr_at(i as int, p));
                    assert forall|j: int| !self.ptr_at(j, p) by {
                        if self.ptr_at(j, p) {
                            let j2 = if j < i { j } else { j + 1 };
                            assert(before[j2] == self.blocks()[j]);
                            old(self).lemma_ptr_unique(i as int, j2, p);
                        }
                    }
                    assert forall|m: Seq<u8>| #[trigger] old(self).synced(m) implies self.synced(m) by {
                        assert forall|j: int|
                            0 <= j < self.blocks().len() && (#[trigger] self.blocks()[j]).kind
                                == BlockKind::Movable implies read_u32_at(
                            m,
                            self.blocks()[j].cell as int,
                        ) == self.blocks()[j].base by {
                            let j2 = if j < i { j } else { j + 1 };
                            assert(before[j2] == self.blocks()[j]);
                        }
                    }
                }
                Ok(())
            },
            None => Err(HeapFault::UnknownPointer { address: p }),
        }
    }

    /// The size of the fixed block at `p`.
    pub fn get_ptr_size(&self, p: u32) -> (r: Result<u32, HeapFault>)
        requires
            self.wf(),
        ensures
            !self.has_ptr(p) ==> r == Err::<u32, HeapFault>(HeapFault::UnknownPointer { address: p }),
            forall|i: int| self.ptr_at(i, p) ==> r == Ok::<u32, HeapFault>(self.blocks()[i].size),
    {
        match self.find_ptr(p) {
            Some(i) => {
                proof {
                    assert forall|j: int| self.ptr_at(j, p) implies j == i by {
                        self.lemma_ptr_unique(i as int, j, p);
                    }
                }
                Ok(self.blocks[i].size)
            },
            None => Err(HeapFault::UnknownPointer { address: p }),
        }
    }

    /// Resizes the fixed block at `p` without moving it. Answers `false`, and
    /// changes nothing, when the block cannot grow where it stands.
    pub fn set_ptr_size(&mut self, p: u32, new_size: u32) -> (r: Result<bool, HeapFault>)
        requires
            old(self).wf(),
        ensures
            final(self).wf(),
            final(self).start() == old(self).start(),
            final(self).end() == old(self).end(),
            !old(self).has_ptr(p) ==> r == Err::<bool, HeapFault>(
                HeapFault::UnknownPointer { address: p },
            ) && final(self).blocks() == old(self).blocks(),
            forall|i: int|
                old(self).ptr_at(i, p) ==> {
                    let b = old(self).blocks()[i];
                    &&& r == Ok::<bool, HeapFault>(
                        old(self).free_except(i, b.base as int, b.base + extent(new_size)),
                    )
                    &&& r == Ok::<bool, HeapFault>(true) ==> final(self).blocks() == old(self).blocks().update(
                        i,
                        (Block { kind: b.kind, cell: b.cell, base: b.base, size: new_size }),
                    )
                    &&& r == Ok::<bool, HeapFault>(false) ==> final(self).blocks() == old(self).blocks()
                    &&& new_size <= b.size ==> r == Ok::<bool, HeapFault>(true)
                },
            forall|m: Seq<u8>| #[trigger] old(self).synced(m) ==> final(self).synced(m),
    {
        match self.find_ptr(p) {
            Some(i) => {
                let b = self.blocks[i];
                proof {
                    assert forall|j: int| self.ptr_at(j, p) implies j == i by {
                        self.lemma_ptr_unique(i as int, j, p);
                    }
                    if new_size <= b.size {
                        self.lemma_shrink_in_place(i as int, new_size);
                    }
                    assert(inside(self.start(), self.end(), b));
                }
                if self.is_free_except(i, b.base as u64, b.base as u64 + extent_of(new_size)) {
                    let nb = Block { kind: b.kind, cell: b.cell, base: b.base, size: new_size };
                    proof {
                        let rest = self.blocks().remove(i as int);
                        assert forall|k: int| 0 <= k < rest.len() implies clear_of(
                            #[trigger] rest[k],
                            nb.base as int,
                            data_end(nb),
                        ) by {
                            let k2 = if k < i { k } else { k + 1 };
                            assert(rest[k] == self.blocks()[k2]);
                        }
                        lemma_update_wf(self.start(), self.end(), self.blocks(), i as int, nb);
                    }
                    self.blocks.set(i, nb);
                    Ok(true)
                } else {
                    Ok(false)
                }
            },
            None => Err(HeapFault::UnknownPointer { address: p }),
        }
    }

    /// A cell at `c` and data at `d` for a handle of `size` bytes are both
    /// free and do not overlap.
    pub open spec fn handle_fits(&self, c: int, d: int, size: u32) -> bool {
        &&& self.free(c, c + 4)
        &&& self.free(d, d + extent(size))
        &&& disjoint(c, c + 4, d, d + extent(size))
    }

    /// With the data of a handle placed at `d`, a free place for its cell.
    fn cell_beside(&mut self, d: u32, size: u32) -> (r: Option<u32>)
        requires
            old(self).wf(),
        ensures
            final(self).wf(),
            final(self).start() == old(self).start(),
            final(self).end() == old(self).end(),
            final(self).blocks() == old(self).blocks(),
            r matches Some(c) ==> old(self).handle_fits(c as int, d as int, size),
            r is None ==> no_cell_beside(old(self).start(), old(self).end(), old(self).blocks(), d, size),
    {
        if !self.is_free(d as u64, d as u64 + extent_of(size)) {
            return None;
        }
        let ghost before = self.blocks();
        let db = Block { kind: BlockKind::Fixed, cell: 0, base: d, size };
        proof {
            assert(fits_among(self.start(), self.end(), self.blocks(), db));
            lemma_push_wf(self.start(), self.end(), self.blocks(), db);
        }
        self.blocks.push(db);
        let found = self.find_free(4);
        let ghost pushed = self.blocks();
        proof {
            if found is None {
                assert forall|x: int|
                    !#[trigger] free_in(self.start(), self.end(), pushed, x, x + 4) by {
                    assert(!self.free(x, x + 4));
                }
            }
        }
        self.blocks.pop();
        proof {
            assert(self.blocks() =~= before);
            assert(pushed == before.push(db));
            assert(db == data_block(d, size));
            if let Some(c) = found {
                assert(clear_of(pushed[before.len() as int], c as int, c + 4));
                assert forall|i: int| 0 <= i < before.len() implies clear_of(
                    #[trigger] before[i],
                    c as int,
                    c + 4,
                ) by {
                    assert(pushed[i] == before[i]);
                }
            }
        }
        found
    }

    /// Places for the cell and the data of a new handle of `size` bytes, if
    /// the heap has any. The cell goes just below the data where one free
    /// range holds both.
    fn find_handle_place(&mut self, size: u32) -> (r: Option<(u32, u32)>)
        requires
            old(self).wf(),
        ensures
            final(self).wf(),
            final(self).start() == old(self).start(),
            final(self).end() == old(self).end(),
            final(self).blocks() == old(self).blocks(),
            r matches Some((c, d)) ==> old(self).handle_fits(c as int, d as int, size),
            r is None ==> forall|c: int, d: int| !#[trigger] old(self).handle_fits(c, d, size),
    {
        let ext = extent_of(size);
        if let Some(a) = self.find_free(4 + ext) {
            proof {
                assert forall|i: int| 0 <= i < self.blocks().len() implies {
                    &&& clear_of(#[trigger] self.blocks()[i], a as int, a + 4)
                    &&& clear_of(self.blocks()[i], a + 4, a + 4 + extent(size))
                } by {
                    assert(clear_of(self.blocks()[i], a as int, a + (4 + extent(size))));
                }
            }
            return Some((a, a + 4));
        }
        let ghost orig = self.blocks();
        let ghost lo = self.start();
        let ghost hi = self.end();
        proof {
            assert forall|a: int| !#[trigger] free_in(lo, hi, orig, a, a + (4 + extent(size))) by {
                assert(!self.free(a, a + (4 + ext)));
            }
        }
        let start = self.start;
        if let Some(c) = self.cell_beside(start, size) {
            return Some((c, start));
        }
        let mut i: usize = 0;
        while i < self.blocks.len()
            invariant
                self.wf(),
                self.blocks() == orig,
                orig == old(self).blocks(),
                self.start() == old(self).start(),
                self.end() == old(self).end(),
                i <= orig.len(),
                lo == old(self).start(),
                hi == old(self).end(),
                forall|a: int| !#[trigger] free_in(lo, hi, orig, a, a + (4 + extent(size))),
                no_cell_beside(lo, hi, orig, lo as u32, size),
                forall|k: int|
                    0 <= k < i ==> {
                        &&& no_cell_beside(lo, hi, orig, data_end(#[trigger] orig[k]) as u32, size)
                        &&& orig[k].kind == BlockKind::Movable ==> no_cell_beside(
                            lo,
                            hi,
                            orig,
                            cell_end(orig[k]) as u32,
                            size,
                        )
                    },
            decreases orig.len() - i,
        {
            let b = self.blocks[i];
            proof {
                assert(inside(self.start(), self.end(), orig[i as int]));
            }
            let data_hi = (b.base as u64 + extent_of(b.size)) as u32;
            if let Some(c) = self.cell_beside(data_hi, size) {
                return Some((c, data_hi));
            }
            if b.kind == BlockKind::Movable {
                let cell_hi = b.cell + 4;
                if let Some(c) = self.cell_beside(cell_hi, size) {
                    return Some((c, cell_hi));
                }
            }
            i = i + 1;
        }
        proof {
            assert forall|c: int, d: int| !#[trigger] old(self).handle_fits(c, d, size) by {
                if old(self).handle_fits(c, d, size) {
                    lemma_split_place(lo, hi, orig, c, d, size);
                    let d2 = choose|d2: int|
                        #![trigger free_in(lo, hi, orig, d2, d2 + extent(size))]
                        {
                            &&& candidate_in(lo, orig, d2)
                            &&& free_in(lo, hi, orig, d2, d2 + extent(size))
                            &&& !no_cell_beside(lo, hi, orig, d2 as u32, size)
                        };
                    if d2 != lo {
                        let k = choose|k: int|
                            0 <= k < orig.len() && (d2 == data_end(#[trigger] orig[k]) || (
                            orig[k].kind == BlockKind::Movable && d2 == cell_end(orig[k])));
                        assert(no_cell_beside(lo, hi, orig, data_end(orig[k]) as u32, size));
                    }
                }
            }
        }
        None
    }

    /// Reserves a movable block of `size` bytes and its master pointer cell,
    /// stores the block's address in the cell, and returns the cell's address
    /// (the handle), or zero when the heap has no place for them. The cell
    /// goes just below the data where one free range holds both.
    pub fn new_handle(&mut self, mem: &mut GuestMemory, size: u32) -> (r: u32)
        requires
            old(self).wf(),
            old(mem).wf(),
            old(self).end() <= old(mem)@.len(),
        ensures
            final(self).wf(),
            final(mem).wf(),
            final(self).start() == old(self).start(),
            final(self).end() == old(self).end(),
            r != 0 <==> exists|c: int, d: int| #[trigger] old(self).handle_fits(c, d, size),
            r != 0 ==> exists|d: u32|
                #![trigger old(self).handle_fits(r as int, d as int, size)]
                {
                    &&& old(self).handle_fits(r as int, d as int, size)
                    &&& final(self).blocks() == old(self).blocks().push(
                        (Block { kind: BlockKind::Movable, cell: r, base: d, size }),
                    )
                    &&& final(mem)@ == write_u32_at(old(mem)@, r as int, d)
                },
            r != 0 ==> read_u32_at(final(mem)@, r as int) == final(self).blocks().last().base,
            r == 0 ==> final(self).blocks() == old(self).blocks() && final(mem)@ == old(mem)@,
            old(self).synced(old(mem)@) ==> final(self).synced(final(mem)@),
    {
        match self.find_handle_place(size) {
            Some((c, d)) => {
                let b = Block { kind: BlockKind::Movable, cell: c, base: d, size };
                proof {
                    assert forall|i: int| 0 <= i < self.blocks().len() implies {
                        &&& clear_of(#[trigger] self.blocks()[i], b.base as int, data_end(b))
                        &&& clear_of(self.blocks()[i], b.cell as int, cell_end(b))
                    } by {
                        assert(clear_of(self.blocks()[i], c as int, c + 4));
                        assert(clear_of(self.blocks()[i], d as int, d + extent(size)));
                    }
                    lemma_push_wf(self.start(), self.end(), self.blocks(), b);
                }
                let ghost before = mem@;
                self.blocks.push(b);
                mem.write_u32(c, d).unwrap();
                proof {
                    lemma_read_after_write(before, c as int, d);
                    assert(old(self).handle_fits(c as int, d as int, size));
                    if old(self).synced(before) {
                        assert forall|i: int|
                            0 <= i < self.blocks().len() && (#[trigger] self.blocks()[i]).kind
                                == BlockKind::Movable implies read_u32_at(
                            mem@,
                            self.blocks()[i].cell as int,
                        ) == self.blocks()[i].base by {
                            if i < old(self).blocks().len() {
                                let o = self.blocks()[i];
                                assert(inside(self.start(), self.end(), o));
                                assert(clear_of(o, c as int, c + 4));
                                lemma_read_unchanged(before, mem@, o.cell as int);
                            }
                        }
                    }
                }
                c
            },
            None => 0,
        }
    }

    /// Releases the movable block of handle `h` and its cell.
    pub fn dispose_handle(&mut self, h: u32) -> (r: Result<(), HeapFault>)
        requires
            old(self).wf(),
        ensures
            final(self).wf(),
            final(self).start() == old(self).start(),
            final(self).end() == old(self).end(),
            r is Ok <==> old(self).has_handle(h),
            r is Err ==> r == Err::<(), HeapFault>(HeapFault::UnknownHandle { handle: h })
                && final(self).blocks() == old(self).blocks(),
            r is Ok ==> exists|i: int|
                old(self).handle_at(i, h) && final(self).blocks() == old(self).blocks().remove(i),
            !final(self).has_handle(h),
            forall|m: Seq<u8>| #[trigger] old(self).synced(m) ==> final(self).synced(m),
    {
        match self.find_handle(h) {
            Some(i) => {
                let ghost before = self.blocks();
                proof {
                    lemma_remove_wf(self.start(), self.end(), self.blocks(), i as int);
                }
                self.blocks.remove(i);
                proof {
                    assert(old(self).handle_at(i as int, h));
                    assert forall|j: int| !self.handle_at(j, h) by {
                        if self.handle_at(j, h) {
                            let j2 = if j < i { j } else { j + 1 };
                            assert(before[j2] == self.blocks()[j]);
                            old(self).lemma_handle_unique(i as int, j2, h);
                        }
                    }
                    assert forall|m: Seq<u8>| #[trigger] old(self).synced(m) implies self.synced(m) by {
                        assert forall|j: int|
                            0 <= j < self.blocks().len() && (#[trigger] self.blocks()[j]).kind
                                == BlockKind::Movable implies read_u32_at(
                            m,
                            self.blocks()[j].cell as int,
                        ) == self.blocks()[j].base by {
                            let j2 = if j < i { j } else { j + 1 };
                            assert(before[j2] == self.blocks()[j]);
                        }
                    }
                }
                Ok(())
            },
            None => Err(HeapFault::UnknownHandle { handle: h }),
        }
    }

    /// The size of the movable block of handle `h`.
    pub fn get_handle_size(&self, h: u32) -> (r: Result<u32, HeapFault>)
        requires
            self.wf(),
        ensures
            !self.has_handle(h) ==> r == Err::<u32, HeapFault>(HeapFault::UnknownHandle { handle: h }),
            forall|i: int| self.handle_at(i, h) ==> r == Ok::<u32, HeapFault>(self.blocks()[i].size),
    {
        match self.find_handle(h) {
            Some(i) => {
                proof {
                    assert forall|j: int| self.handle_at(j, h) implies j == i by {
                        self.lemma_handle_unique(i as int, j, h);
                    }
                }
                Ok(self.blocks[i].size)
            },
            None => Err(HeapFault::UnknownHandle { handle: h }),
        }
    }

    /// Resizes the movable block of handle `h`. When it cannot change size
    /// where it stands it moves to a free range and its first bytes are copied
    /// there. Either way the cell at `h` is then given the block's address. Answers `false`, and
    /// changes nothing, when neither is possible. The handle itself stays.
    pub fn set_handle_size(&mut self, mem: &mut GuestMemory, h: u32, new_size: u32) -> (r: Result<
        bool,
        HeapFault,
    >)
        requires
            old(self).wf(),
            old(mem).wf(),
            old(self).end() <= old(mem)@.len(),
        ensures
            final(self).wf(),
            final(mem).wf(),
            final(self).start() == old(self).start(),
            final(self).end() == old(self).end(),
            !old(self).has_handle(h) ==> r == Err::<bool, HeapFault>(
                HeapFault::UnknownHandle { handle: h },
            ) && final(self).blocks() == old(self).blocks() && final(mem)@ == old(mem)@,
            forall|i: int|
                old(self).handle_at(i, h) ==> {
                    let b = old(self).blocks()[i];
                    let in_place = old(self).free_except(
                        i,
                        b.base as int,
                        b.base + extent(new_size),
                    );
                    let room = exists|a: int| #[trigger] old(self).free(a, a + extent(new_size));
                    &&& r == Ok::<bool, HeapFault>(in_place || room)
                    &&& in_place ==> final(self).blocks() == old(self).blocks().update(
                        i,
                        (Block { kind: b.kind, cell: h, base: b.base, size: new_size }),
                    ) && final(mem)@ == write_u32_at(old(mem)@, h as int, b.base)
                    &&& !in_place && room ==> exists|a: u32|
                        #![trigger old(self).blocks().update(i, (Block { kind: b.kind, cell: h, base: a, size: new_size }))]
                        {
                            &&& old(self).free(a as int, a + extent(new_size))
                            &&& final(self).blocks() == old(self).blocks().update(
                                i,
                                (Block { kind: b.kind, cell: h, base: a, size: new_size }),
                            )
                            &&& final(mem)@ == write_u32_at(
                                copy_range(old(mem)@, b.base as int, a as int, kept(b.size, new_size)),
                                h as int,
                                a,
                            )
                        }
                    &&& !in_place && !room ==> final(self).blocks() == old(self).blocks()
                        && final(mem)@ == old(mem)@
                    &&& new_size <= b.size ==> in_place
                    &&& final(self).handle_at(i, h)
                    &&& in_place || room ==> read_u32_at(final(mem)@, h as int) == final(self).blocks()[i].base
                },
            old(self).synced(old(mem)@) ==> final(self).synced(final(mem)@),
    {
        let i = match self.find_handle(h) {
            Some(i) => i,
            None => {
                return Err(HeapFault::UnknownHandle { handle: h });
            },
        };
        let b = self.blocks[i];
        proof {
            assert forall|j: int| self.handle_at(j, h) implies j == i by {
                self.lemma_handle_unique(i as int, j, h);
            }
            if new_size <= b.size {
                self.lemma_shrink_in_place(i as int, new_size);
            }
            assert(inside(self.start(), self.end(), b));
        }
        let rest = Ghost(self.blocks().remove(i as int));
        if self.is_free_except(i, b.base as u64, b.base as u64 + extent_of(new_size)) {
            let nb = Block { kind: b.kind, cell: h, base: b.base, size: new_size };
            proof {
                assert forall|k: int| 0 <= k < rest@.len() implies {
                    &&& clear_of(#[trigger] rest@[k], nb.base as int, data_end(nb))
                    &&& clear_of(rest@[k], nb.cell as int, cell_end(nb))
                } by {
                    let k2 = if k < i { k } else { k + 1 };
                    assert(rest@[k] == self.blocks()[k2]);
                    assert(separate(b, self.blocks()[k2]));
                }
                lemma_update_wf(self.start(), self.end(), self.blocks(), i as int, nb);
            }
            let ghost before = mem@;
            self.blocks.set(i, nb);
            mem.write_u32(h, b.base).unwrap();
            proof {
                assert(self.handle_at(i as int, h));
                lemma_read_after_write(before, h as int, b.base);
                if old(self).synced(before) {
                    assert forall|j: int|
                        0 <= j < self.blocks().len() && (#[trigger] self.blocks()[j]).kind
                            == BlockKind::Movable implies read_u32_at(
                        mem@,
                        self.blocks()[j].cell as int,
                    ) == self.blocks()[j].base by {
                        if j != i {
                            let c = self.blocks()[j];
                            assert(c == old(self).blocks()[j]);
                            assert(inside(self.start(), self.end(), c));
                            assert(separate(b, c));
                            lemma_read_unchanged(before, mem@, c.cell as int);
                        }
                    }
                }
            }
            return Ok(true);
        }
        let a = match self.find_free(extent_of(new_size)) {
            Some(a) => a,
            None => {
                return Ok(false);
            },
        };
        let nb = Block { kind: b.kind, cell: h, base: a, size: new_size };
        let ghost before = mem@;
        proof {
            assert(clear_of(b, a as int, a + extent(new_size)));
            assert forall|k: int| 0 <= k < rest@.len() implies {
                &&& clear_of(#[trigger] rest@[k], nb.base as int, data_end(nb))
                &&& clear_of(rest@[k], nb.cell as int, cell_end(nb))
            } by {
                let k2 = if k < i { k } else { k + 1 };
                assert(rest@[k] == self.blocks()[k2]);
                assert(separate(b, self.blocks()[k2]));
            }
            lemma_update_wf(self.start(), self.end(), self.blocks(), i as int, nb);
        }
        let count = if b.size <= new_size {
            b.size
        } else {
            new_size
        };
        block_copy(mem, b.base, a, count).unwrap();
        let ghost copied = mem@;
        mem.write_u32(h, a).unwrap();
        self.blocks.set(i, nb);
        proof {
            assert(self.handle_at(i as int, h));
            lemma_read_after_write(copied, h as int, a);
            if old(self).synced(before) {
                assert forall|j: int|
                    0 <= j < self.blocks().len() && (#[trigger] self.blocks()[j]).kind
                        == BlockKind::Movable implies read_u32_at(
                    mem@,
                    self.blocks()[j].cell as int,
                ) == self.blocks()[j].base by {
                    if j != i {
                        let c = self.blocks()[j];
                        assert(c == old(self).blocks()[j]);
                        assert(inside(self.start(), self.end(), c));
                        assert(clear_of(c, a as int, a + extent(new_size)));
                        assert(separate(b, c));
                        lemma_read_unchanged(before, mem@, c.cell as int);
                    }
                }
            }
        }
        Ok(true)
    }

    /// Whether the movable block of handle `h` can take `new_size` bytes,
    /// where it stands or in a free range elsewhere: whether
    /// `set_handle_size` would succeed.
    pub fn handle_has_room(&self, h: u32, new_size: u32) -> (r: Result<bool, HeapFault>)
        requires
            self.wf(),
        ensures
            !self.has_handle(h) ==> r == Err::<bool, HeapFault>(HeapFault::UnknownHandle { handle: h }),
            forall|i: int|
                self.handle_at(i, h) ==> r == Ok::<bool, HeapFault>(
                    self.free_except(
                        i,
                        self.blocks()[i].base as int,
                        self.blocks()[i].base + extent(new_size),
                    ) || exists|a: int| #[trigger] self.free(a, a + extent(new_size)),
                ),
    {
        match self.find_handle(h) {
            Some(i) => {
                proof {
                    assert forall|j: int| self.handle_at(j, h) implies j == i by {
                        self.lemma_handle_unique(i as int, j, h);
                    }
                    assert(inside(self.start(), self.end(), self.blocks()[i as int]));
                }
                let b = self.blocks[i];
                if self.is_free_except(i, b.base as u64, b.base as u64 + extent_of(new_size)) {
                    return Ok(true);
                }
                let found = self.find_free(extent_of(new_size));
                Ok(found.is_some())
            },
            None => Err(HeapFault::UnknownHandle { handle: h }),
        }
    }

    /// The current base address of the movable block of handle `h`: what its
    /// master pointer cell holds.
    pub fn handle_base(&self, h: u32) -> (r: Result<u32, HeapFault>)
        requires
            self.wf(),
        ensures
            !self.has_handle(h) ==> r == Err::<u32, HeapFault>(HeapFault::UnknownHandle { handle: h }),
            forall|i: int| self.handle_at(i, h) ==> r == Ok::<u32, HeapFault>(self.blocks()[i].base),
    {
        match self.find_handle(h) {
            Some(i) => {
                proof {
                    assert forall|j: int| self.handle_at(j, h) implies j == i by {
                        self.lemma_handle_unique(i as int, j, h);
                    }
                }
                Ok(self.blocks[i].base)
            },
            None => Err(HeapFault::UnknownHandle { handle: h }),
        }
    }
}

/// Two distinct live blocks of a consistent heap share no byte: neither their
/// data nor their master pointer cells overlap.
pub proof fn lemma_live_blocks_disjoint(h: Heap, i: int, j: int)
    requires
        h.wf(),
        0 <= i < h.blocks().len(),
        0 <= j < h.blocks().len(),
        i != j,
    ensures
        disjoint(
            h.blocks()[i].base as int,
            data_end(h.blocks()[i]),
            h.blocks()[j].base as int,
            data_end(h.blocks()[j]),
        ),
        h.blocks()[i].kind == BlockKind::Movable ==> disjoint(
            h.blocks()[i].cell as int,
            cell_end(h.blocks()[i]),
            h.blocks()[j].base as int,
            data_end(h.blocks()[j]),
        ),
        h.blocks()[i].kind == BlockKind::Movable && h.blocks()[j].kind == BlockKind::Movable
            ==> disjoint(
            h.blocks()[i].cell as int,
            cell_end(h.blocks()[i]),
            h.blocks()[j].cell as int,
            cell_end(h.blocks()[j]),
        ),
{
    assert(separate(h.blocks()[i], h.blocks()[j]));
}

/// A pointer that `new_ptr` has just handed out answers with the size asked
/// for, and its bytes meet no other live block.
pub proof fn lemma_new_ptr_round_trip(before: Heap, after: Heap, p: u32, size: u32)
    requires
        before.wf(),
        after.wf(),
        before.free(p as int, p + extent(size)),
        after.blocks() == before.blocks().push(
            (Block { kind: BlockKind::Fixed, cell: 0, base: p, size }),
        ),
    ensures
        after.has_ptr(p),
        forall|i: int|
            after.ptr_at(i, p) ==> {
                &&& after.blocks()[i].size == size
                &&& forall|j: int|
                    0 <= j < after.blocks().len() && j != i ==> clear_of(
                        #[trigger] after.blocks()[j],
                        p as int,
                        p + extent(size),
                    )
            },
{
    let n = before.blocks().len() as int;
    assert(after.ptr_at(n, p));
    assert forall|i: int| after.ptr_at(i, p) implies i == n by {
        after.lemma_ptr_unique(i, n, p);
    }
    assert forall|j: int| 0 <= j < n implies clear_of(
        #[trigger] after.blocks()[j],
        p as int,
        p + extent(size),
    ) by {
        assert(after.blocks()[j] == before.blocks()[j]);
    }
}

} // verus!

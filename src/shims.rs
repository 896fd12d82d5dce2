use vstd::prelude::*;
use crate::heap::{clear_of, extent, inside, kept, Block, BlockKind, Heap, HeapFault};
use crate::memory::{
    block_copy, copy_fault, copy_range, first_outside, read_u32_at, write_u32_at, GuestMemory,
    MemFault,
};

verus! {

/// Classic Memory Manager result codes that the handlers hand to the guest.
#[derive(Debug, Clone, Copy, PartialEq, Eq, Structural)]
pub enum OsErr {
    NoErr,
    NotEnoughMemory,
}

/// The 32-bit value of a result code: `memFullErr` is -108.
pub open spec fn os_err_code(e: OsErr) -> u32 {
    match e {
        OsErr::NoErr => 0,
        OsErr::NotEnoughMemory => 0xFFFF_FF94,
    }
}

impl OsErr {
    pub fn to_u32(&self) -> (r: u32)
        ensures
            r == os_err_code(*self),
    {
        match self {
            OsErr::NoErr => 0,
            OsErr::NotEnoughMemory => 0xFFFF_FF94,
        }
    }
}

/// Why a handler stopped the emulation: a bookkeeping fault or an access
/// outside guest memory.
#[derive(Debug, Clone, Copy, PartialEq, Eq, Structural)]
pub enum ShimFault {
    Heap(HeapFault),
    Memory(MemFault),
}

/// What a handler returns: the value for the guest's result slot, if any.
pub type FuncResult = Result<Option<u32>, ShimFault>;

/// The native handlers behind the emulated Memory Manager calls.
#[derive(Debug, Clone, Copy, PartialEq, Eq, Structural)]
pub enum Shim {
    StubReturnVoid,
    NewHandle,
    NewPtr,
    DisposePtr,
    GetPtrSize,
    SetPtrSize,
    DisposeHandle,
    GetHandleSize,
    SetHandleSize,
    BlockMoveData,
    HGetState,
    PtrAndHand,
}

/// The emulator's state: the guest heap and the table from API name to handler.
pub struct EmuState {
    pub heap: Heap,
    pub shims: Vec<(&'static str, Shim)>,
}

/// The heap is consistent and lies inside guest memory.
pub open spec fn runs_on(state: &EmuState, mem: &GuestMemory) -> bool {
    &&& state.heap.wf()
    &&& mem.wf()
    &&& state.heap.end() <= mem@.len()
}

/// Both states hold the same heap range and shim table.
pub open spec fn same_frame(a: &EmuState, b: &EmuState) -> bool {
    &&& a.heap.start() == b.heap.start()
    &&& a.heap.end() == b.heap.end()
    &&& a.shims@ == b.shims@
}

impl EmuState {
    /// A state whose heap spans `[heap_start, heap_end)`, with no handlers.
    pub fn new(heap_start: u32, heap_end: u32) -> (r: EmuState)
        requires
            0 < heap_start <= heap_end,
        ensures
            r.heap.wf(),
            r.heap.start() == heap_start,
            r.heap.end() == heap_end,
            r.heap.blocks() == Seq::<Block>::empty(),
            r.shims@ == Seq::<(&'static str, Shim)>::empty(),
    {
        EmuState { heap: Heap::new(heap_start, heap_end), shims: Vec::new() }
    }

    pub fn install_shim_function(&mut self, name: &'static str, shim: Shim)
        ensures
            final(self).heap == old(self).heap,
            final(self).shims@ == old(self).shims@.push((name, shim)),
    {
        self.shims.push((name, shim));
    }
}

pub fn stub_return_void(uc: &mut GuestMemory, state: &mut EmuState) -> (r: FuncResult)
    ensures
        r == Ok::<Option<u32>, ShimFault>(None),
        final(uc)@ == old(uc)@,
        *final(state) == *old(state),
{
    Ok(None)
}

/// `NewHandle`: the new handle, or zero when the heap is full.
pub fn new_handle(uc: &mut GuestMemory, state: &mut EmuState, size: u32) -> (r: FuncResult)
    requires
        runs_on(old(state), old(uc)),
    ensures
        runs_on(final(state), final(uc)),
        same_frame(final(state), old(state)),
        r matches Ok(Some(h)) && {
            &&& h != 0 <==> exists|c: int, d: int| #[trigger] old(state).heap.handle_fits(c, d, size)
            &&& h != 0 ==> exists|d: u32|
                #![trigger old(state).heap.handle_fits(h as int, d as int, size)]
                {
                    &&& old(state).heap.handle_fits(h as int, d as int, size)
                    &&& final(state).heap.blocks() == old(state).heap.blocks().push(
                        (Block { kind: BlockKind::Movable, cell: h, base: d, size }),
                    )
                    &&& final(uc)@ == write_u32_at(old(uc)@, h as int, d)
                }
            &&& h != 0 ==> read_u32_at(final(uc)@, h as int) == final(state).heap.blocks().last().base
            &&& h == 0 ==> final(state).heap.blocks() == old(state).heap.blocks() && final(uc)@
                == old(uc)@
        },
        old(state).heap.synced(old(uc)@) ==> final(state).heap.synced(final(uc)@),
{
    let handle = state.heap.new_handle(uc, size);
    Ok(Some(handle))
}

/// `NewPtr`: the new pointer, or zero when the heap is full.
pub fn new_ptr(uc: &mut GuestMemory, state: &mut EmuState, size: u32) -> (r: FuncResult)
    requires
        runs_on(old(state), old(uc)),
    ensures
        runs_on(final(state), final(uc)),
        same_frame(final(state), old(state)),
        final(uc)@ == old(uc)@,
        r matches Ok(Some(p)) && {
            &&& p != 0 <==> exists|a: int| #[trigger] old(state).heap.free(a, a + extent(size))
            &&& p != 0 ==> final(state).heap.blocks() == old(state).heap.blocks().push(
                (Block { kind: BlockKind::Fixed, cell: 0, base: p, size }),
            )
            &&& p == 0 ==> final(state).heap.blocks() == old(state).heap.blocks()
        },
        old(state).heap.synced(old(uc)@) ==> final(state).heap.synced(final(uc)@),
{
    let ptr = state.heap.new_ptr(size);
    Ok(Some(ptr))
}

/// `DisposePtr`.
pub fn dispose_ptr(uc: &mut GuestMemory, state: &mut EmuState, ptr: u32) -> (r: FuncResult)
    requires
        runs_on(old(state), old(uc)),
    ensures
        runs_on(final(state), final(uc)),
        same_frame(final(state), old(state)),
        final(uc)@ == old(uc)@,
        r is Ok <==> old(state).heap.has_ptr(ptr),
        r is Ok ==> r == Ok::<Option<u32>, ShimFault>(None) && exists|i: int|
            old(state).heap.ptr_at(i, ptr) && final(state).heap.blocks() == old(state).heap.blocks().remove(i),
        r is Err ==> r == Err::<Option<u32>, ShimFault>(
            ShimFault::Heap(HeapFault::UnknownPointer { address: ptr }),
        ) && final(state).heap.blocks() == old(state).heap.blocks(),
        !final(state).heap.has_ptr(ptr),
        old(state).heap.synced(old(uc)@) ==> final(state).heap.synced(final(uc)@),
{
    match state.heap.dispose_ptr(ptr) {
        Ok(()) => Ok(None),
        Err(e) => Err(ShimFault::Heap(e)),
    }
}

/// `GetPtrSize`.
pub fn get_ptr_size(uc: &mut GuestMemory, state: &mut EmuState, ptr: u32) -> (r: FuncResult)
    requires
        runs_on(old(state), old(uc)),
    ensures
        final(uc)@ == old(uc)@,
        *final(state) == *old(state),
        !old(state).heap.has_ptr(ptr) ==> r == Err::<Option<u32>, ShimFault>(
            ShimFault::Heap(HeapFault::UnknownPointer { address: ptr }),
        ),
        forall|i: int|
            old(state).heap.ptr_at(i, ptr) ==> r == Ok::<Option<u32>, ShimFault>(
                Some(old(state).heap.blocks()[i].size),
            ),
{
    match state.heap.get_ptr_size(ptr) {
        Ok(size) => Ok(Some(size)),
        Err(e) => Err(ShimFault::Heap(e)),
    }
}

/// `SetPtrSize`: the guest learns nothing of whether the block could grow.
pub fn set_ptr_size(uc: &mut GuestMemory, state: &mut EmuState, ptr: u32, new_size: u32) -> (r:
    FuncResult)
    requires
        runs_on(old(state), old(uc)),
    ensures
        runs_on(final(state), final(uc)),
        same_frame(final(state), old(state)),
        final(uc)@ == old(uc)@,
        !old(state).heap.has_ptr(ptr) ==> r == Err::<Option<u32>, ShimFault>(
            ShimFault::Heap(HeapFault::UnknownPointer { address: ptr }),
        ) && final(state).heap.blocks() == old(state).heap.blocks(),
        forall|i: int|
            old(state).heap.ptr_at(i, ptr) ==> {
                let b = old(state).heap.blocks()[i];
                &&& r == Ok::<Option<u32>, ShimFault>(None)
                &&& old(state).heap.free_except(i, b.base as int, b.base + extent(new_size)) ==> final(state).heap.blocks() == old(state).heap.blocks().update(
                    i,
                    (Block { kind: b.kind, cell: b.cell, base: b.base, size: new_size }),
                )
                &&& !old(state).heap.free_except(i, b.base as int, b.base + extent(new_size))
                    ==> final(state).heap.blocks() == old(state).heap.blocks()
                &&& new_size <= b.size ==> final(state).heap.blocks() == old(state).heap.blocks().update(
                    i,
                    (Block { kind: b.kind, cell: b.cell, base: b.base, size: new_size }),
                )
            },
        old(state).heap.synced(old(uc)@) ==> final(state).heap.synced(final(uc)@),
{
    match state.heap.set_ptr_size(ptr, new_size) {
        Ok(_) => Ok(None),
        Err(e) => Err(ShimFault::Heap(e)),
    }
}

/// `DisposeHandle`.
pub fn dispose_handle(uc: &mut GuestMemory, state: &mut EmuState, handle: u32) -> (r: FuncResult)
    requires
        runs_on(old(state), old(uc)),
    ensures
        runs_on(final(state), final(uc)),
        same_frame(final(state), old(state)),
        final(uc)@ == old(uc)@,
        r is Ok <==> old(state).heap.has_handle(handle),
        r is Ok ==> r == Ok::<Option<u32>, ShimFault>(None) && exists|i: int|
            old(state).heap.handle_at(i, handle) && final(state).heap.blocks() == old(state).heap.blocks().remove(i),
        r is Err ==> r == Err::<Option<u32>, ShimFault>(
            ShimFault::Heap(HeapFault::UnknownHandle { handle }),
        ) && final(state).heap.blocks() == old(state).heap.blocks(),
        !final(state).heap.has_handle(handle),
        old(state).heap.synced(old(uc)@) ==> final(state).heap.synced(final(uc)@),
{
    match state.heap.dispose_handle(handle) {
        Ok(()) => Ok(None),
        Err(e) => Err(ShimFault::Heap(e)),
    }
}

/// `GetHandleSize`.
pub fn get_handle_size(uc: &mut GuestMemory, state: &mut EmuState, handle: u32) -> (r: FuncResult)
    requires
        runs_on(old(state), old(uc)),
    ensures
        final(uc)@ == old(uc)@,
        *final(state) == *old(state),
        !old(state).heap.has_handle(handle) ==> r == Err::<Option<u32>, ShimFault>(
            ShimFault::Heap(HeapFault::UnknownHandle { handle }),
        ),
        forall|i: int|
            old(state).heap.handle_at(i, handle) ==> r == Ok::<Option<u32>, ShimFault>(
                Some(old(state).heap.blocks()[i].size),
            ),
{
    match state.heap.get_handle_size(handle) {
        Ok(size) => Ok(Some(size)),
        Err(e) => Err(ShimFault::Heap(e)),
    }
}

/// `SetHandleSize`: the guest learns nothing of whether the block could grow.
pub fn set_handle_size(uc: &mut GuestMemory, state: &mut EmuState, handle: u32, new_size: u32) -> (r:
    FuncResult)
    requires
        runs_on(old(state), old(uc)),
    ensures
        runs_on(final(state), final(uc)),
        same_frame(final(state), old(state)),
        !old(state).heap.has_handle(handle) ==> r == Err::<Option<u32>, ShimFault>(
            ShimFault::Heap(HeapFault::UnknownHandle { handle }),
        ) && final(state).heap.blocks() == old(state).heap.blocks() && final(uc)@ == old(uc)@,
        old(state).heap.has_handle(handle) ==> r == Ok::<Option<u32>, ShimFault>(None),
        forall|i: int|
            old(state).heap.handle_at(i, handle) ==> {
                let b = old(state).heap.blocks()[i];
                let nb = final(state).heap.blocks()[i];
                &&& final(state).heap.blocks().len() == old(state).heap.blocks().len()
                &&& final(state).heap.blocks() == old(state).heap.blocks().update(i, nb)
                &&& nb.kind == BlockKind::Movable && nb.cell == handle
                &&& nb.size == new_size <==> (old(state).heap.free_except(
                    i,
                    b.base as int,
                    b.base + extent(new_size),
                ) || exists|a: int| #[trigger] old(state).heap.free(a, a + extent(new_size)))
                &&& nb.size != new_size ==> final(state).heap.blocks() == old(state).heap.blocks()
                    && final(uc)@ == old(uc)@
                &&& nb.size == new_size && nb.base == b.base ==> final(uc)@ == write_u32_at(
                    old(uc)@,
                    handle as int,
                    b.base,
                )
                &&& nb.base != b.base ==> final(uc)@ == write_u32_at(
                    copy_range(old(uc)@, b.base as int, nb.base as int, kept(b.size, new_size)),
                    handle as int,
                    nb.base,
                )
                &&& nb.size == new_size ==> read_u32_at(final(uc)@, handle as int) == nb.base
                &&& new_size <= b.size ==> nb.size == new_size && nb.base == b.base
            },
        old(state).heap.synced(old(uc)@) ==> final(state).heap.synced(final(uc)@),
{
    match state.heap.set_handle_size(uc, handle, new_size) {
        Ok(_) => Ok(None),
        Err(e) => Err(ShimFault::Heap(e)),
    }
}

/// `BlockMoveData`: copies `len` bytes from `src` to `dest`, correct when the
/// two ranges overlap.
pub fn block_move_data(uc: &mut GuestMemory, state: &mut EmuState, src: u32, dest: u32, len: u32) -> (r:
    FuncResult)
    requires
        old(uc).wf(),
    ensures
        final(uc).wf(),
        *final(state) == *old(state),
        r is Ok <==> (len == 0 || src == dest || (src as int + len as int <= old(uc)@.len()
            && dest as int + len as int <= old(uc)@.len())),
        r is Ok ==> r == Ok::<Option<u32>, ShimFault>(None) && final(uc)@ == copy_range(
            old(uc)@,
            src as int,
            dest as int,
            len as int,
        ),
        r is Err ==> final(uc)@ == old(uc)@,
        r is Err ==> r == Err::<Option<u32>, ShimFault>(
            ShimFault::Memory(
                MemFault::OutOfRange { address: copy_fault(old(uc)@.len() as int, src, dest, len) },
            ),
        ),

{
    match block_copy(uc, src, dest, len) {
        Ok(()) => Ok(None),
        Err(e) => Err(ShimFault::Memory(e)),
    }
}

/// `HGetState`: block state flags are not modelled, so always zero.
pub fn h_get_state(uc: &mut GuestMemory, state: &mut EmuState) -> (r: FuncResult)
    ensures
        r == Ok::<Option<u32>, ShimFault>(Some(0)),
        final(uc)@ == old(uc)@,
        *final(state) == *old(state),
{
    Ok(Some(0))
}

/// The handle can take `extra` more bytes, where it stands or elsewhere.
pub open spec fn can_append(heap: Heap, i: int, extra: u32) -> bool {
    let b = heap.blocks()[i];
    let total = b.size + extra;
    &&& total <= u32::MAX
    &&& heap.free_except(i, b.base as int, b.base + extent(total as u32)) || exists|a: int|
        #[trigger] heap.free(a, a + extent(total as u32))
}

/// `PtrAndHand`: appends the `size` bytes at `ptr` to the block of `handle`.
/// Whether the block can grow is decided first: when it cannot, the answer is
/// `memFullErr` and nothing changes, wherever `ptr` points. Otherwise the
/// source bytes are taken before the block grows.
pub fn ptr_and_hand(uc: &mut GuestMemory, state: &mut EmuState, ptr: u32, handle: u32, size: u32) -> (r:
    FuncResult)
    requires
        runs_on(old(state), old(uc)),
    ensures
        runs_on(final(state), final(uc)),
        same_frame(final(state), old(state)),
        !old(state).heap.has_handle(handle) ==> r == Err::<Option<u32>, ShimFault>(
            ShimFault::Heap(HeapFault::UnknownHandle { handle }),
        ) && final(state).heap.blocks() == old(state).heap.blocks() && final(uc)@ == old(uc)@,
        forall|i: int|
            old(state).heap.handle_at(i, handle) ==> {
                let b = old(state).heap.blocks()[i];
                let nb = final(state).heap.blocks()[i];
                let source_ok = size == 0 || ptr as int + size as int <= old(uc)@.len();
                &&& !can_append(old(state).heap, i, size) ==> {
                    &&& r == Ok::<Option<u32>, ShimFault>(Some(os_err_code(OsErr::NotEnoughMemory)))
                    &&& final(state).heap.blocks() == old(state).heap.blocks()
                    &&& final(uc)@ == old(uc)@
                }
                &&& can_append(old(state).heap, i, size) && !source_ok ==> {
                    &&& r == Err::<Option<u32>, ShimFault>(
                        ShimFault::Memory(
                            MemFault::OutOfRange { address: first_outside(old(uc)@.len() as int, ptr) },
                        ),
                    )
                    &&& final(state).heap.blocks() == old(state).heap.blocks()
                    &&& final(uc)@ == old(uc)@
                }
                &&& can_append(old(state).heap, i, size) && source_ok ==> {
                    &&& r == Ok::<Option<u32>, ShimFault>(Some(os_err_code(OsErr::NoErr)))
                    &&& final(state).heap.blocks() == old(state).heap.blocks().update(
                        i,
                        (Block {
                            kind: BlockKind::Movable,
                            cell: handle,
                            base: nb.base,
                            size: (b.size + size) as u32,
                        }),
                    )
                    &&& forall|k: int|
                        0 <= k < b.size ==> #[trigger] final(uc)@[nb.base + k] == old(uc)@[b.base
                            + k]
                    &&& forall|k: int|
                        0 <= k < size ==> #[trigger] final(uc)@[nb.base + b.size + k] == old(uc)@[ptr + k]
                    &&& forall|k: int|
                        0 <= k < final(uc)@.len() && !(nb.base <= k < nb.base + b.size + size) && !(
                        handle <= k < handle + 4) ==> #[trigger] final(uc)@[k] == old(uc)@[k]
                    &&& read_u32_at(final(uc)@, handle as int) == nb.base
                }
            },
        old(state).heap.synced(old(uc)@) ==> final(state).heap.synced(final(uc)@),
{
    let current = match state.heap.get_handle_size(handle) {
        Ok(s) => s,
        Err(e) => {
            return Err(ShimFault::Heap(e));
        },
    };
    let ghost i = choose|i: int| old(state).heap.handle_at(i, handle);
    if current > u32::MAX - size {
        return Ok(Some(OsErr::NotEnoughMemory.to_u32()));
    }
    let room = match state.heap.handle_has_room(handle, current + size) {
        Ok(room) => room,
        Err(e) => {
            return Err(ShimFault::Heap(e));
        },
    };
    if !room {
        return Ok(Some(OsErr::NotEnoughMemory.to_u32()));
    }
    let bytes = match uc.read_bytes(ptr, size) {
        Ok(v) => v,
        Err(e) => {
            return Err(ShimFault::Memory(e));
        },
    };
    let ghost mem0 = uc@;
    let grown = match state.heap.set_handle_size(uc, handle, current + size) {
        Ok(g) => g,
        Err(e) => {
            return Err(ShimFault::Heap(e));
        },
    };
    if !grown {
        return Ok(Some(OsErr::NotEnoughMemory.to_u32()));
    }
    proof {
        assert(old(state).heap.handle_at(i, handle));
        assert(state.heap.handle_at(i, handle));
    }
    let base = match state.heap.handle_base(handle) {
        Ok(b) => b,
        Err(e) => {
            return Err(ShimFault::Heap(e));
        },
    };
    let ghost mem1 = uc@;
    proof {
        assert(inside(state.heap.start(), state.heap.end(), state.heap.blocks()[i]));
    }
    let written = uc.write_bytes(base + current, &bytes);
    proof {
        assert(written is Ok);
        let ob = old(state).heap.blocks()[i];
        assert(inside(old(state).heap.start(), old(state).heap.end(), ob));
        if base != ob.base {
            let a = choose|a: u32|
                #![trigger old(state).heap.blocks().update(i, (Block { kind: ob.kind, cell: handle, base: a, size: (current + size) as u32 }))]
                {
                    &&& old(state).heap.free(a as int, a + extent((current + size) as u32))
                    &&& state.heap.blocks() == old(state).heap.blocks().update(
                        i,
                        (Block { kind: ob.kind, cell: handle, base: a, size: (current + size) as u32 }),
                    )
                    &&& mem1 == write_u32_at(
                        copy_range(mem0, ob.base as int, a as int, kept(ob.size, (current + size) as u32)),
                        handle as int,
                        a,
                    )
                };
            assert(state.heap.blocks()[i].base == a);
            assert(clear_of(ob, a as int, a + extent((current + size) as u32)));
        }
    }
    Ok(Some(OsErr::NoErr.to_u32()))
}

/// The Memory Manager calls and the handler behind each. Locking, state
/// and relocation hints have no effect here.
pub open spec fn shim_table() -> Seq<(&'static str, Shim)> {
    seq![
        ("NewHandle", Shim::NewHandle),
        ("NewHandleClear", Shim::NewHandle),
        ("NewPtr", Shim::NewPtr),
        ("NewPtrClear", Shim::NewPtr),
        ("HLock", Shim::StubReturnVoid),
        ("HUnlock", Shim::StubReturnVoid),
        ("HLockHi", Shim::StubReturnVoid),
        ("MoveHHi", Shim::StubReturnVoid),
        ("DisposePtr", Shim::DisposePtr),
        ("GetPtrSize", Shim::GetPtrSize),
        ("SetPtrSize", Shim::SetPtrSize),
        ("DisposeHandle", Shim::DisposeHandle),
        ("GetHandleSize", Shim::GetHandleSize),
        ("SetHandleSize", Shim::SetHandleSize),
        ("BlockMoveData", Shim::BlockMoveData),
        ("HGetState", Shim::HGetState),
        ("HSetState", Shim::StubReturnVoid),
        ("PtrAndHand", Shim::PtrAndHand),
    ]
}

/// Registers every Memory Manager handler.
pub fn install_shims(state: &mut EmuState)
    ensures
        final(state).heap == old(state).heap,
        final(state).shims@ == old(state).shims@ + shim_table(),
{
    let ghost before = state.shims@;
    state.install_shim_function("NewHandle", Shim::NewHandle);
    state.install_shim_function("NewHandleClear", Shim::NewHandle);
    state.install_shim_function("NewPtr", Shim::NewPtr);
    state.install_shim_function("NewPtrClear", Shim::NewPtr);
    state.install_shim_function("HLock", Shim::StubReturnVoid);
    state.install_shim_function("HUnlock", Shim::StubReturnVoid);
    state.install_shim_function("HLockHi", Shim::StubReturnVoid);
    state.install_shim_function("MoveHHi", Shim::StubReturnVoid);
    state.install_shim_function("DisposePtr", Shim::DisposePtr);
    state.install_shim_function("GetPtrSize", Shim::GetPtrSize);
    state.install_shim_function("SetPtrSize", Shim::SetPtrSize);
    state.install_shim_function("DisposeHandle", Shim::DisposeHandle);
    state.install_shim_function("GetHandleSize", Shim::GetHandleSize);
    state.install_shim_function("SetHandleSize", Shim::SetHandleSize);
    state.install_shim_function("BlockMoveData", Shim::BlockMoveData);
    state.install_shim_function("HGetState", Shim::HGetState);
    state.install_shim_function("HSetState", Shim::StubReturnVoid);
    state.install_shim_function("PtrAndHand", Shim::PtrAndHand);
    assert(state.shims@ =~= before + shim_table());
}

} // verus!

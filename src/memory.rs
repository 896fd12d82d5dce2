use vstd::prelude::*;

verus! {

/// The big-endian 32-bit value that four bytes spell.
pub open spec fn be_u32_spec(b0: u8, b1: u8, b2: u8, b3: u8) -> u32 {
    ((b0 as u32) << 24u32) | ((b1 as u32) << 16u32) | ((b2 as u32) << 8u32) | (b3 as u32)
}

/// The big-endian 32-bit value stored at `a` in the byte sequence `s`.
pub open spec fn read_u32_at(s: Seq<u8>, a: int) -> u32 {
    be_u32_spec(s[a], s[a + 1], s[a + 2], s[a + 3])
}

/// `s` with the big-endian bytes of `v` written at `a`.
pub open spec fn write_u32_at(s: Seq<u8>, a: int, v: u32) -> Seq<u8> {
    s.update(a, (v >> 24u32) as u8).update(a + 1, (v >> 16u32) as u8).update(
        a + 2,
        (v >> 8u32) as u8,
    ).update(a + 3, v as u8)
}

/// `s` with the bytes of `src` copied, as they were, to `dest`.
pub open spec fn copy_range(s: Seq<u8>, src: int, dest: int, len: int) -> Seq<u8> {
    Seq::new(
        s.len(),
        |k: int|
            if dest <= k < dest + len {
                s[src + (k - dest)]
            } else {
                s[k]
            },
    )
}

pub proof fn lemma_be_u32_round_trip(v: u32)
    ensures
        be_u32_spec((v >> 24u32) as u8, (v >> 16u32) as u8, (v >> 8u32) as u8, v as u8) == v,
{
    assert(((((v >> 24u32) as u8) as u32) << 24u32) | ((((v >> 16u32) as u8) as u32) << 16u32)
        | ((((v >> 8u32) as u8) as u32) << 8u32) | ((v as u8) as u32) == v) by (bit_vector);
}

/// Reading back a value just written at the same place gives that value.
pub proof fn lemma_read_after_write(s: Seq<u8>, a: int, v: u32)
    requires
        0 <= a,
        a + 4 <= s.len(),
    ensures
        read_u32_at(write_u32_at(s, a, v), a) == v,
        write_u32_at(s, a, v).len() == s.len(),
{
    lemma_be_u32_round_trip(v);
}

/// The first address outside a memory of `size` bytes that a copy of
/// `length` bytes from `src` to `dest` touches, taking the bytes in the order
/// the copy does: upward when `dest` lies below `src`, reading each byte
/// before writing it, and downward otherwise. An address past the 32-bit
/// space is reported as the last one.
pub open spec fn copy_fault(size: int, src: u32, dest: u32, length: u32) -> u32 {
    if dest < src {
        if src > size {
            src
        } else {
            size as u32
        }
    } else {
        let last = if src + length > size {
            src + length - 1
        } else {
            dest + length - 1
        };
        if last > u32::MAX {
            u32::MAX
        } else {
            last as u32
        }
    }
}

/// The first address at or after `address` that lies outside a memory of
/// `size` bytes.
pub open spec fn first_outside(size: int, address: u32) -> u32 {
    if address > size {
        address
    } else {
        size as u32
    }
}

/// `s` with `b` written from `a` on.
pub open spec fn splice(s: Seq<u8>, a: int, b: Seq<u8>) -> Seq<u8> {
    Seq::new(s.len(), |k: int| if a <= k < a + b.len() { b[k - a] } else { s[k] })
}

/// A value stays readable when its four bytes are left alone.
pub proof fn lemma_read_unchanged(s1: Seq<u8>, s2: Seq<u8>, a: int)
    requires
        0 <= a,
        a + 4 <= s1.len(),
        a + 4 <= s2.len(),
        forall|k: int| a <= k < a + 4 ==> s1[k] == s2[k],
    ensures
        read_u32_at(s1, a) == read_u32_at(s2, a),
{
    assert(s1[a] == s2[a] && s1[a + 1] == s2[a + 1] && s1[a + 2] == s2[a + 2] && s1[a + 3] == s2[a + 3]);
}

/// A fault raised by an access outside the guest address space.
#[derive(Debug, Clone, Copy, PartialEq, Eq, Structural)]
pub enum MemFault {
    OutOfRange { address: u32 },
}

/// The guest's linear address space: bytes at 32-bit offsets from zero.
pub struct GuestMemory {
    bytes: Vec<u8>,
}

impl View for GuestMemory {
    type V = Seq<u8>;

    closed spec fn view(&self) -> Seq<u8> {
        self.bytes@
    }
}

impl GuestMemory {
    /// Every valid address fits in 32 bits.
    pub closed spec fn wf(&self) -> bool {
        self.bytes@.len() <= u32::MAX
    }

    pub fn new(size: u32) -> (r: GuestMemory)
        ensures
            r.wf(),
            r@ == Seq::new(size as nat, |i: int| 0u8),
    {
        let mut bytes: Vec<u8> = Vec::new();
        let mut i: u32 = 0;
        while i < size
            invariant
                i <= size,
                bytes@ == Seq::new(i as nat, |k: int| 0u8),
            decreases size - i,
        {
            bytes.push(0u8);
            i = i + 1;
            assert(bytes@ =~= Seq::new(i as nat, |k: int| 0u8));
        }
        GuestMemory { bytes }
    }

    /// A memory holding `bytes`, which must be addressable with 32 bits.
    pub fn from_bytes(bytes: Vec<u8>) -> (r: GuestMemory)
        requires
            bytes@.len() <= u32::MAX,
        ensures
            r.wf(),
            r@ == bytes@,
    {
        GuestMemory { bytes }
    }

    pub fn len(&self) -> (r: u32)
        requires
            self.wf(),
        ensures
            r == self@.len(),
    {
        self.bytes.len() as u32
    }

    pub fn read_u8(&self, address: u32) -> (r: Result<u8, MemFault>)
        ensures
            address < self@.len() ==> r == Ok::<u8, MemFault>(self@[address as int]),
            address >= self@.len() ==> r == Err::<u8, MemFault>(MemFault::OutOfRange { address }),
    {
        if (address as usize) < self.bytes.len() {
            Ok(self.bytes[address as usize])
        } else {
            Err(MemFault::OutOfRange { address })
        }
    }

    pub fn write_u8(&mut self, address: u32, value: u8) -> (r: Result<(), MemFault>)
        ensures
            final(self).wf() == old(self).wf(),
            address < old(self)@.len() ==> r is Ok && final(self)@ == old(self)@.update(
                address as int,
                value,
            ),
            address >= old(self)@.len() ==> r == Err::<(), MemFault>(
                MemFault::OutOfRange { address },
            ) && final(self)@ == old(self)@,
    {
        if (address as usize) < self.bytes.len() {
            self.bytes.set(address as usize, value);
            Ok(())
        } else {
            Err(MemFault::OutOfRange { address })
        }
    }

    /// Reads the big-endian 32-bit value at `address`.
    pub fn read_u32(&self, address: u32) -> (r: Result<u32, MemFault>)
        ensures
            address as int + 4 <= self@.len() ==> r == Ok::<u32, MemFault>(
                read_u32_at(self@, address as int),
            ),
            address as int + 4 > self@.len() ==> r is Err,
    {
        if address as usize >= self.bytes.len() || self.bytes.len() - (address as usize) < 4 {
            return Err(MemFault::OutOfRange { address });
        }
        let a = address as usize;
        let b0 = self.bytes[a];
        let b1 = self.bytes[a + 1];
        let b2 = self.bytes[a + 2];
        let b3 = self.bytes[a + 3];
        Ok(((b0 as u32) << 24u32) | ((b1 as u32) << 16u32) | ((b2 as u32) << 8u32) | (b3 as u32))
    }

    /// Writes `value` big-endian at `address`.
    pub fn write_u32(&mut self, address: u32, value: u32) -> (r: Result<(), MemFault>)
        ensures
            final(self).wf() == old(self).wf(),
            address as int + 4 <= old(self)@.len() ==> r is Ok && final(self)@ == write_u32_at(
                old(self)@,
                address as int,
                value,
            ),
            address as int + 4 > old(self)@.len() ==> r is Err && final(self)@ == old(self)@,
    {
        if address as usize >= self.bytes.len() || self.bytes.len() - (address as usize) < 4 {
            return Err(MemFault::OutOfRange { address });
        }
        let a = address as usize;
        self.bytes.set(a, (value >> 24u32) as u8);
        self.bytes.set(a + 1, (value >> 16u32) as u8);
        self.bytes.set(a + 2, (value >> 8u32) as u8);
        self.bytes.set(a + 3, value as u8);
        Ok(())
    }

    fn first_outside(&self, address: u32) -> (r: u32)
        requires
            self.wf(),
        ensures
            r == first_outside(self@.len() as int, address),
    {
        if address as usize > self.bytes.len() {
            address
        } else {
            self.bytes.len() as u32
        }
    }

    /// The `length` bytes from `address` on.
    pub fn read_bytes(&self, address: u32, length: u32) -> (r: Result<Vec<u8>, MemFault>)
        requires
            self.wf(),
        ensures
            r is Ok <==> (length == 0 || address as int + length as int <= self@.len()),
            r matches Ok(v) ==> v@.len() == length && forall|k: int|
                0 <= k < length ==> #[trigger] v@[k] == self@[address + k],
            r is Err ==> r == Err::<Vec<u8>, MemFault>(
                MemFault::OutOfRange { address: first_outside(self@.len() as int, address) },
            ),
    {
        let mut out: Vec<u8> = Vec::new();
        if length == 0 {
            return Ok(out);
        }
        if address as usize >= self.bytes.len() || self.bytes.len() - (address as usize) < length as usize {
            return Err(MemFault::OutOfRange { address: self.first_outside(address) });
        }
        let mut i: u32 = 0;
        while i < length
            invariant
                self.wf(),
                i <= length,
                address as int + length as int <= self@.len(),
                out@ == self@.subrange(address as int, address + i),
            decreases length - i,
        {
            out.push(self.bytes[(address + i) as usize]);
            i = i + 1;
            assert(out@ =~= self@.subrange(address as int, address + i));
        }
        Ok(out)
    }

    /// Writes `data` from `address` on; writes nothing on a fault.
    pub fn write_bytes(&mut self, address: u32, data: &Vec<u8>) -> (r: Result<(), MemFault>)
        requires
            old(self).wf(),
        ensures
            final(self).wf(),
            r is Ok <==> (data@.len() == 0 || address as int + data@.len() <= old(self)@.len()),
            r is Ok ==> final(self)@ == splice(old(self)@, address as int, data@),
            r is Err ==> r == Err::<(), MemFault>(
                MemFault::OutOfRange { address: first_outside(old(self)@.len() as int, address) },
            ) && final(self)@ == old(self)@,
    {
        if data.len() == 0 {
            assert(splice(self@, address as int, data@) =~= self@);
            return Ok(());
        }
        if address as usize >= self.bytes.len() || self.bytes.len() - (address as usize) < data.len() {
            return Err(MemFault::OutOfRange { address: self.first_outside(address) });
        }
        let ghost orig = self@;
        let mut i: usize = 0;
        while i < data.len()
            invariant
                self.wf(),
                i <= data@.len(),
                address as int + data@.len() <= orig.len(),
                self@ == splice(orig, address as int, data@.subrange(0, i as int)),
            decreases data@.len() - i,
        {
            self.bytes.set(address as usize + i, data[i]);
            i = i + 1;
            assert(self@ =~= splice(orig, address as int, data@.subrange(0, i as int)));
        }
        assert(data@.subrange(0, i as int) =~= data@);
        Ok(())
    }
}

/// Copies `length` bytes from `src` to `dest` as if every source byte were read
/// before any byte is written. Nothing is done when `length` is zero or the two
/// addresses are equal; otherwise both ranges must lie inside the memory. On
/// a fault nothing is written, and the fault names the first address that
/// the copy, in its own order, would have failed to read or write. The copy runs upward when `dest` lies below
/// `src` and downward when it lies above, so that no source byte is
/// overwritten before it is read.
pub fn block_copy(mem: &mut GuestMemory, src: u32, dest: u32, length: u32) -> (r: Result<
    (),
    MemFault,
>)
    requires
        old(mem).wf(),
    ensures
        final(mem).wf(),
        r is Ok <==> (length == 0 || src == dest || (src as int + length as int <= old(mem)@.len()
            && dest as int + length as int <= old(mem)@.len())),
        r is Ok ==> final(mem)@ == copy_range(old(mem)@, src as int, dest as int, length as int),
        r is Err ==> final(mem)@ == old(mem)@,
        r is Err ==> r == Err::<(), MemFault>(
            MemFault::OutOfRange { address: copy_fault(old(mem)@.len() as int, src, dest, length) },
        ),
{
    if length == 0 || src == dest {
        assert(copy_range(mem@, src as int, dest as int, length as int) =~= mem@);
        return Ok(());
    }
    let size = mem.len();
    let src_ok = src <= size && size - src >= length;
    let dest_ok = dest <= size && size - dest >= length;
    if !src_ok || !dest_ok {
        let address = if dest < src {
            if src > size {
                src
            } else {
                size
            }
        } else {
            let last = if !src_ok {
                src as u64 + length as u64 - 1
            } else {
                dest as u64 + length as u64 - 1
            };
            if last > u32::MAX as u64 {
                u32::MAX
            } else {
                last as u32
            }
        };
        return Err(MemFault::OutOfRange { address });
    }
    let ghost orig = mem@;
    if dest < src {
        let mut i: u32 = 0;
        while i < length
            invariant
                mem.wf(),
                dest < src,
                i <= length,
                src as int + length as int <= orig.len(),
                dest as int + length as int <= orig.len(),
                mem@ == copy_range(orig, src as int, dest as int, i as int),
            decreases length - i,
        {
            let b = mem.read_u8(src + i).unwrap();
            mem.write_u8(dest + i, b).unwrap();
            i = i + 1;
            assert(mem@ =~= copy_range(orig, src as int, dest as int, i as int));
        }
    } else {
        let mut i: u32 = length;
        while i > 0
            invariant
                mem.wf(),
                dest > src,
                i <= length,
                src as int + length as int <= orig.len(),
                dest as int + length as int <= orig.len(),
                mem@ == Seq::new(
                    orig.len(),
                    |k: int|
                        if dest + i <= k < dest + length {
                            orig[src + (k - dest)]
                        } else {
                            orig[k]
                        },
                ),
            decreases i,
        {
            i = i - 1;
            let b = mem.read_u8(src + i).unwrap();
            mem.write_u8(dest + i, b).unwrap();
            assert(mem@ =~= Seq::new(
                orig.len(),
                |k: int|
                    if dest + i <= k < dest + length {
                        orig[src + (k - dest)]
                    } else {
                        orig[k]
                    },
            ));
        }
        assert(mem@ =~= copy_range(orig, src as int, dest as int, length as int));
    }
    Ok(())
}

} // verus!

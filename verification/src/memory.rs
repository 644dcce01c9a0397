use vstd::prelude::*;

use vstd::bytes::spec_u32_from_le_bytes;
use vstd::bytes::spec_u32_to_le_bytes;
use vstd::bytes::u32_from_le_bytes;
use vstd::bytes::u32_to_le_bytes;
use vstd::slice::slice_subrange;

use crate::error::EngineError;

verus! {

/// Lowest address the allocator hands out; the region below it models the
/// guest's static data segment, where return areas live.
pub const STATIC_RESERVE: u32 = 1024;

/// Alignment of `n` rounded up to a multiple of `a`.
pub open spec fn align_up(n: int, a: int) -> int
    recommends
        a > 0,
{
    if n % a == 0 {
        n
    } else {
        n + a - n % a
    }
}

/// Rounding up to an alignment moves a pointer forward by less than the
/// alignment; alignment one moves it not at all.
pub proof fn lemma_align_up_bounds(n: int, a: int)
    requires
        0 <= n,
        0 < a,
    ensures
        n <= align_up(n, a) < n + a,
        align_up(n, 1) == n,
{
    assert(0 <= n % a < a);
    assert(n % 1 == 0);
}

/// The guest's linear memory together with the state of its canonical
/// allocator: a flat, bounds-checked byte space, a bump pointer, and the
/// list of live heap allocations in allocation order.
///
/// Every pointer/length pair crossing the host/guest boundary is validated
/// against the current bounds before any access; an out-of-bounds access is
/// a hard failure for the invocation, never undefined behaviour.
pub struct GuestMemory {
    bytes: Vec<u8>,
    next: u32,
    live: Vec<(u32, u32)>,
}

impl View for GuestMemory {
    type V = Seq<u8>;

    closed spec fn view(&self) -> Seq<u8> {
        self.bytes@
    }
}

impl GuestMemory {
    /// The bump pointer stays within memory, and every live allocation lies
    /// wholly below it.
    #[verifier::type_invariant]
    closed spec fn inv(self) -> bool {
        &&& self.bytes@.len() <= u32::MAX
        &&& self.next <= self.bytes@.len()
        &&& forall|i: int|
            0 <= i < self.live@.len() ==> (#[trigger] self.live@[i]).0 + self.live@[i].1
                <= self.next
    }

    /// The bump pointer: every address at or above it is unallocated.
    pub closed spec fn spec_next(self) -> u32 {
        self.next
    }

    /// The live heap allocations, as (pointer, size) pairs in allocation
    /// order.
    pub closed spec fn live_view(self) -> Seq<(u32, u32)> {
        self.live@
    }

    /// A fresh zeroed linear memory of `size` bytes; allocation starts above
    /// the reserved static segment.
    #[verifier::loop_isolation(false)]
    pub fn new(size: u32) -> (r: GuestMemory)
        ensures
            r@.len() == size,
            forall|i: int| 0 <= i < size ==> r@[i] == 0,
            r.spec_next() == if size < STATIC_RESERVE {
                size
            } else {
                STATIC_RESERVE
            },
            r.live_view() == Seq::<(u32, u32)>::empty(),
    {
        let mut bytes: Vec<u8> = Vec::new();
        let mut i: u32 = 0;
        while i < size
            invariant
                0 <= i <= size,
                bytes@.len() == i,
                forall|j: int| 0 <= j < i ==> bytes@[j] == 0,
            decreases size - i,
        {
            bytes.push(0);
            i = i + 1;
        }
        let next = if size < STATIC_RESERVE {
            size
        } else {
            STATIC_RESERVE
        };
        GuestMemory { bytes, next, live: Vec::new() }
    }

    /// Number of live heap allocations, for leak accounting.
    pub fn live_count(&self) -> (r: usize)
        ensures
            r == self.live_view().len(),
    {
        self.live.len()
    }

    /// Size of the linear memory in bytes. A linear memory always lies
    /// within the 32-bit address range, with its bump pointer in bounds.
    pub fn mem_size(&self) -> (r: usize)
        ensures
            r == self@.len(),
            self@.len() <= u32::MAX,
            self.spec_next() <= self@.len(),
    {
        proof {
            use_type_invariant(&*self);
        }
        self.bytes.len()
    }

    /// Allocate `size` bytes aligned to `align` from the bump allocator and
    /// record the region as live. This models the canonical guest allocator
    /// reached through the `canonical_abi_realloc` export.
    pub fn allocate(&mut self, size: u32, align: u32) -> (r: Result<u32, EngineError>)
        ensures
            match r {
                Ok(ptr) => {
                    &&& align > 0
                    &&& ptr == align_up(old(self).spec_next() as int, align as int)
                    &&& old(self).spec_next() <= ptr
                    &&& ptr + size <= final (self)@.len()
                    &&& final (self)@ == old(self)@
                    &&& final (self).spec_next() == ptr + size
                    &&& final (self).live_view() == old(self).live_view().push((ptr, size))
                },
                Err(e) => {
                    &&& *final (self) == *old(self)
                    &&& (e == EngineError::SizeOverflow || e == EngineError::AllocFailed)
                    &&& (align > 0 ==> e == EngineError::AllocFailed && align_up(
                        old(self).spec_next() as int,
                        align as int,
                    ) + size > old(self)@.len())
                },
            },
    {
        proof {
            use_type_invariant(&*self);
        }
        if align == 0 {
            return Err(EngineError::SizeOverflow);
        }
        let rem = self.next % align;
        let pad: u32 = if rem == 0 {
            0
        } else {
            align - rem
        };
        let ptr64: u64 = self.next as u64 + pad as u64;
        let end64: u64 = ptr64 + size as u64;
        if end64 > self.bytes.len() as u64 {
            return Err(EngineError::AllocFailed);
        }
        let ptr: u32 = self.next + pad;
        self.next = ptr + size;
        let mut l: Vec<(u32, u32)> = Vec::new();
        core::mem::swap(&mut l, &mut self.live);
        l.push((ptr, size));
        core::mem::swap(&mut l, &mut self.live);
        Ok(ptr)
    }

    /// Release one live allocation, removing exactly one occurrence of the
    /// region from the live set. This models the `canonical_abi_free`
    /// export; freeing a region that is not live is reported, never ignored.
    #[verifier::loop_isolation(false)]
    pub fn free(&mut self, ptr: u32, size: u32, align: u32) -> (r: Result<(), EngineError>)
        ensures
            match r {
                Ok(_) => {
                    &&& exists|i: int|
                        #![auto]
                        0 <= i < old(self).live_view().len() && old(self).live_view()[i] == (
                        ptr,
                        size,
                        ) && (forall|j: int|
                            0 <= j < i ==> old(self).live_view()[j] != (ptr, size)) && final (
                        self).live_view() == old(self).live_view().remove(i)
                    &&& old(self).live_view().contains((ptr, size))
                    &&& final (self)@ == old(self)@
                    &&& final (self).spec_next() == old(self).spec_next()
                },
                Err(e) => {
                    &&& e == EngineError::NotLive
                    &&& !old(self).live_view().contains((ptr, size))
                    &&& *final (self) == *old(self)
                },
            },
    {
        proof {
            use_type_invariant(&*self);
        }
        let _ = align;
        let n = self.live.len();
        let mut i: usize = 0;
        while i < n
            invariant
                n == self.live@.len(),
                0 <= i <= n,
                forall|j: int| 0 <= j < i ==> self.live@[j] != (ptr, size),
                self == old(self),
            decreases n - i,
        {
            let e = self.live[i];
            if e.0 == ptr && e.1 == size {
                let mut l: Vec<(u32, u32)> = Vec::new();
                core::mem::swap(&mut l, &mut self.live);
                l.remove(i);
                core::mem::swap(&mut l, &mut self.live);
                proof {
                    assert(old(self).live_view()[i as int] == (ptr, size));
                    assert(self.live@ == old(self).live_view().remove(i as int));
                }
                return Ok(());
            }
            i = i + 1;
        }
        assert(forall|j: int| 0 <= j < old(self).live_view().len() ==> old(self).live_view()[j] != (
        ptr,
        size,
        ));
        Err(EngineError::NotLive)
    }

    /// Copy `data` into memory at `ptr`, bounds-checked.
    #[verifier::loop_isolation(false)]
    pub fn write_bytes(&mut self, ptr: u32, data: &Vec<u8>) -> (r: Result<(), EngineError>)
        ensures
            match r {
                Ok(_) => {
                    &&& ptr + data@.len() <= old(self)@.len()
                    &&& final (self)@.len() == old(self)@.len()
                    &&& forall|i: int|
                        0 <= i < old(self)@.len() ==> final (self)@[i] == if ptr <= i < ptr
                            + data@.len() {
                            data@[i - ptr]
                        } else {
                            old(self)@[i]
                        }
                    &&& final (self).spec_next() == old(self).spec_next()
                    &&& final (self).live_view() == old(self).live_view()
                },
                Err(e) => {
                    &&& e == EngineError::OutOfBounds
                    &&& ptr + data@.len() > old(self)@.len()
                    &&& *final (self) == *old(self)
                },
            },
    {
        proof {
            use_type_invariant(&*self);
        }
        if data.len() as u64 > self.bytes.len() as u64 || ptr as u64 > self.bytes.len() as u64
            - data.len() as u64 {
            return Err(EngineError::OutOfBounds);
        }
        let mut i: usize = 0;
        let n = data.len();
        while i < n
            invariant
                n == data@.len(),
                0 <= i <= n,
                ptr + n <= self.bytes@.len(),
                self.bytes@.len() == old(self)@.len(),
                self.next == old(self).spec_next(),
                self.live == old(self).live,
                forall|k: int|
                    0 <= k < old(self)@.len() ==> self.bytes@[k] == if ptr <= k < ptr + i {
                        data@[k - ptr]
                    } else {
                        old(self)@[k]
                    },
            decreases n - i,
        {
            let idx: usize = ptr as usize + i;
            self.bytes[idx] = data[i];
            i = i + 1;
        }
        Ok(())
    }

    /// Copy `len` bytes out of memory starting at `ptr`, bounds-checked.
    #[verifier::loop_isolation(false)]
    pub fn read_bytes(&self, ptr: u32, len: u32) -> (r: Result<Vec<u8>, EngineError>)
        ensures
            match r {
                Ok(v) => {
                    &&& ptr + len <= self@.len()
                    &&& v@ == self@.subrange(ptr as int, ptr as int + len as int)
                },
                Err(e) => {
                    &&& e == EngineError::OutOfBounds
                    &&& ptr + len > self@.len()
                },
            },
    {
        if len as u64 > self.bytes.len() as u64 || ptr as u64 > self.bytes.len() as u64
            - len as u64 {
            return Err(EngineError::OutOfBounds);
        }
        let mut out: Vec<u8> = Vec::new();
        let mut i: usize = 0;
        while i < len as usize
            invariant
                0 <= i <= len,
                ptr + len <= self.bytes@.len(),
                out@.len() == i,
                forall|k: int| 0 <= k < i ==> out@[k] == self.bytes@[ptr + k],
            decreases len - i,
        {
            out.push(self.bytes[ptr as usize + i]);
            i = i + 1;
        }
        assert(out@ =~= self@.subrange(ptr as int, ptr as int + len as int));
        Ok(out)
    }

    /// Load a little-endian 32-bit integer, bounds-checked.
    pub fn load_u32(&self, ptr: u32) -> (r: Result<u32, EngineError>)
        ensures
            match r {
                Ok(x) => {
                    &&& ptr + 4 <= self@.len()
                    &&& x == spec_u32_from_le_bytes(self@.subrange(ptr as int, ptr as int + 4))
                },
                Err(e) => {
                    &&& e == EngineError::OutOfBounds
                    &&& ptr + 4 > self@.len()
                },
            },
    {
        if self.bytes.len() < 4 || ptr as u64 > self.bytes.len() as u64 - 4 {
            return Err(EngineError::OutOfBounds);
        }
        let s = slice_subrange(self.bytes.as_slice(), ptr as usize, ptr as usize + 4);
        Ok(u32_from_le_bytes(s))
    }

    /// Store a little-endian 32-bit integer, bounds-checked.
    pub fn store_u32(&mut self, ptr: u32, x: u32) -> (r: Result<(), EngineError>)
        ensures
            match r {
                Ok(_) => {
                    &&& ptr + 4 <= old(self)@.len()
                    &&& final (self)@.len() == old(self)@.len()
                    &&& final (self)@.subrange(ptr as int, ptr as int + 4) == spec_u32_to_le_bytes(
                        x,
                    )
                    &&& forall|i: int|
                        0 <= i < old(self)@.len() && !(ptr <= i < ptr + 4) ==> final (self)@[i]
                            == old(self)@[i]
                    &&& final (self).spec_next() == old(self).spec_next()
                    &&& final (self).live_view() == old(self).live_view()
                },
                Err(e) => {
                    &&& e == EngineError::OutOfBounds
                    &&& ptr + 4 > old(self)@.len()
                    &&& *final (self) == *old(self)
                },
            },
    {
        let b = u32_to_le_bytes(x);
        let r = self.write_bytes(ptr, &b);
        match r {
            Ok(_) => {
                assert(self@.subrange(ptr as int, ptr as int + 4) =~= spec_u32_to_le_bytes(x));
                Ok(())
            },
            Err(e) => Err(e),
        }
    }
}

} // verus!

//! The shadow tracker: one state per byte of the address space, a stack
//! pointer, and the rules by which each operation is accepted or refused.
use vstd::prelude::*;

verus! {

/// What is known of one byte of the tracked address space.
#[derive(Clone, Copy, Debug, PartialEq, Eq, Structural)]
pub enum MemState {
    /// No live allocation owns the byte.
    Unallocated,
    /// Owned by a live allocation and never written.
    ValidToWrite,
    /// Owned and initialised.
    ValidToReadWrite,
}

/// Why an operation was refused. Each variant carries the operation's own
/// arguments, not the byte that caused the refusal.
#[derive(Clone, Copy, Debug, PartialEq, Eq, Structural)]
pub enum AccessError {
    DoubleMalloc { addr: usize, len: usize },
    InvalidRead { addr: usize, len: usize },
    InvalidWrite { addr: usize, len: usize },
    DoubleFree { addr: usize, len: usize },
    OutOfBounds { addr: usize, len: usize },
    /// A free by address that matches no live allocation.
    InvalidFree { addr: usize },
}

/// `s` with every position of `[lo, hi)` set to `v`.
pub open spec fn fill(s: Seq<MemState>, lo: int, hi: int, v: MemState) -> Seq<MemState> {
    Seq::new(s.len(), |i: int| if lo <= i < hi { v } else { s[i] })
}

/// The abstract state of a tracker: one state per byte, the stack pointer and
/// the fixed size of the stack region `[0, max_stack_size)`.
pub struct ShadowState {
    pub metadata: Seq<MemState>,
    pub stack_pointer: nat,
    pub max_stack_size: nat,
}

impl ShadowState {
    pub open spec fn mem_size(self) -> nat {
        self.metadata.len()
    }

    pub open spec fn wf(self) -> bool {
        self.stack_pointer <= self.max_stack_size <= self.mem_size()
    }

    /// A fresh tracker: everything unallocated, empty stack.
    pub open spec fn fresh(mem_size: nat, max_stack_size: nat) -> ShadowState {
        ShadowState {
            metadata: Seq::new(mem_size, |i: int| MemState::Unallocated),
            stack_pointer: max_stack_size,
            max_stack_size,
        }
    }

    /// `[addr, addr + len)` lies inside `[0, mem_size)`.
    pub open spec fn in_memory(self, addr: int, len: int) -> bool {
        addr + len <= self.mem_size()
    }

    /// `[addr, addr + len)` lies inside memory and starts strictly above the
    /// stack region: the rule for allocation.
    pub open spec fn in_heap(self, addr: int, len: int) -> bool {
        self.max_stack_size < addr && addr + len <= self.mem_size()
    }

    /// No byte of `[addr, addr + len)` is owned.
    pub open spec fn all_unallocated(self, addr: int, len: int) -> bool {
        forall|i: int| addr <= i < addr + len ==> self.metadata[i] == MemState::Unallocated
    }

    /// Every byte of `[addr, addr + len)` is owned.
    pub open spec fn all_owned(self, addr: int, len: int) -> bool {
        forall|i: int| addr <= i < addr + len ==> self.metadata[i] != MemState::Unallocated
    }

    /// Every byte of `[addr, addr + len)` is owned and initialised.
    pub open spec fn all_initialised(self, addr: int, len: int) -> bool {
        forall|i: int| addr <= i < addr + len ==> self.metadata[i] == MemState::ValidToReadWrite
    }

    /// The state with every byte of `[addr, addr + len)` set to `v`.
    pub open spec fn with_range(self, addr: int, len: int, v: MemState) -> ShadowState {
        ShadowState { metadata: fill(self.metadata, addr, addr + len, v), ..self }
    }

    /// The verdict on allocating `[addr, addr + len)`.
    pub open spec fn malloc_result(self, addr: usize, len: usize) -> Result<(), AccessError> {
        if !self.in_heap(addr as int, len as int) {
            Err(AccessError::OutOfBounds { addr, len })
        } else if !self.all_unallocated(addr as int, len as int) {
            Err(AccessError::DoubleMalloc { addr, len })
        } else {
            Ok(())
        }
    }

    /// The state after that allocation; unchanged where it is refused.
    pub open spec fn after_malloc(self, addr: usize, len: usize) -> ShadowState {
        if self.malloc_result(addr, len) is Ok {
            self.with_range(addr as int, len as int, MemState::ValidToWrite)
        } else {
            self
        }
    }

    /// The verdict on reading `[addr, addr + len)`.
    pub open spec fn read_result(self, addr: usize, len: usize) -> Result<(), AccessError> {
        if !self.in_memory(addr as int, len as int) {
            Err(AccessError::OutOfBounds { addr, len })
        } else if !self.all_initialised(addr as int, len as int) {
            Err(AccessError::InvalidRead { addr, len })
        } else {
            Ok(())
        }
    }

    /// The verdict on writing `[addr, addr + len)`.
    pub open spec fn write_result(self, addr: usize, len: usize) -> Result<(), AccessError> {
        if !self.in_memory(addr as int, len as int) {
            Err(AccessError::OutOfBounds { addr, len })
        } else if !self.all_owned(addr as int, len as int) {
            Err(AccessError::InvalidWrite { addr, len })
        } else {
            Ok(())
        }
    }

    /// The state after that write; unchanged where it is refused.
    pub open spec fn after_write(self, addr: usize, len: usize) -> ShadowState {
        if self.write_result(addr, len) is Ok {
            self.with_range(addr as int, len as int, MemState::ValidToReadWrite)
        } else {
            self
        }
    }

    /// The verdict on freeing `[addr, addr + len)`.
    pub open spec fn free_result(self, addr: usize, len: usize) -> Result<(), AccessError> {
        if !self.in_memory(addr as int, len as int) {
            Err(AccessError::OutOfBounds { addr, len })
        } else if !self.all_owned(addr as int, len as int) {
            Err(AccessError::DoubleFree { addr, len })
        } else {
            Ok(())
        }
    }

    /// The state after that free; unchanged where it is refused.
    pub open spec fn after_free(self, addr: usize, len: usize) -> ShadowState {
        if self.free_result(addr, len) is Ok {
            self.with_range(addr as int, len as int, MemState::Unallocated)
        } else {
            self
        }
    }

    /// The verdict on pushing `num_bytes` onto the stack.
    pub open spec fn grow_stack_result(self, num_bytes: usize) -> Result<(), AccessError> {
        if self.stack_pointer < num_bytes {
            Err(AccessError::OutOfBounds { addr: self.stack_pointer as usize, len: num_bytes })
        } else {
            Ok(())
        }
    }

    /// The state after that push; unchanged where it is refused.
    pub open spec fn after_grow_stack(self, num_bytes: usize) -> ShadowState {
        if self.grow_stack_result(num_bytes) is Ok {
            let lo = self.stack_pointer - num_bytes;
            ShadowState {
                metadata: fill(self.metadata, lo, self.stack_pointer as int, MemState::ValidToReadWrite),
                stack_pointer: lo as nat,
                ..self
            }
        } else {
            self
        }
    }

    /// The verdict on popping `num_bytes` off the stack.
    pub open spec fn shrink_stack_result(self, num_bytes: usize) -> Result<(), AccessError> {
        if self.stack_pointer + num_bytes > self.max_stack_size {
            Err(AccessError::OutOfBounds { addr: self.stack_pointer as usize, len: num_bytes })
        } else {
            Ok(())
        }
    }

    /// The state after that pop; unchanged where it is refused.
    pub open spec fn after_shrink_stack(self, num_bytes: usize) -> ShadowState {
        if self.shrink_stack_result(num_bytes) is Ok {
            let hi = self.stack_pointer + num_bytes;
            ShadowState {
                metadata: fill(self.metadata, self.stack_pointer as int, hi, MemState::Unallocated),
                stack_pointer: hi as nat,
                ..self
            }
        } else {
            self
        }
    }
}

/// The shadow tracker: a state per byte of `[0, mem_size)` and a stack
/// pointer that moves inside the stack region `[0, max_stack_size)`.
pub struct Valgrind {
    metadata: Vec<MemState>,
    stack_pointer: usize,
    max_stack_size: usize,
}

impl View for Valgrind {
    type V = ShadowState;

    closed spec fn view(&self) -> ShadowState {
        ShadowState {
            metadata: self.metadata@,
            stack_pointer: self.stack_pointer as nat,
            max_stack_size: self.max_stack_size as nat,
        }
    }
}

impl Valgrind {
    pub open spec fn wf(&self) -> bool {
        self@.wf()
    }

    /// A tracker over `[0, mem_size)` whose stack region is
    /// `[0, max_stack_size)`, with every byte unallocated and the stack empty.
    pub fn new(mem_size: usize, max_stack_size: usize) -> (r: Valgrind)
        requires
            max_stack_size <= mem_size,
        ensures
            r.wf(),
            r@ == ShadowState::fresh(mem_size as nat, max_stack_size as nat),
    {
        let metadata = vec![MemState::Unallocated; mem_size];
        let stack_pointer = max_stack_size;
        let r = Valgrind { metadata, stack_pointer, max_stack_size };
        assert(r@.metadata =~= ShadowState::fresh(mem_size as nat, max_stack_size as nat).metadata);
        r
    }

    pub fn stack_pointer(&self) -> (r: usize)
        ensures
            r == self@.stack_pointer,
    {
        self.stack_pointer
    }

    pub fn max_stack_size(&self) -> (r: usize)
        ensures
            r == self@.max_stack_size,
    {
        self.max_stack_size
    }

    pub fn mem_size(&self) -> (r: usize)
        ensures
            r == self@.mem_size(),
    {
        self.metadata.len()
    }

    /// The state of byte `addr`.
    pub fn state_at(&self, addr: usize) -> (r: MemState)
        requires
            addr < self@.mem_size(),
        ensures
            r == self@.metadata[addr as int],
    {
        self.metadata[addr]
    }

    /// The allocation rule: `[addr, addr + len)` lies inside memory and
    /// starts strictly above the stack region.
    pub fn is_in_bounds(&self, addr: usize, len: usize) -> (r: bool)
        ensures
            r == self@.in_heap(addr as int, len as int),
            self@.mem_size() <= usize::MAX,
    {
        len <= self.metadata.len() && addr <= self.metadata.len() - len && self.max_stack_size < addr
    }

    /// `[addr, addr + len)` lies inside memory; no sum is formed, so nothing
    /// wraps around.
    fn in_memory(&self, addr: usize, len: usize) -> (r: bool)
        ensures
            r == self@.in_memory(addr as int, len as int),
            self@.mem_size() <= usize::MAX,
    {
        len <= self.metadata.len() && addr <= self.metadata.len() - len
    }

    /// Whether some byte of `[addr, addr + len)` is owned.
    fn any_owned(&self, addr: usize, len: usize) -> (r: bool)
        requires
            self@.in_memory(addr as int, len as int),
            self@.mem_size() <= usize::MAX,
        ensures
            r == !self@.all_unallocated(addr as int, len as int),
    {
        for i in addr..addr + len
            invariant
                self@.in_memory(addr as int, len as int),
                self@.all_unallocated(addr as int, i - addr),
        {
            if self.metadata[i] != MemState::Unallocated {
                return true;
            }
        }
        false
    }

    /// Whether some byte of `[addr, addr + len)` is unallocated.
    fn any_unallocated(&self, addr: usize, len: usize) -> (r: bool)
        requires
            self@.in_memory(addr as int, len as int),
            self@.mem_size() <= usize::MAX,
        ensures
            r == !self@.all_owned(addr as int, len as int),
    {
        for i in addr..addr + len
            invariant
                self@.in_memory(addr as int, len as int),
                self@.all_owned(addr as int, i - addr),
        {
            if self.metadata[i] == MemState::Unallocated {
                return true;
            }
        }
        false
    }

    /// Whether some byte of `[addr, addr + len)` is not initialised.
    fn any_uninitialised(&self, addr: usize, len: usize) -> (r: bool)
        requires
            self@.in_memory(addr as int, len as int),
            self@.mem_size() <= usize::MAX,
        ensures
            r == !self@.all_initialised(addr as int, len as int),
    {
        for i in addr..addr + len
            invariant
                self@.in_memory(addr as int, len as int),
                self@.all_initialised(addr as int, i - addr),
        {
            if self.metadata[i] != MemState::ValidToReadWrite {
                return true;
            }
        }
        false
    }

    /// Sets every byte of `[addr, addr + len)` to `v`.
    fn set_range(&mut self, addr: usize, len: usize, v: MemState)
        requires
            old(self)@.in_memory(addr as int, len as int),
            addr + len <= usize::MAX,
        ensures
            final(self)@ == old(self)@.with_range(addr as int, len as int, v),
    {
        let ghost start = self@;
        assert(self@.metadata =~= fill(start.metadata, addr as int, addr as int, v));
        for i in addr..addr + len
            invariant
                start.in_memory(addr as int, len as int),
                self@ == start.with_range(addr as int, i - addr, v),
        {
            self.metadata.set(i, v);
            assert(self@.metadata =~= fill(start.metadata, addr as int, i + 1, v));
        }
        assert(self@.metadata =~= fill(start.metadata, addr as int, addr + len, v));
    }

    /// Allocates `[addr, addr + len)`: every byte becomes `ValidToWrite`.
    /// Refused with `OutOfBounds` outside the heap and with `DoubleMalloc`
    /// where a byte is already owned; a refusal changes nothing.
    pub fn malloc(&mut self, addr: usize, len: usize) -> (r: Result<(), AccessError>)
        requires
            old(self).wf(),
        ensures
            final(self).wf(),
            r == old(self)@.malloc_result(addr, len),
            final(self)@ == old(self)@.after_malloc(addr, len),
    {
        if !self.is_in_bounds(addr, len) {
            return Err(AccessError::OutOfBounds { addr: addr, len: len });
        }
        if self.any_owned(addr, len) {
            return Err(AccessError::DoubleMalloc { addr: addr, len: len });
        }
        self.set_range(addr, len, MemState::ValidToWrite);
        Ok(())
    }

    /// Checks a read of `[addr, addr + len)`: every byte must be initialised.
    pub fn read(&mut self, addr: usize, len: usize) -> (r: Result<(), AccessError>)
        requires
            old(self).wf(),
        ensures
            r == old(self)@.read_result(addr, len),
            *final(self) == *old(self),
    {
        if !self.in_memory(addr, len) {
            return Err(AccessError::OutOfBounds { addr: addr, len: len });
        }
        if self.any_uninitialised(addr, len) {
            return Err(AccessError::InvalidRead { addr: addr, len: len });
        }
        Ok(())
    }

    /// Writes `[addr, addr + len)`: every byte must be owned, and becomes
    /// initialised.
    pub fn write(&mut self, addr: usize, len: usize) -> (r: Result<(), AccessError>)
        requires
            old(self).wf(),
        ensures
            final(self).wf(),
            r == old(self)@.write_result(addr, len),
            final(self)@ == old(self)@.after_write(addr, len),
    {
        if !self.in_memory(addr, len) {
            return Err(AccessError::OutOfBounds { addr: addr, len: len });
        }
        if self.any_unallocated(addr, len) {
            return Err(AccessError::InvalidWrite { addr: addr, len: len });
        }
        self.set_range(addr, len, MemState::ValidToReadWrite);
        Ok(())
    }

    /// Frees `[addr, addr + len)`: every byte must be owned, and becomes
    /// unallocated.
    pub fn free(&mut self, addr: usize, len: usize) -> (r: Result<(), AccessError>)
        requires
            old(self).wf(),
        ensures
            final(self).wf(),
            r == old(self)@.free_result(addr, len),
            final(self)@ == old(self)@.after_free(addr, len),
    {
        if !self.in_memory(addr, len) {
            return Err(AccessError::OutOfBounds { addr: addr, len: len });
        }
        if self.any_unallocated(addr, len) {
            return Err(AccessError::DoubleFree { addr: addr, len: len });
        }
        self.set_range(addr, len, MemState::Unallocated);
        Ok(())
    }

    /// Pops `num_bytes` off the stack: they become unallocated and the stack
    /// pointer moves up. Refused where that would pass the stack region's top.
    pub fn shrink_stack(&mut self, num_bytes: usize) -> (r: Result<(), AccessError>)
        requires
            old(self).wf(),
        ensures
            final(self).wf(),
            r == old(self)@.shrink_stack_result(num_bytes),
            final(self)@ == old(self)@.after_shrink_stack(num_bytes),
    {
        if num_bytes > self.max_stack_size - self.stack_pointer {
            return Err(AccessError::OutOfBounds { addr: self.stack_pointer, len: num_bytes });
        }
        self.set_range(self.stack_pointer, num_bytes, MemState::Unallocated);
        self.stack_pointer = self.stack_pointer + num_bytes;
        Ok(())
    }

    /// Pushes `num_bytes` onto the stack: they become initialised and the
    /// stack pointer moves down. Refused where that would pass address 0.
    pub fn grow_stack(&mut self, num_bytes: usize) -> (r: Result<(), AccessError>)
        requires
            old(self).wf(),
        ensures
            final(self).wf(),
            r == old(self)@.grow_stack_result(num_bytes),
            final(self)@ == old(self)@.after_grow_stack(num_bytes),
    {
        if self.stack_pointer < num_bytes {
            return Err(AccessError::OutOfBounds { addr: self.stack_pointer, len: num_bytes });
        }
        let lo = self.stack_pointer - num_bytes;
        self.set_range(lo, num_bytes, MemState::ValidToReadWrite);
        self.stack_pointer = lo;
        Ok(())
    }
}

/// Allocating a free heap range and then freeing it succeeds both times and
/// gives back exactly the state before: every byte of the range is
/// unallocated again.
pub proof fn lemma_malloc_free_round_trip(s: ShadowState, addr: usize, len: usize)
    requires
        s.in_heap(addr as int, len as int),
        s.all_unallocated(addr as int, len as int),
    ensures
        s.malloc_result(addr, len) is Ok,
        s.after_malloc(addr, len).free_result(addr, len) is Ok,
        s.after_malloc(addr, len).after_free(addr, len) == s,
{
    let s1 = s.after_malloc(addr, len);
    assert(s1.all_owned(addr as int, len as int));
    assert(s1.after_free(addr, len).metadata =~= s.metadata);
}

/// After a successful allocation of a non-empty range, reading the range
/// before any write is refused as an invalid read.
pub proof fn lemma_read_before_write(s: ShadowState, addr: usize, len: usize)
    requires
        s.malloc_result(addr, len) is Ok,
        len > 0,
    ensures
        s.after_malloc(addr, len).read_result(addr, len) == Err::<(), AccessError>(
            AccessError::InvalidRead { addr, len },
        ),
{
    assert(s.after_malloc(addr, len).metadata[addr as int] == MemState::ValidToWrite);
}

/// Allocate, write and free a non-empty range: each step succeeds, and
/// afterwards both a write and a read of the range are refused.
pub proof fn lemma_use_after_free(s: ShadowState, addr: usize, len: usize)
    requires
        s.malloc_result(addr, len) is Ok,
        len > 0,
    ensures
        s.after_malloc(addr, len).write_result(addr, len) is Ok,
        s.after_malloc(addr, len).after_write(addr, len).free_result(addr, len) is Ok,
        s.after_malloc(addr, len).after_write(addr, len).after_free(addr, len).write_result(addr, len)
            == Err::<(), AccessError>(AccessError::InvalidWrite { addr, len }),
        s.after_malloc(addr, len).after_write(addr, len).after_free(addr, len).read_result(addr, len)
            == Err::<(), AccessError>(AccessError::InvalidRead { addr, len }),
{
    let s1 = s.after_malloc(addr, len);
    assert(s1.all_owned(addr as int, len as int));
    let s2 = s1.after_write(addr, len);
    assert(s2.all_owned(addr as int, len as int));
    let s3 = s2.after_free(addr, len);
    assert(s3.metadata[addr as int] == MemState::Unallocated);
}

/// Freeing the same non-empty range of memory twice: the second free is
/// refused as a double free, whatever the first did.
pub proof fn lemma_double_free(s: ShadowState, addr: usize, len: usize)
    requires
        s.in_memory(addr as int, len as int),
        len > 0,
    ensures
        s.after_free(addr, len).free_result(addr, len) == Err::<(), AccessError>(
            AccessError::DoubleFree { addr, len },
        ),
{
    if s.free_result(addr, len) is Ok {
        assert(s.after_free(addr, len).metadata[addr as int] == MemState::Unallocated);
    }
}

/// Allocating the same non-empty heap range twice: the second allocation is
/// refused as a double malloc, whatever the first did.
pub proof fn lemma_double_malloc(s: ShadowState, addr: usize, len: usize)
    requires
        s.in_heap(addr as int, len as int),
        len > 0,
    ensures
        s.after_malloc(addr, len).malloc_result(addr, len) == Err::<(), AccessError>(
            AccessError::DoubleMalloc { addr, len },
        ),
{
    if s.malloc_result(addr, len) is Ok {
        assert(s.after_malloc(addr, len).metadata[addr as int] == MemState::ValidToWrite);
    }
}

/// After a successful allocation of at least two bytes, an allocation of the
/// same length one byte further on overlaps it and is refused as a double
/// malloc, where it lies in the heap.
pub proof fn lemma_overlapping_malloc(s: ShadowState, addr: usize, len: usize, next: usize)
    requires
        s.malloc_result(addr, len) is Ok,
        len >= 2,
        next == addr + 1,
        s.in_heap(next as int, len as int),
    ensures
        s.after_malloc(addr, len).malloc_result(next, len) == Err::<(), AccessError>(
            AccessError::DoubleMalloc { addr: next, len },
        ),
{
    assert(s.after_malloc(addr, len).metadata[addr + 1] == MemState::ValidToWrite);
}

/// An allocation that reaches past the end of memory is out of bounds,
/// whatever the state.
pub proof fn lemma_malloc_past_end(s: ShadowState, addr: usize, len: usize)
    requires
        addr + len > s.mem_size(),
    ensures
        s.malloc_result(addr, len) == Err::<(), AccessError>(AccessError::OutOfBounds { addr, len }),
{
}

/// Moving the stack pointer leaves every allocation verdict as it was.
pub proof fn lemma_stack_leaves_heap_alone(s: ShadowState, num_bytes: usize, addr: usize, len: usize)
    requires
        s.wf(),
    ensures
        s.after_grow_stack(num_bytes).malloc_result(addr, len) == s.malloc_result(addr, len),
        s.after_shrink_stack(num_bytes).malloc_result(addr, len) == s.malloc_result(addr, len),
{
    let g = s.after_grow_stack(num_bytes);
    let h = s.after_shrink_stack(num_bytes);
    assert forall|i: int| s.max_stack_size < i < s.mem_size() implies g.metadata[i] == s.metadata[i]
        && h.metadata[i] == s.metadata[i] by {}
    if s.in_heap(addr as int, len as int) {
        assert(s.all_unallocated(addr as int, len as int) <==> g.all_unallocated(addr as int, len as int));
        assert(s.all_unallocated(addr as int, len as int) <==> h.all_unallocated(addr as int, len as int));
    }
}

/// Growing the stack past address 0, or shrinking it past the top of the
/// stack region, is out of bounds and changes nothing.
pub proof fn lemma_stack_refusals(s: ShadowState, num_bytes: usize)
    ensures
        num_bytes > s.stack_pointer ==> s.grow_stack_result(num_bytes) == Err::<(), AccessError>(
            AccessError::OutOfBounds { addr: s.stack_pointer as usize, len: num_bytes },
        ) && s.after_grow_stack(num_bytes) == s,
        s.stack_pointer + num_bytes > s.max_stack_size ==> s.shrink_stack_result(num_bytes) == Err::<
            (),
            AccessError,
        >(AccessError::OutOfBounds { addr: s.stack_pointer as usize, len: num_bytes })
            && s.after_shrink_stack(num_bytes) == s,
{
}

} // verus!

//! The allocation registry: the live allocations as `(addr, len)` records,
//! from which the verdicts of allocations and frees by address are predicted,
//! and a generator of command sequences paired with those predictions.
use vstd::prelude::*;
use crate::draw::{draw_in_range, draw_index, draw_ratio};
use crate::shadow::AccessError;
use libfuzzer_sys::arbitrary::Unstructured;

verus! {

/// A live allocation as the registry records it: `[addr, addr + len)`.
#[derive(Clone, Copy, Debug, PartialEq, Eq, Structural)]
pub struct Allocation {
    pub addr: usize,
    pub len: usize,
}

impl Allocation {
    pub open spec fn end(self) -> int {
        self.addr + self.len
    }

    /// The half-open ranges do not overlap.
    pub open spec fn disjoint(self, other: Allocation) -> bool {
        other.end() <= self.addr || self.end() <= other.addr
    }

    /// Byte `b` lies in the allocation.
    pub open spec fn contains(self, b: int) -> bool {
        self.addr <= b < self.end()
    }

    /// Inside memory and strictly above the stack region.
    pub open spec fn within(self, max_stack_size: nat, mem_size: nat) -> bool {
        max_stack_size < self.addr && self.end() <= mem_size
    }

    pub fn no_overlaps(&self, other: &Allocation) -> (r: bool)
        ensures
            r == self.disjoint(*other),
    {
        (other.addr <= self.addr && other.len <= self.addr - other.addr) || (self.addr
            <= other.addr && self.len <= other.addr - self.addr)
    }

    pub fn is_in_bounds(&self, max_stack_size: usize, mem_size: usize) -> (r: bool)
        ensures
            r == self.within(max_stack_size as nat, mem_size as nat),
    {
        max_stack_size < self.addr && self.len <= mem_size && self.addr <= mem_size - self.len
    }
}

/// An operation as the registry sees it: a free names a start address only.
#[derive(Clone, Copy, Debug, PartialEq, Eq, Structural)]
pub enum Command {
    Malloc { addr: usize, len: usize },
    Read { addr: usize, len: usize },
    Write { addr: usize, len: usize },
    Free { addr: usize },
}

/// The first position of `s` whose record starts at `addr`.
pub open spec fn first_match(s: Seq<Allocation>, addr: usize) -> int {
    choose|i: int|
        0 <= i < s.len() && s[i].addr == addr && forall|j: int| 0 <= j < i ==> s[j].addr != addr
}

/// The abstract registry: the live allocations in order of insertion, and
/// the bounds of the address space it was made for.
pub struct RegistryState {
    pub allocations: Seq<Allocation>,
    pub mem_size: nat,
    pub max_stack_size: nat,
}

impl RegistryState {
    pub open spec fn empty(mem_size: nat, max_stack_size: nat) -> RegistryState {
        RegistryState { allocations: Seq::empty(), mem_size, max_stack_size }
    }

    /// Every record has positive length and lies in the heap, and no two
    /// records overlap.
    pub open spec fn wf(self) -> bool {
        &&& forall|i: int| 0 <= i < self.allocations.len() ==> #[trigger] self.allocations[i].len > 0
        &&& forall|i: int|
            0 <= i < self.allocations.len() ==> #[trigger] self.allocations[i].within(
                self.max_stack_size,
                self.mem_size,
            )
        &&& forall|i: int, j: int|
            0 <= i < self.allocations.len() && 0 <= j < self.allocations.len() && i != j
                ==> #[trigger] self.allocations[i].disjoint(#[trigger] self.allocations[j])
    }

    pub open spec fn overlaps_any(self, a: Allocation) -> bool {
        exists|i: int| 0 <= i < self.allocations.len() && !#[trigger] self.allocations[i].disjoint(a)
    }

    pub open spec fn has_start(self, addr: usize) -> bool {
        exists|i: int| 0 <= i < self.allocations.len() && #[trigger] self.allocations[i].addr == addr
    }

    /// Predicted verdict of allocating `a`.
    pub open spec fn malloc_verdict(self, a: Allocation) -> Result<(), AccessError> {
        if !a.within(self.max_stack_size, self.mem_size) {
            Err(AccessError::OutOfBounds { addr: a.addr, len: a.len })
        } else if self.overlaps_any(a) {
            Err(AccessError::DoubleMalloc { addr: a.addr, len: a.len })
        } else {
            Ok(())
        }
    }

    /// Predicted verdict of freeing the allocation that starts at `addr`.
    pub open spec fn free_verdict(self, addr: usize) -> Result<(), AccessError> {
        if self.has_start(addr) {
            Ok(())
        } else {
            Err(AccessError::InvalidFree { addr })
        }
    }

    /// The length recorded for the allocation that starts at `addr`.
    pub open spec fn recorded_len(self, addr: usize) -> Option<usize> {
        if self.has_start(addr) {
            Some(self.allocations[first_match(self.allocations, addr)].len)
        } else {
            None
        }
    }

    /// The registry after `cmd`: an accepted allocation of positive length is
    /// appended, an accepted free drops the first record at its address, and
    /// everything else changes nothing.
    pub open spec fn after(self, cmd: Command) -> RegistryState {
        match cmd {
            Command::Malloc { addr, len } => {
                if len > 0 && self.malloc_verdict(Allocation { addr, len }) is Ok {
                    RegistryState {
                        allocations: self.allocations.push(Allocation { addr, len }),
                        ..self
                    }
                } else {
                    self
                }
            },
            Command::Free { addr } => {
                if self.free_verdict(addr) is Ok {
                    RegistryState {
                        allocations: self.allocations.remove(first_match(self.allocations, addr)),
                        ..self
                    }
                } else {
                    self
                }
            },
            _ => self,
        }
    }
}

/// The registry's predicted verdict for `cmd`; it predicts allocations and
/// frees, and passes reads and writes.
pub open spec fn oracle_verdict(r: RegistryState, cmd: Command) -> Result<(), AccessError> {
    match cmd {
        Command::Malloc { addr, len } => r.malloc_verdict(Allocation { addr, len }),
        Command::Free { addr } => r.free_verdict(addr),
        _ => Ok(()),
    }
}

/// The registry's predicted verdicts on `cmds`, run from `r`.
pub open spec fn oracle_verdicts(r: RegistryState, cmds: Seq<Command>) -> Seq<Result<(), AccessError>>
    decreases cmds.len(),
{
    if cmds.len() == 0 {
        Seq::empty()
    } else {
        seq![oracle_verdict(r, cmds[0])] + oracle_verdicts(r.after(cmds[0]), cmds.drop_first())
    }
}

/// Commands the registry predicts: allocations of positive length and frees.
pub open spec fn predictable(cmds: Seq<Command>) -> bool {
    forall|i: int|
        0 <= i < cmds.len() ==> match #[trigger] cmds[i] {
            Command::Malloc { addr, len } => len > 0,
            Command::Free { addr } => true,
            _ => false,
        }
}

/// The registry after each command of `cmds` in turn.
pub open spec fn registry_after_all(r: RegistryState, cmds: Seq<Command>) -> RegistryState
    decreases cmds.len(),
{
    if cmds.len() == 0 {
        r
    } else {
        registry_after_all(r.after(cmds[0]), cmds.drop_first())
    }
}

/// Extending a run by one command extends its predictions by the verdict
/// on that command in the registry the run left.
pub proof fn lemma_oracle_verdicts_push(r: RegistryState, cmds: Seq<Command>, c: Command)
    ensures
        oracle_verdicts(r, cmds.push(c)) == oracle_verdicts(r, cmds).push(
            oracle_verdict(registry_after_all(r, cmds), c),
        ),
        registry_after_all(r, cmds.push(c)) == registry_after_all(r, cmds).after(c),
    decreases cmds.len(),
{
    let cs = cmds.push(c);
    if cmds.len() == 0 {
        let e = Seq::<Command>::empty();
        assert(cs.drop_first() =~= e);
        assert(cs[0] == c);
        assert(oracle_verdicts(r.after(c), e) == Seq::<Result<(), AccessError>>::empty());
        assert(oracle_verdicts(r, cs) =~= seq![oracle_verdict(r, c)]);
        assert(registry_after_all(r.after(c), e) == r.after(c));
    } else {
        let rest = cmds.drop_first();
        let r1 = r.after(cmds[0]);
        assert(cs.drop_first() =~= rest.push(c));
        assert(cs[0] == cmds[0]);
        lemma_oracle_verdicts_push(r1, rest, c);
        assert(oracle_verdicts(r, cs) == seq![oracle_verdict(r, cmds[0])] + oracle_verdicts(r1, rest.push(c)));
        assert(oracle_verdicts(r, cmds) == seq![oracle_verdict(r, cmds[0])] + oracle_verdicts(r1, rest));
        assert(registry_after_all(r, cmds) == registry_after_all(r1, rest));
        assert(oracle_verdicts(r, cs) =~= oracle_verdicts(r, cmds).push(
            oracle_verdict(registry_after_all(r, cmds), c),
        ));
    }
}

/// A position that holds a record starting at `addr` makes `first_match`
/// the least such position.
pub proof fn lemma_first_match(s: Seq<Allocation>, addr: usize, n: int)
    requires
        0 <= n <= s.len(),
        forall|j: int| 0 <= j < n ==> s[j].addr != addr,
        exists|i: int| n <= i < s.len() && #[trigger] s[i].addr == addr,
    ensures
        0 <= first_match(s, addr) < s.len(),
        s[first_match(s, addr)].addr == addr,
        forall|j: int| 0 <= j < first_match(s, addr) ==> s[j].addr != addr,
    decreases s.len() - n,
{
    let w = choose|i: int| n <= i < s.len() && #[trigger] s[i].addr == addr;
    if s[n].addr == addr {
        assert(0 <= n < s.len() && s[n].addr == addr && forall|j: int| 0 <= j < n ==> s[j].addr != addr);
    } else {
        assert(n + 1 <= w);
        lemma_first_match(s, addr, n + 1);
    }
}

/// Appending an allocation of positive length that lies in the heap and
/// overlaps no record keeps the registry well formed.
pub proof fn lemma_push_wf(r: RegistryState, a: Allocation)
    requires
        r.wf(),
        a.len > 0,
        a.within(r.max_stack_size, r.mem_size),
        !r.overlaps_any(a),
    ensures
        (RegistryState { allocations: r.allocations.push(a), ..r }).wf(),
{
    let s = r.allocations.push(a);
    assert forall|i: int, j: int|
        0 <= i < s.len() && 0 <= j < s.len() && i != j implies #[trigger] s[i].disjoint(
        #[trigger] s[j]) by {
        if i == s.len() - 1 {
            assert(r.allocations[j].disjoint(a));
        } else if j == s.len() - 1 {
            assert(r.allocations[i].disjoint(a));
        } else {
            assert(r.allocations[i].disjoint(r.allocations[j]));
        }
    }
    assert forall|i: int| 0 <= i < s.len() implies #[trigger] s[i].within(
        r.max_stack_size,
        r.mem_size,
    ) by {
        if i < s.len() - 1 {
            assert(r.allocations[i].within(r.max_stack_size, r.mem_size));
        }
    }
    assert forall|i: int| 0 <= i < s.len() implies #[trigger] s[i].len > 0 by {
        if i < s.len() - 1 {
            assert(r.allocations[i].len > 0);
        }
    }
}

/// Dropping a record keeps the registry well formed.
pub proof fn lemma_remove_wf(r: RegistryState, k: int)
    requires
        r.wf(),
        0 <= k < r.allocations.len(),
    ensures
        (RegistryState { allocations: r.allocations.remove(k), ..r }).wf(),
{
    let s = r.allocations.remove(k);
    assert forall|i: int, j: int|
        0 <= i < s.len() && 0 <= j < s.len() && i != j implies #[trigger] s[i].disjoint(
        #[trigger] s[j]) by {
        let i0 = if i < k { i } else { i + 1 };
        let j0 = if j < k { j } else { j + 1 };
        assert(r.allocations[i0].disjoint(r.allocations[j0]));
    }
    assert forall|i: int| 0 <= i < s.len() implies #[trigger] s[i].within(
        r.max_stack_size,
        r.mem_size,
    ) by {
        let i0 = if i < k { i } else { i + 1 };
        assert(r.allocations[i0].within(r.max_stack_size, r.mem_size));
    }
    assert forall|i: int| 0 <= i < s.len() implies #[trigger] s[i].len > 0 by {
        let i0 = if i < k { i } else { i + 1 };
        assert(r.allocations[i0].len > 0);
    }
}

/// The allocation registry that predicts a tracker's allocate and free
/// verdicts.
pub struct BuggyCommandSequenceState {
    allocations: Vec<Allocation>,
    mem_size: usize,
    max_stack_size: usize,
}

impl View for BuggyCommandSequenceState {
    type V = RegistryState;

    closed spec fn view(&self) -> RegistryState {
        RegistryState {
            allocations: self.allocations@,
            mem_size: self.mem_size as nat,
            max_stack_size: self.max_stack_size as nat,
        }
    }
}

impl BuggyCommandSequenceState {
    /// An empty registry for the address space `[0, mem_size)` whose stack
    /// region is `[0, max_stack_size)`.
    pub fn new(mem_size: usize, max_stack_size: usize) -> (r: BuggyCommandSequenceState)
        ensures
            r@ == RegistryState::empty(mem_size as nat, max_stack_size as nat),
            r@.wf(),
    {
        let allocations = Vec::new();
        BuggyCommandSequenceState { allocations, mem_size, max_stack_size }
    }

    /// Where the first record that starts at `addr` stands, if any.
    fn position(&self, addr: usize) -> (r: Option<usize>)
        ensures
            r is Some <==> self@.has_start(addr),
            r is Some ==> r->Some_0 == first_match(self@.allocations, addr),
            r is Some ==> r->Some_0 < self@.allocations.len(),
    {
        let n = self.allocations.len();
        for i in 0..n
            invariant
                n == self.allocations.len(),
                forall|j: int| 0 <= j < i ==> self.allocations@[j].addr != addr,
        {
            if self.allocations[i].addr == addr {
                let ghost s = self.allocations@;
                let ghost k = first_match(s, addr);
                assert(0 <= k < s.len() && s[k].addr == addr && forall|j: int|
                    0 <= j < k ==> s[j].addr != addr) by {
                    assert(0 <= i < s.len() && s[i as int].addr == addr && forall|j: int|
                        0 <= j < i ==> s[j].addr != addr);
                }
                assert(k == i) by {
                    if k < i {
                        assert(s[k].addr != addr);
                    } else if k > i {
                        assert(s[i as int].addr != addr);
                    }
                }
                assert(self@.allocations[i as int].addr == addr);
                return Some(i);
            }
        }
        None
    }

    /// The length recorded for the allocation that starts at `addr`.
    pub fn recorded_len(&self, addr: usize) -> (r: Option<usize>)
        ensures
            r == self@.recorded_len(addr),
    {
        match self.position(addr) {
            Some(i) => Some(self.allocations[i].len),
            None => None,
        }
    }

    /// Folds an operation whose verdict was predicted into the registry: an
    /// accepted allocation of positive length is recorded, an accepted free
    /// drops its record.
    pub fn update(&mut self, cmd: &Command)
        requires
            old(self)@.wf(),
        ensures
            final(self)@ == old(self)@.after(*cmd),
            final(self)@.wf(),
    {
        match *cmd {
            Command::Malloc { addr, len } => {
                let alloc = Allocation { addr, len };
                let validity = is_malloc_valid(&alloc, &self);
                if len > 0 && validity.is_ok() {
                    proof {
                        lemma_push_wf(self@, alloc);
                    }
                    self.allocations.push(Allocation { addr, len });
                }
            },
            Command::Free { addr } => {
                if let Some(index) = self.position(addr) {
                    proof {
                        lemma_remove_wf(self@, index as int);
                    }
                    self.allocations.remove(index);
                }
            },
            _ => {},
        }
    }
}

/// Whether no record overlaps `other`.
pub fn no_allocs_in_range(state: &BuggyCommandSequenceState, other: &Allocation) -> (r: bool)
    ensures
        r == !state@.overlaps_any(*other),
{
    let n = state.allocations.len();
    for i in 0..n
        invariant
            n == state.allocations.len(),
            forall|j: int| 0 <= j < i ==> #[trigger] state.allocations@[j].disjoint(*other),
    {
        if !state.allocations[i].no_overlaps(other) {
            assert(!state@.allocations[i as int].disjoint(*other));
            return false;
        }
    }
    true
}

/// Predicts the verdict of allocating `alloc`: `OutOfBounds` outside the
/// heap, `DoubleMalloc` where it overlaps a record, success otherwise.
pub fn is_malloc_valid(alloc: &Allocation, state: &BuggyCommandSequenceState) -> (r: Result<(), AccessError>)
    ensures
        r == state@.malloc_verdict(*alloc),
{
    if !alloc.is_in_bounds(state.max_stack_size, state.mem_size) {
        Err(AccessError::OutOfBounds { addr: alloc.addr, len: alloc.len })
    } else if !no_allocs_in_range(&state, &alloc) {
        Err(AccessError::DoubleMalloc { addr: alloc.addr, len: alloc.len })
    } else {
        Ok(())
    }
}

/// Predicts the verdict of freeing by start address: success exactly where
/// some record starts at `addr`, `InvalidFree` otherwise.
pub fn is_free_valid(addr: usize, state: &BuggyCommandSequenceState) -> (r: Result<(), AccessError>)
    ensures
        r == state@.free_verdict(addr),
{
    match state.position(addr) {
        Some(_) => Ok(()),
        None => Err(AccessError::InvalidFree { addr }),
    }
}

/// How a drawn sequence is made: allocations at addresses and of lengths in
/// `1..mem_size`, and frees either below `mem_size - 1` or at the start of a
/// record live after the commands before them.
pub open spec fn drawn_within(cmds: Seq<Command>, mem_size: nat, max_stack_size: nat) -> bool {
    forall|i: int|
        0 <= i < cmds.len() ==> match #[trigger] cmds[i] {
            Command::Malloc { addr, len } => 1 <= addr < mem_size && 1 <= len < mem_size,
            Command::Free { addr } => addr < mem_size - 1 || registry_after_all(
                RegistryState::empty(mem_size, max_stack_size),
                cmds.take(i),
            ).has_start(addr),
            _ => false,
        }
}

/// A drawn sequence of allocations and frees by address, each paired with
/// the verdict that the registry predicts for it.
pub struct BuggyCommandSequence {
    pub commands: Vec<Command>,
    pub results: Vec<Result<(), AccessError>>,
}

impl BuggyCommandSequence {
    /// Draws from `u` between 1 and 20 commands for the address space
    /// `[0, mem_size)` with stack region `[0, max_stack_size)`: allocations at
    /// addresses and of lengths in `1..mem_size`, and frees either at an
    /// address below `mem_size - 1` or at the start of a live record. Each
    /// comes with the registry's verdict on it, the registry having taken in
    /// the commands before it. `None` where a draw fails.
    pub fn generate(u: &mut Unstructured, mem_size: usize, max_stack_size: usize) -> (r: Option<BuggyCommandSequence>)
        requires
            2 <= mem_size,
        ensures
            r matches Some(s) ==> {
                &&& 1 <= s.commands.len() <= 20
                &&& predictable(s.commands@)
                &&& drawn_within(s.commands@, mem_size as nat, max_stack_size as nat)
                &&& s.results@ == oracle_verdicts(
                    RegistryState::empty(mem_size as nat, max_stack_size as nat),
                    s.commands@,
                )
            },
    {
        let max_addr = mem_size - 1;
        let mut commands: Vec<Command> = Vec::new();
        let mut results: Vec<Result<(), AccessError>> = Vec::new();
        let mut state = BuggyCommandSequenceState::new(mem_size, max_stack_size);
        let ghost start = state@;
        let count = draw_in_range(u, 1, 20)?;
        for _i in 0..count
            invariant
                1 <= max_addr,
                max_addr == mem_size - 1,
                commands.len() == _i,
                state@.wf(),
                state@ == registry_after_all(start, commands@),
                start == RegistryState::empty(mem_size as nat, max_stack_size as nat),
                predictable(commands@),
                drawn_within(commands@, mem_size as nat, max_stack_size as nat),
                results@ == oracle_verdicts(start, commands@),
        {
            let kind = draw_in_range(u, 0, 1)?;
            let cmd = if kind == 0 {
                let malloc_addr = draw_in_range(u, 1, max_addr)?;
                let malloc_len = draw_in_range(u, 1, max_addr)?;
                let alloc = Allocation { addr: malloc_addr, len: malloc_len };
                results.push(is_malloc_valid(&alloc, &state));
                Command::Malloc { addr: malloc_addr, len: malloc_len }
            } else {
                let choose_rand_addr = draw_ratio(u, 1, 2)?;
                let unalloc_addr = if choose_rand_addr {
                    draw_index(u, max_addr)?
                } else {
                    let some_alloc = draw_index(u, state.allocations.len())?;
                    let a = state.allocations[some_alloc].addr;
                    assert(state@.allocations[some_alloc as int].addr == a);
                    assert(state@.has_start(a));
                    a
                };
                results.push(is_free_valid(unalloc_addr, &state));
                Command::Free { addr: unalloc_addr }
            };
            proof {
                lemma_oracle_verdicts_push(start, commands@, cmd);
            }
            let ghost pre = commands@;
            assert(match cmd {
                Command::Malloc { addr, len } => 1 <= addr < mem_size && 1 <= len < mem_size,
                Command::Free { addr } => addr < mem_size - 1 || state@.has_start(addr),
                _ => false,
            });
            state.update(&cmd);
            commands.push(cmd);
            assert(drawn_within(commands@, mem_size as nat, max_stack_size as nat)) by {
                assert forall|i: int| 0 <= i < commands@.len() implies match #[trigger] commands@[i] {
                    Command::Malloc { addr, len } => 1 <= addr < mem_size && 1 <= len < mem_size,
                    Command::Free { addr } => addr < mem_size - 1 || registry_after_all(
                        RegistryState::empty(mem_size as nat, max_stack_size as nat),
                        commands@.take(i),
                    ).has_start(addr),
                    _ => false,
                } by {
                    if i < pre.len() {
                        assert(commands@[i] == pre[i]);
                        assert(commands@.take(i) =~= pre.take(i));
                    } else {
                        assert(commands@.take(i) =~= pre);
                        assert(commands@[i] == cmd);
                    }
                }
            }
            assert(predictable(commands@)) by {
                assert forall|i: int| 0 <= i < commands@.len() implies match #[trigger] commands@[i] {
                    Command::Malloc { addr, len } => len > 0,
                    Command::Free { addr } => true,
                    _ => false,
                } by {
                    if i < commands@.len() - 1 {
                        assert(commands@[i] == commands@.drop_last()[i]);
                    }
                }
            }
        }
        Some(BuggyCommandSequence { commands, results })
    }
}

} // verus!

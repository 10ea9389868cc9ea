//! Sequences of operations that a tracker accepts one after another:
//! allocations of ranges that keep clear of every live one, and frees of live
//! ranges by their exact bounds.
use vstd::prelude::*;
use libfuzzer_sys::arbitrary::Unstructured;
use crate::agreement::{agree, lemma_free_agrees, lemma_fresh_agree, lemma_malloc_agrees};
use crate::draw::{draw_in_range, draw_index, draw_usize};
use crate::oracle::{first_match, lemma_first_match, Allocation, Command as RegistryCommand, RegistryState};
use crate::shadow::{AccessError, ShadowState, Valgrind};

verus! {

/// An operation on the tracker; a free names the whole range it releases.
#[derive(Clone, Copy, Debug, PartialEq, Eq, Structural)]
pub enum Command {
    Malloc { addr: usize, len: usize },
    Read { addr: usize, len: usize },
    Write { addr: usize, len: usize },
    Free { addr: usize, len: usize },
}

/// What the tracker does with `cmd`: the next state and the verdict.
pub open spec fn tracker_step(t: ShadowState, cmd: Command) -> (ShadowState, Result<(), AccessError>) {
    match cmd {
        Command::Malloc { addr, len } => (t.after_malloc(addr, len), t.malloc_result(addr, len)),
        Command::Read { addr, len } => (t, t.read_result(addr, len)),
        Command::Write { addr, len } => (t.after_write(addr, len), t.write_result(addr, len)),
        Command::Free { addr, len } => (t.after_free(addr, len), t.free_result(addr, len)),
    }
}

/// The tracker accepts every command of `cmds` in turn, from `t`.
pub open spec fn tracker_accepts(t: ShadowState, cmds: Seq<Command>) -> bool
    decreases cmds.len(),
{
    if cmds.len() == 0 {
        true
    } else {
        tracker_step(t, cmds[0]).1 is Ok && tracker_accepts(tracker_step(t, cmds[0]).0, cmds.drop_first())
    }
}

/// The tracker's state after every command of `cmds` in turn, from `t`.
pub open spec fn tracker_run(t: ShadowState, cmds: Seq<Command>) -> ShadowState
    decreases cmds.len(),
{
    if cmds.len() == 0 {
        t
    } else {
        tracker_run(tracker_step(t, cmds[0]).0, cmds.drop_first())
    }
}

proof fn lemma_tracker_push(t: ShadowState, cmds: Seq<Command>, c: Command)
    ensures
        tracker_accepts(t, cmds.push(c)) == (tracker_accepts(t, cmds) && tracker_step(tracker_run(t, cmds), c).1 is Ok),
        tracker_run(t, cmds.push(c)) == tracker_step(tracker_run(t, cmds), c).0,
    decreases cmds.len(),
{
    let cs = cmds.push(c);
    if cmds.len() == 0 {
        let e = Seq::<Command>::empty();
        assert(cs.drop_first() =~= e);
        assert(cs[0] == c);
        assert(tracker_accepts(tracker_step(t, c).0, e));
        assert(tracker_run(tracker_step(t, c).0, e) == tracker_step(t, c).0);
    } else {
        assert(cs.drop_first() =~= cmds.drop_first().push(c));
        assert(cs[0] == cmds[0]);
        lemma_tracker_push(tracker_step(t, cmds[0]).0, cmds.drop_first(), c);
    }
}

/// `[start, end]` keeps at least one byte clear of the range
/// `[x.0, x.0 + x.1]` on one side.
pub open spec fn keeps_clear(x: (usize, usize), start: int, end: int) -> bool {
    (start < x.0 && end < x.0) || (start > x.0 + x.1 && end > x.0 + x.1)
}

/// The ranges `(addr, len)` of a sequence's live allocations, read as a
/// registry over the same bounds.
pub open spec fn as_registry(s: Seq<(usize, usize)>, mem_size: nat, max_stack_size: nat) -> RegistryState {
    RegistryState {
        allocations: s.map_values(|p: (usize, usize)| Allocation { addr: p.0, len: p.1 }),
        mem_size,
        max_stack_size,
    }
}

/// The first position of `s` that holds the pair `p`.
pub open spec fn first_pair(s: Seq<(usize, usize)>, p: (usize, usize)) -> int {
    choose|i: int| 0 <= i < s.len() && s[i] == p && forall|j: int| 0 <= j < i ==> s[j] != p
}

proof fn lemma_first_pair(s: Seq<(usize, usize)>, p: (usize, usize), n: int)
    requires
        0 <= n <= s.len(),
        forall|j: int| 0 <= j < n ==> s[j] != p,
        exists|i: int| n <= i < s.len() && s[i] == p,
    ensures
        0 <= first_pair(s, p) < s.len(),
        s[first_pair(s, p)] == p,
        forall|j: int| 0 <= j < first_pair(s, p) ==> s[j] != p,
    decreases s.len() - n,
{
    let w = choose|i: int| n <= i < s.len() && s[i] == p;
    if s[n] == p {
        assert(0 <= n < s.len() && s[n] == p && forall|j: int| 0 <= j < n ==> s[j] != p);
    } else {
        assert(n + 1 <= w);
        lemma_first_pair(s, p, n + 1);
    }
}

/// The live pairs after `cmd`: an allocation appends its range, a free of a
/// live range drops the first pair equal to it, and the rest change nothing.
pub open spec fn pairs_after(s: Seq<(usize, usize)>, cmd: Command) -> Seq<(usize, usize)> {
    match cmd {
        Command::Malloc { addr, len } => s.push((addr, len)),
        Command::Free { addr, len } => if s.contains((addr, len)) {
            s.remove(first_pair(s, (addr, len)))
        } else {
            s
        },
        _ => s,
    }
}

/// The live pairs after every command of `cmds`, from none.
pub open spec fn live_pairs(cmds: Seq<Command>) -> Seq<(usize, usize)>
    decreases cmds.len(),
{
    if cmds.len() == 0 {
        Seq::empty()
    } else {
        pairs_after(live_pairs(cmds.drop_last()), cmds.last())
    }
}

/// How a command of a valid sequence is drawn, given the pairs live before
/// it: an allocation above the stack region, of positive length, inside
/// memory and clear of every live pair; or the free of a live pair.
pub open spec fn drawn_step(live: Seq<(usize, usize)>, cmd: Command, mem_size: nat, max_stack_size: nat) -> bool {
    match cmd {
        Command::Malloc { addr, len } => {
            &&& max_stack_size < addr
            &&& 1 <= len
            &&& addr + len <= mem_size
            &&& forall|j: int| 0 <= j < live.len() ==> keeps_clear(#[trigger] live[j], addr as int, addr + len)
        },
        Command::Free { addr, len } => live.contains((addr, len)),
        _ => false,
    }
}

/// The live allocations of a sequence being drawn, as `(addr, len)` pairs in
/// order of allocation.
pub struct CommandSequenceState {
    allocations: Vec<(usize, usize)>,
}

impl View for CommandSequenceState {
    type V = Seq<(usize, usize)>;

    closed spec fn view(&self) -> Seq<(usize, usize)> {
        self.allocations@
    }
}

impl CommandSequenceState {
    pub fn new() -> (r: CommandSequenceState)
        ensures
            r@ == Seq::<(usize, usize)>::empty(),
    {
        let allocations = Vec::new();
        CommandSequenceState { allocations }
    }

    /// Folds a drawn command in: an allocation is appended, a free drops the
    /// first pair equal to its range, which must be live.
    pub fn update(&mut self, cmd: &Command)
        requires
            *cmd matches Command::Free { addr, len } ==> old(self)@.contains((addr, len)),
        ensures
            final(self)@ == pairs_after(old(self)@, *cmd),
    {
        match *cmd {
            Command::Malloc { addr, len } => {
                self.allocations.push((addr, len));
            },
            Command::Free { addr, len } => {
                let n = self.allocations.len();
                let mut index: usize = 0;
                while index < n
                    invariant
                        n == self.allocations.len(),
                        index <= n,
                        self@.contains((addr, len)),
                        forall|j: int| 0 <= j < index ==> self@[j] != (addr, len),
                    ensures
                        index < n ==> self@[index as int] == (addr, len),
                        forall|j: int| 0 <= j < index ==> self@[j] != (addr, len),
                    decreases n - index,
                {
                    if self.allocations[index].0 == addr && self.allocations[index].1 == len {
                        break;
                    }
                    index = index + 1;
                }
                if index == n {
                    let ghost w = choose|k: int| 0 <= k < self@.len() && self@[k] == (addr, len);
                    assert(false) by {
                        assert(self@[w] == (addr, len));
                    }
                }
                proof {
                    lemma_first_pair(self@, (addr, len), 0);
                    let k = first_pair(self@, (addr, len));
                    if k < index {
                        assert(self@[k] != (addr, len));
                    } else if k > index {
                        assert(self@[index as int] != (addr, len));
                    }
                }
                self.allocations.remove(index);
            },
            _ => {},
        }
    }
}

/// Whether some live allocation holds byte `addr`.
pub fn is_addr_allocated(state: &CommandSequenceState, addr: usize) -> (r: bool)
    ensures
        r == exists|i: int| 0 <= i < state@.len() && #[trigger] state@[i].0 <= addr < state@[i].0 + state@[i].1,
{
    let n = state.allocations.len();
    for i in 0..n
        invariant
            n == state.allocations.len(),
            forall|j: int| 0 <= j < i ==> !(#[trigger] state@[j].0 <= addr < state@[j].0 + state@[j].1),
    {
        let x = state.allocations[i];
        if x.0 <= addr && addr - x.0 < x.1 {
            assert(state@[i as int].0 <= addr < state@[i as int].0 + state@[i as int].1);
            return true;
        }
    }
    false
}

/// Whether `[start, end]` keeps clear of every live allocation, with at
/// least one free byte between them.
pub fn any_allocs_in_range(state: &CommandSequenceState, start: usize, end: usize) -> (r: bool)
    ensures
        r == forall|i: int| 0 <= i < state@.len() ==> keeps_clear(#[trigger] state@[i], start as int, end as int),
{
    let n = state.allocations.len();
    for i in 0..n
        invariant
            n == state.allocations.len(),
            forall|j: int| 0 <= j < i ==> keeps_clear(#[trigger] state@[j], start as int, end as int),
    {
        let x = state.allocations[i];
        let below = start < x.0 && end < x.0;
        let above = start > x.0 && start - x.0 > x.1 && end > x.0 && end - x.0 > x.1;
        if !(below || above) {
            assert(!keeps_clear(state@[i as int], start as int, end as int));
            return false;
        }
    }
    true
}

/// Draws a range `(addr, len)` that starts above the stack region, ends
/// inside `[0, mem_size)` and keeps clear of every live allocation. Gives up
/// with `None` after ten start addresses that are taken, after ten lengths
/// that collide, or where a draw fails.
pub fn pick_free_addr_range(state: &CommandSequenceState, u: &mut Unstructured, mem_size: usize, max_stack_size: usize) -> (r: Option<(usize, usize)>)
    requires
        max_stack_size + 2 <= mem_size,
    ensures
        r matches Some(p) ==> {
            &&& max_stack_size < p.0
            &&& 1 <= p.1
            &&& p.0 + p.1 <= mem_size
            &&& forall|i: int| 0 <= i < state@.len() ==> keeps_clear(#[trigger] state@[i], p.0 as int, p.0 + p.1)
        },
{
    let max_addr = mem_size - 1;
    let lo = max_stack_size + 1;
    let mut addr = draw_in_range(u, lo, max_addr)?;
    let mut attempts: usize = 0;
    while is_addr_allocated(state, addr)
        invariant
            lo <= addr <= max_addr,
            attempts < 10,
        decreases 10 - attempts,
    {
        addr = draw_in_range(u, lo, max_addr)?;
        attempts = attempts + 1;
        if attempts == 10 {
            return None;
        }
    }
    let mut len: usize = 1;
    if max_addr - addr > 1 {
        len = draw_in_range(u, 1, max_addr - addr)?;
    }
    attempts = 0;
    while !any_allocs_in_range(state, addr, addr + len)
        invariant
            lo <= addr <= max_addr,
            max_addr == mem_size - 1,
            1 <= len,
            addr + len <= mem_size,
            attempts < 10,
        decreases 10 - attempts,
    {
        if max_addr - addr > 1 {
            len = draw_in_range(u, 1, max_addr - addr)?;
        }
        attempts = attempts + 1;
        if attempts == 10 {
            return None;
        }
    }
    Some((addr, len))
}

/// Allocating a range that keeps clear of every live pair succeeds on an
/// agreeing tracker, and the pair appended keeps the agreement.
proof fn lemma_malloc_step(t: ShadowState, s: Seq<(usize, usize)>, mem_size: nat, max_stack_size: nat, addr: usize, len: usize)
    requires
        agree(t, as_registry(s, mem_size, max_stack_size)),
        max_stack_size < addr,
        1 <= len,
        addr + len <= mem_size,
        forall|i: int| 0 <= i < s.len() ==> keeps_clear(#[trigger] s[i], addr as int, addr + len),
    ensures
        t.malloc_result(addr, len) is Ok,
        agree(t.after_malloc(addr, len), as_registry(s.push((addr, len)), mem_size, max_stack_size)),
{
    let r = as_registry(s, mem_size, max_stack_size);
    let a = Allocation { addr, len };
    lemma_malloc_agrees(t, r, addr, len);
    assert forall|i: int| 0 <= i < r.allocations.len() implies #[trigger] r.allocations[i].disjoint(a) by {
        assert(keeps_clear(s[i], addr as int, addr + len));
    }
    assert(r.after(RegistryCommand::Malloc { addr, len }).allocations =~= as_registry(
        s.push((addr, len)),
        mem_size,
        max_stack_size,
    ).allocations);
}

/// Freeing a live pair by its exact range succeeds on an agreeing tracker;
/// no other position holds that pair, and dropping it keeps the agreement.
proof fn lemma_free_step(t: ShadowState, s: Seq<(usize, usize)>, mem_size: nat, max_stack_size: nat, k: int)
    requires
        agree(t, as_registry(s, mem_size, max_stack_size)),
        0 <= k < s.len(),
    ensures
        t.free_result(s[k].0, s[k].1) is Ok,
        forall|j: int| 0 <= j < s.len() && s[j].0 == s[k].0 ==> j == k,
        agree(t.after_free(s[k].0, s[k].1), as_registry(s.remove(k), mem_size, max_stack_size)),
{
    let r = as_registry(s, mem_size, max_stack_size);
    let addr = s[k].0;
    assert forall|j: int| 0 <= j < s.len() && s[j].0 == s[k].0 implies j == k by {
        if j != k {
            assert(r.allocations[j].disjoint(r.allocations[k]));
            assert(r.allocations[j].len > 0 && r.allocations[k].len > 0);
        }
    }
    assert(r.allocations[k].addr == addr);
    lemma_first_match(r.allocations, addr, 0);
    assert(first_match(r.allocations, addr) == k);
    lemma_free_agrees(t, r, addr);
    assert(r.after(RegistryCommand::Free { addr }).allocations =~= as_registry(
        s.remove(k),
        mem_size,
        max_stack_size,
    ).allocations);
}

/// A drawn sequence of allocations and frees.
pub struct CommandSequence {
    pub commands: Vec<Command>,
}

impl CommandSequence {
    /// Draws from `u` a sequence for the address space `[0, mem_size)` with
    /// stack region `[0, max_stack_size)`: each command is either an
    /// allocation from `pick_free_addr_range` or the free of a live range.
    /// A fresh tracker accepts every command of it in turn. `None` where a
    /// draw fails or no free range is found.
    pub fn generate(u: &mut Unstructured, mem_size: usize, max_stack_size: usize) -> (r: Option<CommandSequence>)
        requires
            max_stack_size + 2 <= mem_size,
        ensures
            r matches Some(s) ==> {
                &&& forall|i: int|
                    0 <= i < s.commands.len() ==> drawn_step(
                        live_pairs(s.commands@.take(i)),
                        #[trigger] s.commands@[i],
                        mem_size as nat,
                        max_stack_size as nat,
                    )
                &&& tracker_accepts(ShadowState::fresh(mem_size as nat, max_stack_size as nat), s.commands@)
            },
    {
        let mut commands: Vec<Command> = Vec::new();
        let mut state = CommandSequenceState::new();
        let ghost t0 = ShadowState::fresh(mem_size as nat, max_stack_size as nat);
        proof {
            lemma_fresh_agree(mem_size as nat, max_stack_size as nat);
            assert(as_registry(state@, mem_size as nat, max_stack_size as nat).allocations =~= Seq::<Allocation>::empty());
        }
        let count = draw_usize(u)?;
        for _i in 0..count
            invariant
                max_stack_size + 2 <= mem_size,
                t0 == ShadowState::fresh(mem_size as nat, max_stack_size as nat),
                tracker_accepts(t0, commands@),
                state@ == live_pairs(commands@),
                forall|i: int|
                    0 <= i < commands.len() ==> drawn_step(
                        live_pairs(commands@.take(i)),
                        #[trigger] commands@[i],
                        mem_size as nat,
                        max_stack_size as nat,
                    ),
                agree(tracker_run(t0, commands@), as_registry(state@, mem_size as nat, max_stack_size as nat)),
        {
            let kind = draw_in_range(u, 0, 1)?;
            let ghost t = tracker_run(t0, commands@);
            let ghost s = state@;
            let cmd = if kind == 0 {
                let malloc_range = pick_free_addr_range(&state, u, mem_size, max_stack_size)?;
                proof {
                    lemma_malloc_step(t, s, mem_size as nat, max_stack_size as nat, malloc_range.0, malloc_range.1);
                }
                Command::Malloc { addr: malloc_range.0, len: malloc_range.1 }
            } else {
                let unalloc_index = draw_index(u, state.allocations.len())?;
                let unalloc_range = state.allocations[unalloc_index];
                proof {
                    lemma_free_step(t, s, mem_size as nat, max_stack_size as nat, unalloc_index as int);
                    assert(s.contains(unalloc_range));
                }
                Command::Free { addr: unalloc_range.0, len: unalloc_range.1 }
            };
            assert(drawn_step(s, cmd, mem_size as nat, max_stack_size as nat));
            state.update(&cmd);
            proof {
                lemma_tracker_push(t0, commands@, cmd);
                if let Command::Free { addr, len } = cmd {
                    lemma_first_pair(s, (addr, len), 0);
                    lemma_free_step(t, s, mem_size as nat, max_stack_size as nat, first_pair(s, (addr, len)));
                }
            }
            let ghost pre = commands@;
            commands.push(cmd);
            proof {
                assert(commands@.drop_last() =~= pre);
                assert forall|i: int| 0 <= i < commands.len() implies drawn_step(
                    live_pairs(commands@.take(i)),
                    #[trigger] commands@[i],
                    mem_size as nat,
                    max_stack_size as nat,
                ) by {
                    if i < pre.len() {
                        assert(commands@[i] == pre[i]);
                        assert(commands@.take(i) =~= pre.take(i));
                    } else {
                        assert(commands@.take(i) =~= pre);
                    }
                }
            }
        }
        Some(CommandSequence { commands })
    }
}

/// One command on the tracker.
fn tracker_apply(tracker: &mut Valgrind, cmd: Command) -> (r: Result<(), AccessError>)
    requires
        old(tracker).wf(),
    ensures
        final(tracker).wf(),
        (final(tracker)@, r) == tracker_step(old(tracker)@, cmd),
{
    match cmd {
        Command::Malloc { addr, len } => tracker.malloc(addr, len),
        Command::Read { addr, len } => tracker.read(addr, len),
        Command::Write { addr, len } => tracker.write(addr, len),
        Command::Free { addr, len } => tracker.free(addr, len),
    }
}

/// Runs `cmds` on a fresh tracker over `[0, mem_size)` with stack region
/// `[0, max_stack_size)`, stopping at the first refusal: whether every
/// command was accepted.
pub fn accepted_by_tracker(mem_size: usize, max_stack_size: usize, cmds: &Vec<Command>) -> (r: bool)
    requires
        max_stack_size <= mem_size,
    ensures
        r == tracker_accepts(ShadowState::fresh(mem_size as nat, max_stack_size as nat), cmds@),
{
    let mut tracker = Valgrind::new(mem_size, max_stack_size);
    assert(cmds@.skip(0) =~= cmds@);
    for i in 0..cmds.len()
        invariant
            tracker.wf(),
            tracker_accepts(ShadowState::fresh(mem_size as nat, max_stack_size as nat), cmds@)
                == tracker_accepts(tracker@, cmds@.skip(i as int)),
    {
        let ghost t = tracker@;
        assert(cmds@.skip(i as int).drop_first() =~= cmds@.skip(i + 1));
        assert(cmds@.skip(i as int)[0] == cmds@[i as int]);
        let verdict = tracker_apply(&mut tracker, cmds[i]);
        if verdict.is_err() {
            return false;
        }
    }
    assert(cmds@.skip(cmds.len() as int) =~= Seq::<Command>::empty());
    true
}

} // verus!

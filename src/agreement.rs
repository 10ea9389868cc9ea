//! How the tracker and the registry relate: a state of each that describe the
//! same heap, the proof that the registry predicts the tracker, and a replay
//! of a command sequence on the tracker.
use vstd::prelude::*;
use crate::oracle::{
    oracle_verdict,
    first_match, lemma_first_match, registry_after_all, lemma_push_wf, lemma_remove_wf, oracle_verdicts, predictable, Allocation,
    BuggyCommandSequenceState, Command, RegistryState,
};
use crate::shadow::{AccessError, MemState, ShadowState, Valgrind};

verus! {

/// Some record of `r` holds byte `b`.
pub open spec fn covered(r: RegistryState, b: int) -> bool {
    exists|i: int| 0 <= i < r.allocations.len() && #[trigger] r.allocations[i].contains(b)
}

/// A tracker and a registry describe the same heap: same bounds, and a heap
/// byte is owned in the tracker exactly where a record holds it.
pub open spec fn agree(t: ShadowState, r: RegistryState) -> bool {
    &&& t.wf()
    &&& r.wf()
    &&& t.mem_size() == r.mem_size
    &&& t.max_stack_size == r.max_stack_size
    &&& forall|b: int|
        r.max_stack_size < b < r.mem_size ==> (#[trigger] t.metadata[b] != MemState::Unallocated
            <==> covered(r, b))
}

/// What the tracker does with `cmd` when the driver supplies, for a free by
/// address, the length that the registry recorded: the next tracker state and
/// the tracker's verdict.
pub open spec fn shadow_step(t: ShadowState, r: RegistryState, cmd: Command) -> (ShadowState, Result<(), AccessError>) {
    match cmd {
        Command::Malloc { addr, len } => (t.after_malloc(addr, len), t.malloc_result(addr, len)),
        Command::Read { addr, len } => (t, t.read_result(addr, len)),
        Command::Write { addr, len } => (t.after_write(addr, len), t.write_result(addr, len)),
        Command::Free { addr } => match r.recorded_len(addr) {
            Some(len) => (t.after_free(addr, len), t.free_result(addr, len)),
            None => (t, Err(AccessError::InvalidFree { addr })),
        },
    }
}

/// The tracker's verdicts on `cmds`, run from `t` with the registry `r`
/// following along.
pub open spec fn shadow_verdicts(t: ShadowState, r: RegistryState, cmds: Seq<Command>) -> Seq<Result<(), AccessError>>
    decreases cmds.len(),
{
    if cmds.len() == 0 {
        Seq::empty()
    } else {
        let step = shadow_step(t, r, cmds[0]);
        seq![step.1] + shadow_verdicts(step.0, r.after(cmds[0]), cmds.drop_first())
    }
}

/// A fresh tracker and an empty registry over the same bounds agree.
pub proof fn lemma_fresh_agree(mem_size: nat, max_stack_size: nat)
    requires
        max_stack_size <= mem_size,
    ensures
        agree(ShadowState::fresh(mem_size, max_stack_size), RegistryState::empty(mem_size, max_stack_size)),
{
}

/// On agreeing states, the registry predicts an allocation of positive length
/// exactly, and the two stay in agreement.
pub proof fn lemma_malloc_agrees(t: ShadowState, r: RegistryState, addr: usize, len: usize)
    requires
        agree(t, r),
        len > 0,
    ensures
        t.malloc_result(addr, len) == r.malloc_verdict(Allocation { addr, len }),
        agree(t.after_malloc(addr, len), r.after(Command::Malloc { addr, len })),
{
    let a = Allocation { addr, len };
    if a.within(r.max_stack_size, r.mem_size) {
        if r.overlaps_any(a) {
            let k = choose|i: int| 0 <= i < r.allocations.len() && !#[trigger] r.allocations[i].disjoint(a);
            let rk = r.allocations[k];
            let b: int = if addr >= rk.addr { addr as int } else { rk.addr as int };
            assert(rk.len > 0);
            assert(rk.contains(b));
            assert(covered(r, b));
            assert(t.metadata[b] != MemState::Unallocated);
            assert(!t.all_unallocated(addr as int, len as int));
        } else {
            assert forall|b: int| addr <= b < addr + len implies t.metadata[b] == MemState::Unallocated by {
                if t.metadata[b] != MemState::Unallocated {
                    assert(covered(r, b));
                    let k = choose|i: int| 0 <= i < r.allocations.len() && #[trigger] r.allocations[i].contains(b);
                    assert(!r.allocations[k].disjoint(a));
                }
            }
            lemma_push_wf(r, a);
            let t2 = t.after_malloc(addr, len);
            let r2 = r.after(Command::Malloc { addr, len });
            assert(r2.allocations == r.allocations.push(a));
            assert forall|b: int| r2.max_stack_size < b < r2.mem_size implies (#[trigger] t2.metadata[b]
                != MemState::Unallocated <==> covered(r2, b)) by {
                if a.contains(b) {
                    assert(r2.allocations[r.allocations.len() as int].contains(b));
                } else {
                    if covered(r2, b) {
                        let k = choose|i: int| 0 <= i < r2.allocations.len() && #[trigger] r2.allocations[i].contains(b);
                        assert(k < r.allocations.len());
                        assert(r.allocations[k].contains(b));
                    }
                    if covered(r, b) {
                        let k = choose|i: int| 0 <= i < r.allocations.len() && #[trigger] r.allocations[i].contains(b);
                        assert(r2.allocations[k].contains(b));
                    }
                }
            }
            assert forall|i: int| 0 <= i < r2.allocations.len() implies #[trigger] r2.allocations[i].len > 0 by {
                if i < r.allocations.len() {
                    assert(r.allocations[i].len > 0);
                }
            }
        }
    }
}

/// On agreeing states, a free by address is predicted exactly, and the two
/// stay in agreement.
pub proof fn lemma_free_agrees(t: ShadowState, r: RegistryState, addr: usize)
    requires
        agree(t, r),
    ensures
        shadow_step(t, r, Command::Free { addr }).1 == r.free_verdict(addr),
        agree(shadow_step(t, r, Command::Free { addr }).0, r.after(Command::Free { addr })),
{
    if r.has_start(addr) {
        let s = r.allocations;
        lemma_first_match(s, addr, 0);
        let k = first_match(s, addr);
        let rk = s[k];
        let len = rk.len;
        assert(rk.within(r.max_stack_size, r.mem_size));
        assert forall|b: int| addr <= b < addr + len implies t.metadata[b] != MemState::Unallocated by {
            assert(rk.contains(b));
            assert(covered(r, b));
        }
        assert(t.free_result(addr, len) is Ok);
        let t2 = t.after_free(addr, len);
        let r2 = r.after(Command::Free { addr });
        assert(r2.allocations == s.remove(k));
        lemma_remove_wf(r, k);
        assert forall|b: int| r2.max_stack_size < b < r2.mem_size implies (#[trigger] t2.metadata[b]
            != MemState::Unallocated <==> covered(r2, b)) by {
            if rk.contains(b) {
                if covered(r2, b) {
                    let j = choose|i: int| 0 <= i < r2.allocations.len() && #[trigger] r2.allocations[i].contains(b);
                    let j0 = if j < k { j } else { j + 1 };
                    assert(s[j0] == r2.allocations[j]);
                    assert(s[j0].disjoint(rk));
                }
            } else {
                if covered(r2, b) {
                    let j = choose|i: int| 0 <= i < r2.allocations.len() && #[trigger] r2.allocations[i].contains(b);
                    let j0 = if j < k { j } else { j + 1 };
                    assert(s[j0] == r2.allocations[j]);
                    assert(covered(r, b));
                }
                if covered(r, b) {
                    let j = choose|i: int| 0 <= i < s.len() && #[trigger] s[i].contains(b);
                    assert(j != k);
                    let j2 = if j < k { j } else { j - 1 };
                    assert(r2.allocations[j2] == s[j]);
                    assert(r2.allocations[j2].contains(b));
                }
            }
        }
        assert forall|i: int| 0 <= i < r2.allocations.len() implies #[trigger] r2.allocations[i].len > 0 by {
            let i0 = if i < k { i } else { i + 1 };
            assert(s[i0].len > 0);
        }
    }
}

/// On agreeing states, the registry's predictions for a sequence of
/// allocations of positive length and frees by address are the tracker's
/// verdicts, one for one.
pub proof fn lemma_verdicts_agree(t: ShadowState, r: RegistryState, cmds: Seq<Command>)
    requires
        agree(t, r),
        predictable(cmds),
    ensures
        shadow_verdicts(t, r, cmds) == oracle_verdicts(r, cmds),
    decreases cmds.len(),
{
    if cmds.len() > 0 {
        let rest = cmds.drop_first();
        assert(predictable(rest)) by {
            assert forall|i: int| 0 <= i < rest.len() implies match #[trigger] rest[i] {
                Command::Malloc { addr, len } => len > 0,
                Command::Free { addr } => true,
                _ => false,
            } by {
                assert(rest[i] == cmds[i + 1]);
            }
        }
        let c = cmds[0];
        match c {
            Command::Malloc { addr, len } => {
                lemma_malloc_agrees(t, r, addr, len);
            },
            Command::Free { addr } => {
                lemma_free_agrees(t, r, addr);
            },
            _ => {},
        }
        let step = shadow_step(t, r, c);
        lemma_verdicts_agree(step.0, r.after(c), rest);
    }
}

/// Started from a fresh tracker and an empty registry over the same bounds,
/// the registry predicts the tracker's verdict on every allocation of
/// positive length and every free by address, for any such sequence.
pub proof fn lemma_oracle_predicts_tracker(mem_size: nat, max_stack_size: nat, cmds: Seq<Command>)
    requires
        max_stack_size <= mem_size,
        predictable(cmds),
    ensures
        shadow_verdicts(ShadowState::fresh(mem_size, max_stack_size), RegistryState::empty(mem_size, max_stack_size), cmds)
            == oracle_verdicts(RegistryState::empty(mem_size, max_stack_size), cmds),
{
    lemma_fresh_agree(mem_size, max_stack_size);
    lemma_verdicts_agree(ShadowState::fresh(mem_size, max_stack_size), RegistryState::empty(mem_size, max_stack_size), cmds);
}

/// The tracker's state after a run of `cmds` from `t`, the registry `r`
/// following along.
pub open spec fn shadow_run(t: ShadowState, r: RegistryState, cmds: Seq<Command>) -> ShadowState
    decreases cmds.len(),
{
    if cmds.len() == 0 {
        t
    } else {
        shadow_run(shadow_step(t, r, cmds[0]).0, r.after(cmds[0]), cmds.drop_first())
    }
}

/// Every command, whatever its verdict, keeps a tracker and a registry in
/// agreement.
pub proof fn lemma_step_keeps_agreement(t: ShadowState, r: RegistryState, cmd: Command)
    requires
        agree(t, r),
    ensures
        agree(shadow_step(t, r, cmd).0, r.after(cmd)),
{
    match cmd {
        Command::Malloc { addr, len } => {
            if len > 0 {
                lemma_malloc_agrees(t, r, addr, len);
            } else {
                assert(t.after_malloc(addr, len).metadata =~= t.metadata);
            }
        },
        Command::Free { addr } => {
            lemma_free_agrees(t, r, addr);
        },
        Command::Write { addr, len } => {
            let t2 = t.after_write(addr, len);
            assert forall|b: int| r.max_stack_size < b < r.mem_size implies (#[trigger] t2.metadata[b]
                != MemState::Unallocated <==> covered(r, b)) by {
                assert(t.metadata[b] != MemState::Unallocated <==> covered(r, b));
            }
        },
        Command::Read { .. } => {},
    }
}

/// A run of any commands keeps a tracker and a registry in agreement.
pub proof fn lemma_run_agrees(t: ShadowState, r: RegistryState, cmds: Seq<Command>)
    requires
        agree(t, r),
    ensures
        agree(shadow_run(t, r, cmds), registry_after_all(r, cmds)),
    decreases cmds.len(),
{
    if cmds.len() > 0 {
        lemma_step_keeps_agreement(t, r, cmds[0]);
        lemma_run_agrees(shadow_step(t, r, cmds[0]).0, r.after(cmds[0]), cmds.drop_first());
    }
}

/// After the same run of any commands on a fresh tracker and an empty
/// registry over the same bounds, the registry predicts the tracker's
/// verdict on the next allocation of positive length or free by address.
pub proof fn lemma_oracle_predicts_next(mem_size: nat, max_stack_size: nat, cmds: Seq<Command>, cmd: Command)
    requires
        max_stack_size <= mem_size,
        predictable(seq![cmd]),
    ensures
        shadow_step(
            shadow_run(ShadowState::fresh(mem_size, max_stack_size), RegistryState::empty(mem_size, max_stack_size), cmds),
            registry_after_all(RegistryState::empty(mem_size, max_stack_size), cmds),
            cmd,
        ).1 == oracle_verdict(registry_after_all(RegistryState::empty(mem_size, max_stack_size), cmds), cmd),
{
    let t0 = ShadowState::fresh(mem_size, max_stack_size);
    let r0 = RegistryState::empty(mem_size, max_stack_size);
    lemma_fresh_agree(mem_size, max_stack_size);
    lemma_run_agrees(t0, r0, cmds);
    let t = shadow_run(t0, r0, cmds);
    let r = registry_after_all(r0, cmds);
    assert(seq![cmd][0] == cmd);
    match cmd {
        Command::Malloc { addr, len } => {
            lemma_malloc_agrees(t, r, addr, len);
        },
        Command::Free { addr } => {
            lemma_free_agrees(t, r, addr);
        },
        _ => {},
    }
}

/// One command of a run on the tracker, a free by address taking its length
/// from the registry.
fn shadow_apply(tracker: &mut Valgrind, registry: &BuggyCommandSequenceState, cmd: Command) -> (r: Result<(), AccessError>)
    requires
        old(tracker).wf(),
    ensures
        final(tracker).wf(),
        (final(tracker)@, r) == shadow_step(old(tracker)@, registry@, cmd),
{
    match cmd {
        Command::Malloc { addr, len } => tracker.malloc(addr, len),
        Command::Read { addr, len } => tracker.read(addr, len),
        Command::Write { addr, len } => tracker.write(addr, len),
        Command::Free { addr } => match registry.recorded_len(addr) {
            Some(len) => tracker.free(addr, len),
            None => Err(AccessError::InvalidFree { addr }),
        },
    }
}

proof fn lemma_shadow_verdicts_unfold(t: ShadowState, r: RegistryState, cmds: Seq<Command>, i: int)
    requires
        0 <= i < cmds.len(),
    ensures
        shadow_verdicts(t, r, cmds.skip(i)) == seq![shadow_step(t, r, cmds[i]).1] + shadow_verdicts(
            shadow_step(t, r, cmds[i]).0,
            r.after(cmds[i]),
            cmds.skip(i + 1),
        ),
{
    assert(cmds.skip(i).drop_first() =~= cmds.skip(i + 1));
    assert(cmds.skip(i)[0] == cmds[i]);
}

/// Runs `cmds` on a fresh tracker over `[0, mem_size)` with stack region
/// `[0, max_stack_size)`, and returns the tracker's verdict on each. A free
/// by address takes its length from a registry that follows the run; where
/// no record starts at the address, the verdict is `InvalidFree`.
pub fn replay(mem_size: usize, max_stack_size: usize, cmds: &Vec<Command>) -> (r: Vec<Result<(), AccessError>>)
    requires
        max_stack_size <= mem_size,
    ensures
        r@ == shadow_verdicts(
            ShadowState::fresh(mem_size as nat, max_stack_size as nat),
            RegistryState::empty(mem_size as nat, max_stack_size as nat),
            cmds@,
        ),
{
    let mut tracker = Valgrind::new(mem_size, max_stack_size);
    let mut registry = BuggyCommandSequenceState::new(mem_size, max_stack_size);
    let mut out: Vec<Result<(), AccessError>> = Vec::new();
    let ghost whole = shadow_verdicts(tracker@, registry@, cmds@);
    assert(cmds@.skip(0) =~= cmds@);
    for i in 0..cmds.len()
        invariant
            tracker.wf(),
            registry@.wf(),
            whole == shadow_verdicts(
                ShadowState::fresh(mem_size as nat, max_stack_size as nat),
                RegistryState::empty(mem_size as nat, max_stack_size as nat),
                cmds@,
            ),
            whole == out@ + shadow_verdicts(tracker@, registry@, cmds@.skip(i as int)),
    {
        let cmd = cmds[i];
        proof {
            lemma_shadow_verdicts_unfold(tracker@, registry@, cmds@, i as int);
        }
        let verdict = shadow_apply(&mut tracker, &registry, cmd);
        registry.update(&cmd);
        let ghost before = out@;
        out.push(verdict);
        assert(out@ == before + seq![verdict]);
        assert(whole == out@ + shadow_verdicts(tracker@, registry@, cmds@.skip(i + 1)));
    }
    assert(cmds@.skip(cmds.len() as int) =~= Seq::<Command>::empty());
    assert(out@ =~= out@ + Seq::<Result<(), AccessError>>::empty());
    out
}

} // verus!

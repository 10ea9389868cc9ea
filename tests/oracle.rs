use libfuzzer_sys::arbitrary::Unstructured;
use wasm_valgrind::valid::Command as V;
use wasm_valgrind::valid::{accepted_by_tracker, any_allocs_in_range, is_addr_allocated, pick_free_addr_range, CommandSequence, CommandSequenceState};
use wasm_valgrind::{
    is_free_valid, is_malloc_valid, no_allocs_in_range, replay, AccessError, Allocation, BuggyCommandSequence,
    BuggyCommandSequenceState, Command,
};

const MEM: usize = 640 * 1024;
const STACK: usize = 1024;

#[test]
fn allocation_overlap_and_bounds() {
    let a = Allocation { addr: 2000, len: 10 };
    assert!(a.no_overlaps(&Allocation { addr: 2010, len: 5 }));
    assert!(a.no_overlaps(&Allocation { addr: 1990, len: 10 }));
    assert!(!a.no_overlaps(&Allocation { addr: 2009, len: 1 }));
    assert!(!a.no_overlaps(&Allocation { addr: 1990, len: 11 }));
    assert!(a.no_overlaps(&Allocation { addr: usize::MAX, len: usize::MAX }));
    assert!(a.is_in_bounds(STACK, MEM));
    assert!(!Allocation { addr: STACK, len: 1 }.is_in_bounds(STACK, MEM));
    assert!(Allocation { addr: MEM - 1, len: 1 }.is_in_bounds(STACK, MEM));
    assert!(!Allocation { addr: MEM - 1, len: 2 }.is_in_bounds(STACK, MEM));
    assert!(!Allocation { addr: MEM, len: usize::MAX }.is_in_bounds(STACK, MEM));
}

#[test]
fn registry_predicts_malloc() {
    let mut state = BuggyCommandSequenceState::new(MEM, STACK);
    let a = Allocation { addr: 4096, len: 32 };
    assert_eq!(is_malloc_valid(&a, &state), Ok(()));
    assert!(no_allocs_in_range(&state, &a));
    state.update(&Command::Malloc { addr: 4096, len: 32 });
    assert!(!no_allocs_in_range(&state, &a));
    assert_eq!(is_malloc_valid(&a, &state), Err(AccessError::DoubleMalloc { addr: 4096, len: 32 }));
    let b = Allocation { addr: 4097, len: 32 };
    assert_eq!(is_malloc_valid(&b, &state), Err(AccessError::DoubleMalloc { addr: 4097, len: 32 }));
    let c = Allocation { addr: 4128, len: 8 };
    assert_eq!(is_malloc_valid(&c, &state), Ok(()));
    let d = Allocation { addr: MEM, len: 1 };
    assert_eq!(is_malloc_valid(&d, &state), Err(AccessError::OutOfBounds { addr: MEM, len: 1 }));
    let e = Allocation { addr: MEM - 10, len: 15 };
    assert_eq!(is_malloc_valid(&e, &state), Err(AccessError::OutOfBounds { addr: MEM - 10, len: 15 }));
}

#[test]
fn registry_predicts_free() {
    let mut state = BuggyCommandSequenceState::new(MEM, STACK);
    state.update(&Command::Malloc { addr: 4096, len: 32 });
    assert_eq!(state.recorded_len(4096), Some(32));
    assert_eq!(state.recorded_len(4097), None);
    assert_eq!(is_free_valid(4096, &state), Ok(()));
    assert_eq!(is_free_valid(4100, &state), Err(AccessError::InvalidFree { addr: 4100 }));
    state.update(&Command::Free { addr: 4096 });
    assert_eq!(is_free_valid(4096, &state), Err(AccessError::InvalidFree { addr: 4096 }));
    assert_eq!(state.recorded_len(4096), None);
    // A refused free or a read changes nothing.
    state.update(&Command::Free { addr: 5000 });
    state.update(&Command::Read { addr: 5000, len: 4 });
    assert_eq!(is_malloc_valid(&Allocation { addr: 4096, len: 32 }, &state), Ok(()));
}

#[test]
fn replay_matches_predictions() {
    let cmds = vec![
        Command::Malloc { addr: 4096, len: 32 },
        Command::Malloc { addr: 4100, len: 8 },
        Command::Malloc { addr: 500, len: 8 },
        Command::Malloc { addr: 4128, len: 16 },
        Command::Free { addr: 4100 },
        Command::Free { addr: 4096 },
        Command::Free { addr: 4096 },
        Command::Malloc { addr: 4090, len: 40 },
        Command::Free { addr: 4128 },
    ];
    let mut state = BuggyCommandSequenceState::new(MEM, STACK);
    let mut predicted = Vec::new();
    for cmd in cmds.iter() {
        let p = match *cmd {
            Command::Malloc { addr, len } => is_malloc_valid(&Allocation { addr, len }, &state),
            Command::Free { addr } => is_free_valid(addr, &state),
            _ => Ok(()),
        };
        predicted.push(p);
        state.update(cmd);
    }
    let verdicts = replay(MEM, STACK, &cmds);
    assert_eq!(verdicts, predicted);
    assert_eq!(
        verdicts,
        vec![
            Ok(()),
            Err(AccessError::DoubleMalloc { addr: 4100, len: 8 }),
            Err(AccessError::OutOfBounds { addr: 500, len: 8 }),
            Ok(()),
            Err(AccessError::InvalidFree { addr: 4100 }),
            Ok(()),
            Err(AccessError::InvalidFree { addr: 4096 }),
            Err(AccessError::DoubleMalloc { addr: 4090, len: 40 }),
            Ok(()),
        ]
    );
}

fn bytes(seed: u32, n: usize) -> Vec<u8> {
    let mut x = seed.wrapping_mul(2654435761).wrapping_add(12345);
    let mut out = Vec::new();
    for _ in 0..n {
        x ^= x << 13;
        x ^= x >> 17;
        x ^= x << 5;
        out.push((x >> 8) as u8);
    }
    out
}

#[test]
fn generated_predictions_hold() {
    let mut drawn = 0;
    let mut accepted_frees = 0;
    for seed in 0..200u32 {
        let data = bytes(seed, 256);
        let mut u = Unstructured::new(&data);
        if let Some(seq) = BuggyCommandSequence::generate(&mut u, MEM, STACK) {
            drawn += 1;
            assert!(!seq.commands.is_empty() && seq.commands.len() <= 20);
            assert_eq!(seq.commands.len(), seq.results.len());
            assert_eq!(replay(MEM, STACK, &seq.commands), seq.results);
            for c in seq.commands.iter() {
                match *c {
                    Command::Malloc { addr, len } => assert!(1 <= addr && addr < MEM && 1 <= len && len < MEM),
                    Command::Free { .. } => {}
                    _ => panic!("only allocations and frees are drawn"),
                }
            }
            for (c, r) in seq.commands.iter().zip(seq.results.iter()) {
                if matches!(c, Command::Free { .. }) && r.is_ok() {
                    accepted_frees += 1;
                }
            }
        }
    }
    assert!(drawn > 10);
    assert!(accepted_frees > 0);
}

#[test]
fn valid_state_queries() {
    let mut state = CommandSequenceState::new();
    state.update(&wasm_valgrind::valid::Command::Malloc { addr: 2000, len: 10 });
    assert!(is_addr_allocated(&state, 2000));
    assert!(is_addr_allocated(&state, 2009));
    assert!(!is_addr_allocated(&state, 2010));
    assert!(!is_addr_allocated(&state, 1999));
    assert!(any_allocs_in_range(&state, 1990, 1998));
    assert!(!any_allocs_in_range(&state, 1990, 2000));
    assert!(!any_allocs_in_range(&state, 2010, 2020));
    assert!(any_allocs_in_range(&state, 2011, 2020));
    state.update(&wasm_valgrind::valid::Command::Free { addr: 2000, len: 10 });
    assert!(!is_addr_allocated(&state, 2000));
    assert!(any_allocs_in_range(&state, 1990, 2020));
}

#[test]
fn picked_ranges_are_free() {
    let mut state = CommandSequenceState::new();
    state.update(&wasm_valgrind::valid::Command::Malloc { addr: 3000, len: 100 });
    let mut picked = 0;
    for seed in 0..100u32 {
        let data = bytes(seed, 64);
        let mut u = Unstructured::new(&data);
        if let Some((addr, len)) = pick_free_addr_range(&state, &mut u, MEM, STACK) {
            picked += 1;
            assert!(addr > STACK);
            assert!(len >= 1);
            assert!(addr + len <= MEM);
            assert!(addr + len < 3000 || addr > 3100);
        }
    }
    assert!(picked > 50);
}

#[test]
fn generated_valid_sequences_are_accepted() {
    let mut drawn = 0;
    for seed in 0..100u32 {
        // The count of commands comes first, as a little-endian `u64`.
        let mut data = vec![(seed % 6) as u8, 0, 0, 0, 0, 0, 0, 0];
        data.extend(bytes(seed, 512));
        let mut u = Unstructured::new(&data);
        if let Some(seq) = CommandSequence::generate(&mut u, 64 * 1024, 256) {
            if !seq.commands.is_empty() {
                drawn += 1;
            }
            assert!(accepted_by_tracker(64 * 1024, 256, &seq.commands));
            let mut live: Vec<(usize, usize)> = Vec::new();
            for c in seq.commands.iter() {
                match *c {
                    V::Malloc { addr, len } => {
                        assert!(addr > 256 && len >= 1 && addr + len <= 64 * 1024);
                        live.push((addr, len));
                    }
                    V::Free { addr, len } => {
                        let k = live.iter().position(|p| *p == (addr, len)).expect("a free names a live range");
                        live.remove(k);
                    }
                    _ => panic!("only allocations and frees are drawn"),
                }
            }
        }
    }
    assert!(drawn > 0);
}

#[test]
fn accepted_by_tracker_stops_at_refusal() {
    assert!(accepted_by_tracker(4096, 64, &vec![V::Malloc { addr: 100, len: 4 }, V::Write { addr: 100, len: 4 }, V::Read { addr: 100, len: 4 }, V::Free { addr: 100, len: 4 }]));
    assert!(!accepted_by_tracker(4096, 64, &vec![V::Malloc { addr: 100, len: 4 }, V::Read { addr: 100, len: 4 }]));
    assert!(!accepted_by_tracker(4096, 64, &vec![V::Free { addr: 100, len: 4 }]));
}

#[test]
fn zero_length_allocation_is_not_recorded() {
    let mut state = BuggyCommandSequenceState::new(MEM, STACK);
    assert_eq!(is_malloc_valid(&Allocation { addr: 2000, len: 0 }, &state), Ok(()));
    state.update(&Command::Malloc { addr: 2000, len: 0 });
    assert_eq!(state.recorded_len(2000), None);
    assert_eq!(is_free_valid(2000, &state), Err(AccessError::InvalidFree { addr: 2000 }));
    state.update(&Command::Malloc { addr: 2000, len: 4 });
    assert_eq!(state.recorded_len(2000), Some(4));
}

use tracelock::Frame;
use tracelock::OptionLens;
use tracelock::PairLeftLens;
use tracelock::RwLock;
use tracelock::RwLockReadGuard;
use tracelock::RwLockWriteGuard;
use tracelock::Sequencer;

fn no_frames() -> Vec<Frame> {
    Vec::new()
}

fn release_count(lines: &[String], needle: &str) -> usize {
    lines.iter().filter(|l| l.contains(needle)).count()
}

#[test]
fn sequencer_issues_one_through_n() {
    let mut s = Sequencer::new();
    let a = s.next();
    let b = s.next();
    let c = s.next();
    assert_eq!((a, b, c), (1, 2, 3));
    assert!(a != b && b != c && a != c);
}

#[test]
fn fresh_lock_is_open_and_quiet() {
    let lock = RwLock::new(5u64);
    assert!(lock.is_open());
    assert_eq!(lock.sequence_count(), 0);
    assert!(lock.trace_lines().is_empty());
    assert_eq!(lock.into_inner(), 5);
}

#[test]
fn two_writes_in_turn_get_sequence_one_and_two() {
    let frames = no_frames();
    let mut lock = RwLock::new_named(0u64, "alpha".to_string());

    let mut first = lock.write(&frames);
    assert_eq!(first.seq, 1);
    assert!(!lock.is_open());
    *first.inner_mut() = 10;
    first.release(&mut lock, &frames);
    assert!(lock.is_open());

    let second = lock.write(&frames);
    assert_eq!(second.seq, 2);
    assert_eq!(*second.inner(), 10);
    second.release(&mut lock, &frames);

    let lines = lock.trace_lines().clone();
    assert_eq!(
        lines,
        vec![
            "[WRITE] Acquire (alpha:1):".to_string(),
            "[WRITE] Got (alpha:1):".to_string(),
            "[WRITE] Release (alpha:1):".to_string(),
            "[WRITE] Acquire (alpha:2):".to_string(),
            "[WRITE] Got (alpha:2):".to_string(),
            "[WRITE] Release (alpha:2):".to_string(),
        ]
    );
    // the second writer was granted only after the first hold was released
    let got_2 = lines.iter().position(|l| l == "[WRITE] Got (alpha:2):").unwrap();
    let rel_1 = lines.iter().position(|l| l == "[WRITE] Release (alpha:1):").unwrap();
    assert!(rel_1 < got_2);
}

#[test]
fn read_traces_use_the_read_tag() {
    let frames = no_frames();
    let mut lock = RwLock::new_named(7u64, "beta".to_string());
    let guard = lock.read(&frames);
    assert_eq!(*guard.inner(&lock), 7);
    guard.release(&mut lock, &frames);
    assert_eq!(
        lock.trace_lines().clone(),
        vec![
            "[READ] Acquire (beta:1):".to_string(),
            "[READ] Got (beta:1):".to_string(),
            "[READ] Release (beta:1):".to_string(),
        ]
    );
}

#[test]
fn release_trace_fires_exactly_once_per_guard() {
    let frames = no_frames();
    let mut lock = RwLock::new_named(0u64, "gamma".to_string());
    let g1 = lock.write(&frames);
    g1.release(&mut lock, &frames);
    let g2 = lock.read(&frames);
    g2.release(&mut lock, &frames);
    let lines = lock.trace_lines().clone();
    assert_eq!(release_count(&lines, "Release (gamma:1)"), 1);
    assert_eq!(release_count(&lines, "Release (gamma:2)"), 1);
}

#[test]
fn try_map_success_sees_the_sub_field() {
    let frames = no_frames();
    let mut lock = RwLock::new_named(Some(7u64), "delta".to_string());
    let guard = lock.write(&frames);
    let direct = guard.inner().unwrap();
    match RwLockWriteGuard::try_map(guard, &OptionLens) {
        Ok(mut mapped) => {
            assert_eq!(*mapped.inner(), direct);
            *mapped.inner_mut() = 9;
            mapped.release(&OptionLens, &mut lock, &frames);
        }
        Err(_) => panic!("projection over Some must succeed"),
    }
    assert_eq!(lock.into_inner(), Some(9));
}

#[test]
fn try_map_failure_returns_the_guard_unchanged() {
    let frames = no_frames();
    let mut lock = RwLock::new_named(None::<u64>, "epsilon".to_string());
    let guard = lock.write(&frames);
    match RwLockWriteGuard::try_map(guard, &OptionLens) {
        Ok(_) => panic!("projection over None must fail"),
        Err(mut original) => {
            assert_eq!(original.seq, 1);
            assert!(original.inner().is_none());
            *original.inner_mut() = Some(5);
            original.release(&mut lock, &frames);
        }
    }
    assert_eq!(lock.into_inner(), Some(5));
}

#[test]
fn try_map_transition_releases_the_hold_exactly_once() {
    let frames = no_frames();
    let mut lock = RwLock::new_named(Some(1u64), "zeta".to_string());
    let guard = lock.write(&frames);
    let mapped = match RwLockWriteGuard::try_map(guard, &OptionLens) {
        Ok(m) => m,
        Err(_) => panic!("projection over Some must succeed"),
    };
    // the exclusive hold is still alive: a second writer would not be granted
    assert!(!lock.is_open());
    assert_eq!(release_count(lock.trace_lines(), "Release (zeta:1)"), 0);
    mapped.release(&OptionLens, &mut lock, &frames);
    // and after the mapped guard goes, the hold is gone — exactly once
    assert!(lock.is_open());
    assert_eq!(release_count(lock.trace_lines(), "Release (zeta:1)"), 1);
    let next = lock.write(&frames);
    assert_eq!(next.seq, 2);
    next.release(&mut lock, &frames);
}

#[test]
fn pair_lens_narrows_to_the_first_component() {
    let frames = no_frames();
    let mut lock = RwLock::new_named((3u64, 4u64), "eta".to_string());
    let guard = lock.write(&frames);
    match RwLockWriteGuard::try_map(guard, &PairLeftLens) {
        Ok(mut mapped) => {
            assert_eq!(*mapped.inner(), 3);
            *mapped.inner_mut() = 30;
            mapped.release(&PairLeftLens, &mut lock, &frames);
        }
        Err(_) => panic!("pair projection is always present"),
    }
    assert_eq!(lock.into_inner(), (30, 4));
}

#[test]
fn guard_constructors_trace_the_grant() {
    let frames = no_frames();
    let mut lock = RwLock::new_named(5u64, "theta".to_string());
    let w = RwLockWriteGuard::new(&mut lock, 3, &frames);
    assert_eq!(w.value, 5);
    assert_eq!(w.name, "theta");
    assert_eq!(w.seq, 3);
    assert_eq!(
        lock.trace_lines().clone(),
        vec!["[WRITE] Got (theta:3):".to_string()]
    );
    w.release(&mut lock, &frames);

    let mut other = RwLock::new_named(7u64, "iota".to_string());
    let r = RwLockReadGuard::new(&mut other, 2, &frames);
    assert_eq!(r.name, "iota");
    assert_eq!(r.seq, 2);
    assert_eq!(
        other.trace_lines().clone(),
        vec!["[READ] Got (iota:2):".to_string()]
    );
    r.release(&mut other, &frames);
}

#[test]
fn concurrent_readers_share_the_lock() {
    let frames = no_frames();
    let mut lock = RwLock::new_named(7u64, "lambda".to_string());
    let g1 = lock.read(&frames);
    let g2 = lock.read(&frames);
    assert_eq!((g1.seq, g2.seq), (1, 2));
    assert_eq!(lock.readers(), 2);
    assert!(!lock.is_open());
    assert_eq!(*g1.inner(&lock), 7);
    assert_eq!(*g2.inner(&lock), 7);
    g1.release(&mut lock, &frames);
    assert_eq!(lock.readers(), 1);
    assert_eq!(*g2.inner(&lock), 7);
    g2.release(&mut lock, &frames);
    assert!(lock.is_open());
    assert_eq!(lock.into_inner(), 7);
}

#[test]
fn trace_lines_carry_the_filtered_caller_frames() {
    let frames = vec![
        Frame {
            path: Some("/work/tracelock/src/lock.rs".to_string()),
            line: Some(5),
            symbol: None,
        },
        Frame {
            path: Some("/work/app/src/main.rs".to_string()),
            line: Some(21),
            symbol: Some("app::run".to_string()),
        },
        Frame {
            path: Some("/home/dev/.cargo/registry/src/dep.rs".to_string()),
            line: Some(9),
            symbol: None,
        },
    ];
    let mut lock = RwLock::new_named(0u64, "kappa".to_string());
    let guard = lock.write(&frames);
    guard.release(&mut lock, &frames);
    assert_eq!(
        lock.trace_lines()[0],
        "[WRITE] Acquire (kappa:1):\n[0] /work/app/src/main.rs:21 [app::run]"
    );
}

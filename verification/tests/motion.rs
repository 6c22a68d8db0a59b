use theywork_render::counts::WorkerStatus;
use theywork_render::motion::idle_step;

fn fnv(bytes: &[u8]) -> u64 {
    bytes.iter().fold(14695981039346656037u64, |hash, byte| {
        (hash ^ u64::from(*byte)).wrapping_mul(1099511628211)
    })
}

#[test]
fn idle_workers_walk_out_and_back() {
    assert_eq!(idle_step(WorkerStatus::Idle, b"", 25_963, 600), (-100, true));
    assert_eq!(idle_step(WorkerStatus::Idle, b"", 25_963 + 4_000, 600), (-200, false));
    assert_eq!(idle_step(WorkerStatus::Idle, b"", 25_963 + 20_000, 600), (0, false));
}

#[test]
fn only_idle_animated_workers_move() {
    assert_eq!(idle_step(WorkerStatus::Running, b"a", 30_000, 600), (0, false));
    assert_eq!(idle_step(WorkerStatus::Idle, b"a", 0, 600), (0, false));
}

#[test]
fn walks_follow_the_id_hash_and_stay_short() {
    for id in [&b"thread-1"[..], b"thread-2", b"/golden/they-work#worker-3"] {
        let seed = fnv(id);
        for now in (1..52_000).step_by(997) {
            let (step, walking) = idle_step(WorkerStatus::Idle, id, now, 300);
            assert!(step.abs() * 3 <= 300);
            let phase = (now as u64 + seed % 26_000) % 26_000;
            assert_eq!(walking, (8_000..12_000).contains(&phase) || (16_000..20_000).contains(&phase));
            if step != 0 {
                assert_eq!(step > 0, seed % 2 == 0);
            }
        }
    }
}

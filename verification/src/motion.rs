//! Idle workers stretching their legs: a short walk away from the desk and
//! back, at a time and in a direction of their own.
use vstd::prelude::*;
use crate::counts::WorkerStatus;

verus! {

/// The 64-bit FNV-1a hash of a worker's id.
pub open spec fn id_hash(bytes: Seq<u8>) -> u64
    decreases bytes.len(),
{
    if bytes.len() == 0 {
        14695981039346656037u64
    } else {
        vstd::wrapping::u64_specs::wrapping_mul(id_hash(bytes.drop_last()) ^ (bytes.last() as u64), 1099511628211u64)
    }
}

/// How long one walk cycle lasts.
pub const IDLE_CYCLE_MS: u64 = 26_000;

/// Where a worker is in its walk cycle: its own offset into the cycle, so
/// that workers do not walk in step.
pub open spec fn walk_phase(seed: u64, animation_now: i64) -> int {
    let t = if animation_now > 0 {
        animation_now as int
    } else {
        0
    };
    (t + seed as int % 26_000) % 26_000
}

/// How far out the walk is, in twelve-thousandths of a third of the
/// width: out over four seconds, a four-second pause, and back over four.
pub open spec fn walk_fraction(phase: int) -> int {
    if 8_000 <= phase < 12_000 {
        phase - 8_000
    } else if 12_000 <= phase < 16_000 {
        4_000
    } else if 16_000 <= phase < 20_000 {
        20_000 - phase
    } else {
        0
    }
}

/// Whether the worker is on the move at this phase.
pub open spec fn walking(phase: int) -> bool {
    (8_000 <= phase < 12_000) || (16_000 <= phase < 20_000)
}

/// An idle worker's step away from its desk and whether it is walking:
/// out to a third of `width` and back, left or right by the id's hash;
/// standing still when not idle or when animation is off.
pub open spec fn idle_step_spec(status: WorkerStatus, id: Seq<u8>, animation_now: i64, width: int) -> (int, bool) {
    if animation_now == 0 || status != WorkerStatus::Idle {
        (0, false)
    } else {
        let seed = id_hash(id);
        let phase = walk_phase(seed, animation_now);
        let distance = width * walk_fraction(phase) / 12_000;
        (if seed % 2 == 0 {
            distance
        } else {
            -distance
        }, walking(phase))
    }
}

fn hash_id(id: &[u8]) -> (r: u64)
    ensures
        r == id_hash(id@),
{
    let mut hash: u64 = 14695981039346656037u64;
    let mut i: usize = 0;
    while i < id.len()
        invariant
            i <= id@.len(),
            hash == id_hash(id@.take(i as int)),
        decreases id.len() - i,
    {
        proof {
            assert(id@.take(i + 1).drop_last() =~= id@.take(i as int));
            assert(id@.take(i + 1).last() == id@[i as int]);
        }
        hash = (hash ^ id[i] as u64).wrapping_mul(1099511628211u64);
        i += 1;
    }
    assert(id@.take(id@.len() as int) =~= id@);
    hash
}

pub fn idle_step(status: WorkerStatus, id: &[u8], animation_now: i64, width: usize) -> (r: (i32, bool))
    requires
        width <= u32::MAX,
    ensures
        (r.0 as int, r.1) == idle_step_spec(status, id@, animation_now, width as int),
{
    if animation_now == 0 || status != WorkerStatus::Idle {
        return (0, false);
    }
    let seed = hash_id(id);
    let t: u64 = if animation_now > 0 {
        animation_now as u64
    } else {
        0
    };
    let phase = (t + seed % IDLE_CYCLE_MS) % IDLE_CYCLE_MS;
    let fraction: u64 = if 8_000 <= phase && phase < 12_000 {
        phase - 8_000
    } else if 12_000 <= phase && phase < 16_000 {
        4_000
    } else if 16_000 <= phase && phase < 20_000 {
        20_000 - phase
    } else {
        0
    };
    assert(width as u64 * fraction <= 0xffff_ffff * 4_000) by (nonlinear_arith)
        requires
            width <= 0xffff_ffff,
            fraction <= 4_000,
    ;
    let product: u64 = width as u64 * fraction;
    let distance: u64 = product / 12_000;
    assert(distance <= 0xffff_ffff * 4_000 / 12_000);
    let step: i32 = if seed % 2 == 0 {
        distance as i32
    } else {
        -(distance as i32)
    };
    (step, (8_000 <= phase && phase < 12_000) || (16_000 <= phase && phase < 20_000))
}

/// Walks come back: an idle worker is at its desk for most of each cycle,
/// never strays more than a third of the width, and stands still while
/// it is not idle.
pub proof fn law_idle_walks_return_to_the_desk(status: WorkerStatus, id: Seq<u8>, animation_now: i64, width: nat)
    ensures
        idle_step_spec(status, id, animation_now, width as int).0 * 3 <= width,
        -(width as int) <= idle_step_spec(status, id, animation_now, width as int).0 * 3,
        status != WorkerStatus::Idle ==> idle_step_spec(status, id, animation_now, width as int) == (0int, false),
        !(8_000 <= walk_phase(id_hash(id), animation_now) < 20_000) ==> idle_step_spec(status, id, animation_now, width as int).0 == 0,
{
    let seed = id_hash(id);
    let phase = walk_phase(seed, animation_now);
    lemma_walk_is_short(width as int, walk_fraction(phase));
}

proof fn lemma_walk_is_short(width: int, f: int)
    requires
        0 <= f <= 4_000,
        width >= 0,
    ensures
        0 <= width * f / 12_000,
        (width * f / 12_000) * 3 <= width,
{
    assert(0 <= width * f / 12_000 && (width * f / 12_000) * 3 <= width) by (nonlinear_arith)
        requires
            0 <= f <= 4_000,
            width >= 0,
    ;
}

} // verus!

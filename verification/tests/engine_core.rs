use engine::entity::{Entity, EntityStore};
use engine::game_loop::{FrameClock, TICK_UNITS};
use engine::input::{InputState, KeyEvent};
use engine::physics::broadphase::{GridFootprint, UniformGrid};
use engine::physics::get_two_mut;
use engine::physics::integrator::{update_rest, SLEEP_STEPS};
use engine::renderer::MeshBatch;

const KEY_A: u32 = 4;
const KEY_D: u32 = 7;

#[test]
fn get_two_mut_borrows_both_orders() {
    let mut v = vec![1, 2, 3, 4];
    {
        let (a, b) = get_two_mut(&mut v, 1, 3);
        assert_eq!((*a, *b), (2, 4));
        *a = 20;
        *b = 40;
    }
    assert_eq!(v, vec![1, 20, 3, 40]);
    {
        let (a, b) = get_two_mut(&mut v, 3, 0);
        assert_eq!((*a, *b), (40, 1));
        std::mem::swap(a, b);
    }
    assert_eq!(v, vec![40, 20, 3, 1]);
}

#[test]
fn spawn_hands_out_increasing_ids() {
    let mut store: EntityStore<&str> = EntityStore::new();
    assert_eq!(store.next_id(), 0);
    assert_eq!(store.spawn("a"), 0);
    assert_eq!(store.spawn("b"), 1);
    assert_eq!(store.spawn("c"), 2);
    assert_eq!(store.next_id(), 3);
    let ids: Vec<u32> = store.iter().iter().map(|e| e.id).collect();
    assert_eq!(ids, vec![0, 1, 2]);
}

#[test]
fn get_after_spawn_finds_the_entity() {
    let mut store: EntityStore<i32> = EntityStore::default();
    let id = store.spawn(7);
    let other = store.spawn(9);
    assert_eq!(store.get(id).map(|e| e.data), Some(7));
    assert_eq!(store.get(other).map(|e| e.data), Some(9));
    assert!(store.get(99).is_none());
}

#[test]
fn get_mut_changes_only_that_entity() {
    let mut store: EntityStore<i32> = EntityStore::new();
    let a = store.spawn(1);
    let b = store.spawn(2);
    if let Some(e) = store.get_mut(b) {
        e.data = 20;
    }
    assert!(store.get_mut(5).is_none());
    assert_eq!(store.get(a).map(|e| e.data), Some(1));
    assert_eq!(store.get(b).map(|e| e.data), Some(20));
}

#[test]
fn remove_then_get_finds_nothing() {
    let mut store: EntityStore<i32> = EntityStore::new();
    let a = store.spawn(1);
    let b = store.spawn(2);
    let c = store.spawn(3);
    assert!(store.remove(b));
    assert!(!store.remove(b));
    assert!(store.get(b).is_none());
    assert_eq!(store.get(a).map(|e| e.data), Some(1));
    assert_eq!(store.get(c).map(|e| e.data), Some(3));
    let ids: Vec<u32> = store.iter().iter().map(|e| e.id).collect();
    assert_eq!(ids, vec![0, 2]);
    // ids are never reused
    assert_eq!(store.spawn(4), 3);
}

#[test]
fn iter_mut_updates_every_entity() {
    let mut store: EntityStore<i32> = EntityStore::new();
    store.spawn(1);
    store.spawn(2);
    for e in store.iter_mut().iter_mut() {
        e.data *= 10;
    }
    let data: Vec<i32> = store.iter().iter().map(|e: &Entity<i32>| e.data).collect();
    assert_eq!(data, vec![10, 20]);
}

#[test]
fn key_press_hold_release_cycle() {
    let mut input = InputState::new();
    assert!(!input.is_held(KEY_A));
    input.process_event(KeyEvent::Pressed(KEY_A));
    assert!(input.is_just_pressed(KEY_A));
    assert!(input.is_held(KEY_A));
    assert!(!input.is_just_released(KEY_A));
    input.begin_frame();
    assert!(!input.is_just_pressed(KEY_A));
    assert!(input.is_held(KEY_A));
    input.process_event(KeyEvent::Released(KEY_A));
    assert!(!input.is_held(KEY_A));
    assert!(input.is_just_released(KEY_A));
    input.begin_frame();
    assert!(!input.is_just_released(KEY_A));
    assert!(!input.is_held(KEY_A));
}

#[test]
fn repeated_press_of_held_key_is_ignored() {
    let mut input = InputState::default();
    input.process_event(KeyEvent::Pressed(KEY_D));
    input.begin_frame();
    input.process_event(KeyEvent::Pressed(KEY_D));
    assert!(!input.is_just_pressed(KEY_D));
    assert!(input.is_held(KEY_D));
}

#[test]
fn tap_within_one_frame() {
    let mut input = InputState::new();
    input.process_event(KeyEvent::Pressed(KEY_A));
    input.process_event(KeyEvent::Released(KEY_A));
    assert!(input.is_just_pressed(KEY_A));
    assert!(input.is_just_released(KEY_A));
    assert!(!input.is_held(KEY_A));
    // the frame start moves every key pressed during the frame to the held set
    input.begin_frame();
    assert!(input.is_held(KEY_A));
    assert!(!input.is_just_pressed(KEY_A));
}

#[test]
fn begin_frame_twice_is_begin_frame_once() {
    let mut input = InputState::new();
    input.process_event(KeyEvent::Pressed(KEY_A));
    input.process_event(KeyEvent::Released(KEY_D));
    input.begin_frame();
    input.begin_frame();
    assert!(input.is_held(KEY_A));
    assert!(!input.is_just_pressed(KEY_A));
    assert!(!input.is_just_released(KEY_D));
}

#[test]
fn frame_clock_runs_whole_ticks_and_keeps_the_rest() {
    let mut clock = FrameClock::new();
    // 20 ms = 1.2 ticks
    let step = clock.advance(20_000_000);
    assert_eq!(step.ticks, 1);
    assert!(!step.clamped);
    assert_eq!(clock.accumulated(), 200_000_000);
    // 10 ms = 0.6 ticks; 0.2 + 0.6 = 0.8
    let step = clock.advance(10_000_000);
    assert_eq!(step.ticks, 0);
    assert_eq!(clock.accumulated(), 800_000_000);
    // exactly one tick of 1/60 s would need fractional nanoseconds; 5 ms = 0.3
    let step = clock.advance(5_000_000);
    assert_eq!(step.ticks, 1);
    assert_eq!(clock.accumulated(), 100_000_000);
    assert!(clock.accumulated() < TICK_UNITS);
}

#[test]
fn frame_clock_clamps_slow_frames_to_two_ticks() {
    let mut clock = FrameClock::new();
    let step = clock.advance(50_000_000); // 3 ticks due
    assert!(step.clamped);
    assert_eq!(step.ticks, 2);
    assert_eq!(clock.accumulated(), 0);
    let step = clock.advance(1_000_000_000); // 60 ticks due
    assert!(step.clamped);
    assert_eq!(step.ticks, 2);
    let step = clock.advance(33_000_000); // 1.98 ticks
    assert!(!step.clamped);
    assert_eq!(step.ticks, 1);
    assert_eq!(clock.accumulated(), 980_000_000);
}

#[test]
fn frame_clock_time_is_conserved_without_clamping() {
    let mut clock = FrameClock::new();
    let frames = [16_000_000u64, 17_000_000, 15_500_000, 16_666_666, 1, 30_000_000];
    let mut ticks: u64 = 0;
    for f in frames {
        let step = clock.advance(f);
        assert!(!step.clamped);
        ticks += step.ticks as u64;
    }
    let total: u64 = frames.iter().sum::<u64>() * 60;
    assert_eq!(ticks * TICK_UNITS + clock.accumulated(), total);
}

#[test]
fn frame_clock_averages_the_last_sixty_frames() {
    let mut clock = FrameClock::new();
    assert_eq!(clock.recent_frame_total(), (0, 0));
    clock.advance(10);
    clock.advance(20);
    assert_eq!(clock.recent_frame_total(), (30, 2));
    let mut clock = FrameClock::new();
    for i in 1..=70u64 {
        clock.advance(i);
    }
    assert_eq!(clock.frame_count(), 70);
    let expected: u64 = (11..=70u64).sum();
    assert_eq!(clock.recent_frame_total(), (expected as u128, 60));
}

fn fp(min_x: i32, min_y: i32, max_x: i32, max_y: i32, is_static: bool) -> GridFootprint {
    GridFootprint { min_x, min_y, max_x, max_y, is_static }
}

fn sorted(mut v: Vec<(usize, usize)>) -> Vec<(usize, usize)> {
    v.sort();
    v
}

#[test]
fn broadphase_pairs_bodies_sharing_a_cell() {
    let mut grid = UniformGrid::new();
    let bodies = [
        fp(0, 0, 1, 1, false),
        fp(1, 1, 2, 2, false),
        fp(5, 5, 6, 6, false),
        fp(2, 0, 3, 0, false),
    ];
    assert_eq!(sorted(grid.candidate_pairs(&bodies)), vec![(0, 1)]);
}

#[test]
fn broadphase_reports_each_pair_once() {
    let mut grid = UniformGrid::new();
    // the two bodies share nine cells
    let bodies = [fp(-1, -1, 1, 1, false), fp(-1, -1, 1, 1, false)];
    assert_eq!(grid.candidate_pairs(&bodies), vec![(0, 1)]);
}

#[test]
fn broadphase_skips_static_pairs() {
    let mut grid = UniformGrid::new();
    let bodies = [
        fp(0, 0, 10, 0, true),
        fp(5, 0, 5, 0, true),
        fp(3, -1, 3, 0, false),
        fp(-4, -4, -3, -3, false),
    ];
    assert_eq!(sorted(grid.candidate_pairs(&bodies)), vec![(0, 2)]);
}

#[test]
fn broadphase_reuses_the_grid_between_queries() {
    let mut grid = UniformGrid::new();
    let first = [fp(0, 0, 0, 0, false), fp(0, 0, 0, 0, false)];
    assert_eq!(grid.candidate_pairs(&first), vec![(0, 1)]);
    let second = [fp(0, 0, 0, 0, false), fp(9, 9, 9, 9, false)];
    assert!(grid.candidate_pairs(&second).is_empty());
    assert!(grid.candidate_pairs(&[]).is_empty());
}

#[test]
fn broadphase_handles_extreme_cells() {
    let mut grid = UniformGrid::new();
    let bodies = [
        fp(i32::MAX, i32::MIN, i32::MAX, i32::MIN, false),
        fp(i32::MAX, i32::MIN, i32::MAX, i32::MIN, false),
        fp(i32::MIN, i32::MAX, i32::MIN, i32::MAX, false),
    ];
    assert_eq!(grid.candidate_pairs(&bodies), vec![(0, 1)]);
}

#[test]
fn quad_uses_two_triangles() {
    let mut batch: MeshBatch<char> = MeshBatch::new();
    batch.push_quad('a', 'b', 'c', 'd');
    batch.push_quad('e', 'f', 'g', 'h');
    assert_eq!(batch.vertices(), &['a', 'b', 'c', 'd', 'e', 'f', 'g', 'h']);
    assert_eq!(batch.indices(), &[0, 1, 2, 0, 2, 3, 4, 5, 6, 4, 6, 7]);
    batch.begin_frame();
    assert!(batch.vertices().is_empty());
    assert!(batch.indices().is_empty());
}

#[test]
fn fan_closes_around_the_centre() {
    let mut batch: MeshBatch<u8> = MeshBatch::new();
    batch.push_quad(0, 0, 0, 0);
    batch.push_fan(9, vec![1, 2, 3]);
    assert_eq!(batch.vertices(), &[0, 0, 0, 0, 9, 1, 2, 3]);
    assert_eq!(
        batch.indices(),
        &[0, 1, 2, 0, 2, 3, 4, 5, 6, 4, 6, 7, 4, 7, 5]
    );
    // every index names an existing vertex
    assert!(batch.indices().iter().all(|&i| (i as usize) < batch.vertices().len()));
}

#[test]
fn fan_without_segments_adds_only_the_centre() {
    let mut batch: MeshBatch<u8> = MeshBatch::new();
    batch.push_fan(1, Vec::new());
    assert_eq!(batch.vertices(), &[1]);
    assert!(batch.indices().is_empty());
}

#[test]
fn body_sleeps_after_sixty_resting_steps() {
    let mut counter = 0;
    let mut asleep = false;
    for _ in 0..59 {
        let r = update_rest(counter, true);
        counter = r.0;
        asleep = r.1;
    }
    assert_eq!(counter, 59);
    assert!(!asleep);
    let r = update_rest(counter, true);
    assert_eq!(r, (SLEEP_STEPS, true));
    assert_eq!(update_rest(r.0, false), (0, false));
}

#[test]
fn broadphase_answer_depends_only_on_footprints() {
    let bodies: Vec<GridFootprint> = (0..12)
        .map(|i| fp(i % 4, i / 4, i % 4 + 1, i / 4 + (i % 2), i % 5 == 0))
        .collect();
    let mut first = UniformGrid::new();
    let mut second = UniformGrid::new();
    let a = sorted(first.candidate_pairs(&bodies));
    let b = sorted(second.candidate_pairs(&bodies));
    let c = sorted(first.candidate_pairs(&bodies));
    assert_eq!(a, b);
    assert_eq!(a, c);
    // every reported pair shares a cell and is not static-static, and no pair repeats
    for w in a.windows(2) {
        assert!(w[0] < w[1]);
    }
    for &(i, j) in &a {
        assert!(i < j);
        let (f, g) = (bodies[i], bodies[j]);
        assert!(!(f.is_static && g.is_static));
        assert!(f.min_x.max(g.min_x) <= f.max_x.min(g.max_x));
        assert!(f.min_y.max(g.min_y) <= f.max_y.min(g.max_y));
    }
}

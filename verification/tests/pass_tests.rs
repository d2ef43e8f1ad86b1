use particle_sim::forces::{accumulate, apply_spring_forces, scan_springs};
use particle_sim::mesh::{create_cube_mesh, Span, Spring, SPRINGS_GRID};
use particle_sim::pairs::{collision_pass, commit, scan_pairs, PairUpdate};
use particle_sim::stepper::{Action, SimLoop};

#[derive(Clone, Copy, Debug, PartialEq)]
struct Ball {
    position: (f64, f64),
    velocity: (f64, f64),
    mass: f64,
}

const RADIUS: f64 = 10.0;
const RESTITUTION: f64 = 1.0;

fn resolve(a: &Ball, b: &Ball) -> Option<((f64, f64), (f64, f64))> {
    let dx = a.position.0 - b.position.0;
    let dy = a.position.1 - b.position.1;
    let distance = (dx * dx + dy * dy).sqrt();
    if !(distance < 2.0 * RADIUS) || distance == 0.0 {
        return None;
    }
    let nx = dx / distance;
    let ny = dy / distance;
    let dot = (a.velocity.0 - b.velocity.0) * nx + (a.velocity.1 - b.velocity.1) * ny;
    if dot > 0.0 {
        return Some((a.velocity, b.velocity));
    }
    let impulse = (1.0 + RESTITUTION) * dot / (a.mass + b.mass);
    Some((
        (a.velocity.0 - impulse * b.mass * nx, a.velocity.1 - impulse * b.mass * ny),
        (b.velocity.0 + impulse * a.mass * nx, b.velocity.1 + impulse * a.mass * ny),
    ))
}

fn ball(x: f64, y: f64, vx: f64, vy: f64, mass: f64) -> Ball {
    Ball { position: (x, y), velocity: (vx, vy), mass }
}

fn velocities(balls: &Vec<Ball>) -> Vec<(f64, f64)> {
    balls.iter().map(|b| b.velocity).collect()
}

fn update<V>(first: usize, second: usize, first_value: V, second_value: V) -> PairUpdate<V> {
    PairUpdate { first, second, first_value, second_value }
}

fn as_tuple<V: Copy>(u: &PairUpdate<V>) -> (usize, usize, V, V) {
    (u.first, u.second, u.first_value, u.second_value)
}

#[test]
fn pairs_are_asked_in_order_and_from_the_snapshot() {
    let balls: Vec<u32> = vec![10, 20, 30, 40];
    let updates = scan_pairs(&balls, |a: &u32, b: &u32| Some((*a + *b, *b - *a)));
    let seen: Vec<(usize, usize, u32, u32)> = updates.iter().map(as_tuple).collect();
    assert_eq!(
        seen,
        vec![
            (0, 1, 30, 10),
            (0, 2, 40, 20),
            (0, 3, 50, 30),
            (1, 2, 50, 10),
            (1, 3, 60, 20),
            (2, 3, 70, 10),
        ]
    );
}

#[test]
fn pairs_that_the_kernel_declines_leave_no_update() {
    let balls: Vec<u32> = vec![1, 2, 3, 4, 5];
    let updates = scan_pairs(&balls, |a: &u32, b: &u32| {
        if (*a + *b) % 3 == 0 {
            Some((*a, *b))
        } else {
            None
        }
    });
    let seen: Vec<(usize, usize, u32, u32)> = updates.iter().map(as_tuple).collect();
    assert_eq!(seen, vec![(0, 1, 1, 2), (0, 4, 1, 5), (1, 3, 2, 4), (3, 4, 4, 5)]);
}

#[test]
fn fewer_than_two_balls_have_no_pairs() {
    let none: Vec<u32> = Vec::new();
    assert!(scan_pairs(&none, |a: &u32, b: &u32| Some((*a, *b))).is_empty());
    let one: Vec<u32> = vec![5];
    assert!(scan_pairs(&one, |a: &u32, b: &u32| Some((*a, *b))).is_empty());
}

#[test]
fn commit_keeps_the_later_of_two_updates_for_one_ball() {
    let snapshot = vec![1, 2, 3, 4];
    let updates = vec![update(0, 1, 10, 20), update(1, 2, 21, 30)];
    assert_eq!(commit(&snapshot, &updates), vec![10, 21, 30, 4]);
    assert_eq!(snapshot, vec![1, 2, 3, 4]);
}

#[test]
fn commit_of_nothing_is_the_snapshot() {
    let snapshot = vec![7, 8, 9];
    let updates: Vec<PairUpdate<i32>> = Vec::new();
    assert_eq!(commit(&snapshot, &updates), snapshot);
}

#[test]
fn commit_writes_the_second_value_last() {
    let snapshot = vec![0, 0];
    let updates = vec![update(1, 1, 5, 6)];
    assert_eq!(commit(&snapshot, &updates), vec![0, 6]);
}

#[test]
fn head_on_equal_masses_swap_velocities() {
    let balls = vec![ball(100.0, 50.0, 400.0, 0.0, 2.0), ball(115.0, 50.0, -400.0, 0.0, 2.0)];
    let next = collision_pass(&balls, &velocities(&balls), resolve);
    assert!((next[0].0 - -400.0).abs() < 1e-9 && next[0].1.abs() < 1e-9);
    assert!((next[1].0 - 400.0).abs() < 1e-9 && next[1].1.abs() < 1e-9);
}

#[test]
fn separating_balls_keep_their_velocities() {
    let balls = vec![ball(100.0, 50.0, -400.0, 0.0, 2.0), ball(115.0, 50.0, 400.0, 0.0, 2.0)];
    let next = collision_pass(&balls, &velocities(&balls), resolve);
    assert_eq!(next, velocities(&balls));
    let again = collision_pass(&balls, &next, resolve);
    assert_eq!(again, velocities(&balls));
}

#[test]
fn touching_balls_do_not_collide() {
    let balls = vec![ball(100.0, 50.0, 400.0, 0.0, 1.0), ball(120.0, 50.0, -400.0, 0.0, 1.0)];
    assert!(scan_pairs(&balls, resolve).is_empty());
    assert_eq!(collision_pass(&balls, &velocities(&balls), resolve), velocities(&balls));
}

#[test]
fn balls_in_one_place_are_skipped() {
    let balls = vec![ball(100.0, 50.0, 400.0, 0.0, 1.0), ball(100.0, 50.0, -400.0, 0.0, 1.0)];
    assert_eq!(collision_pass(&balls, &velocities(&balls), resolve), velocities(&balls));
}

#[test]
fn heavy_ball_pushes_light_ball() {
    let balls = vec![ball(100.0, 400.0, 400.0, 0.0, 10.0), ball(115.0, 400.0, 0.0, 0.0, 1.0)];
    let next = collision_pass(&balls, &velocities(&balls), resolve);
    assert!((next[0].0 - 400.0 * 9.0 / 11.0).abs() < 1e-9);
    assert!((next[1].0 - 400.0 * 20.0 / 11.0).abs() < 1e-9);
}

#[test]
fn every_pair_is_resolved_from_the_velocities_before_the_pass() {
    let balls = vec![
        ball(100.0, 50.0, 300.0, 0.0, 1.0),
        ball(115.0, 50.0, 0.0, 0.0, 1.0),
        ball(130.0, 50.0, -300.0, 0.0, 1.0),
    ];
    let updates = scan_pairs(&balls, resolve);
    let pairs: Vec<(usize, usize)> = updates.iter().map(|u| (u.first, u.second)).collect();
    assert_eq!(pairs, vec![(0, 1), (1, 2)]);
    assert_eq!(updates[0].second_value, (300.0, 0.0));
    assert_eq!(updates[1].first_value, (-300.0, 0.0));
    let next = collision_pass(&balls, &velocities(&balls), resolve);
    assert_eq!(next, vec![(0.0, 0.0), (-300.0, 0.0), (0.0, 0.0)]);
}

fn pull(a: &i64, b: &i64, spring: &Spring) -> (i64, i64) {
    let rest: i64 = match spring.span {
        Span::AlongX => 10,
        Span::AlongY => 20,
        Span::Diagonal => 30,
    };
    let force = 3 * ((*b - *a).abs() - rest);
    (force, -force)
}

fn link(ball1_index: usize, ball2_index: usize, span: Span) -> Spring {
    Spring { ball1_index, ball2_index, span }
}

#[test]
fn springs_are_shown_in_order_with_their_own_balls() {
    let balls: Vec<i64> = vec![0, 14, 40];
    let springs = vec![link(0, 1, Span::AlongX), link(1, 2, Span::AlongY), link(0, 2, Span::Diagonal)];
    let pulls = scan_springs(&balls, &springs, pull);
    let seen: Vec<(usize, usize, i64, i64)> = pulls.iter().map(as_tuple).collect();
    assert_eq!(seen, vec![(0, 1, 12, -12), (1, 2, 18, -18), (0, 2, 30, -30)]);
}

#[test]
fn accumulate_sums_ball_by_ball() {
    let start: Vec<i64> = vec![1, 1, 1];
    let entries = vec![update(0, 1, 12, -12), update(1, 2, 18, -18), update(0, 2, 30, -30)];
    let total = accumulate(&start, &entries, &|a: i64, b: i64| a + b);
    assert_eq!(total, vec![43, 7, -47]);
}

#[test]
fn accumulate_sums_in_the_order_of_the_entries() {
    let start: Vec<u64> = vec![1, 2];
    let entries = vec![update(0, 1, 3, 4), update(1, 0, 5, 6)];
    let total = accumulate(&start, &entries, &|a: u64, b: u64| a * 10 + b);
    assert_eq!(total, vec![136, 245]);
}

#[test]
fn spring_pass_adds_each_total_once() {
    let balls: Vec<i64> = vec![0, 14, 40];
    let springs = vec![link(0, 1, Span::AlongX), link(1, 2, Span::AlongY), link(0, 2, Span::Diagonal)];
    let accelerations: Vec<i64> = vec![100, 200, 300];
    let after = apply_spring_forces(&balls, &springs, &accelerations, 0, pull, &|a: i64, b: i64| a + b);
    assert_eq!(after, vec![142, 206, 252]);
}

#[test]
fn springs_at_rest_leave_accelerations_alone() {
    let balls: Vec<i64> = vec![0, 10, 30];
    let springs = vec![link(0, 1, Span::AlongX), link(1, 2, Span::AlongY), link(0, 2, Span::Diagonal)];
    let accelerations: Vec<i64> = vec![5, -6, 7];
    let after = apply_spring_forces(&balls, &springs, &accelerations, 0, pull, &|a: i64, b: i64| a + b);
    assert_eq!(after, accelerations);
}

#[test]
fn mesh_without_springs_leaves_accelerations_alone() {
    let balls: Vec<i64> = vec![3, 4];
    let springs: Vec<Spring> = Vec::new();
    let accelerations: Vec<i64> = vec![8, 9];
    let after = apply_spring_forces(&balls, &springs, &accelerations, 0, pull, &|a: i64, b: i64| a + b);
    assert_eq!(after, accelerations);
}

#[test]
fn stretched_grid_mesh_pulls_its_corner_inwards() {
    let mesh = create_cube_mesh(1, 1, SPRINGS_GRID).unwrap();
    let spacing = 50.0f64;
    let mut balls: Vec<Ball> = mesh
        .balls
        .iter()
        .map(|cell| ball(cell.i as f64 * spacing, cell.j as f64 * spacing, 0.0, 0.0, 1.0))
        .collect();
    balls[3].position = (60.0, 50.0);
    let stiffness = 0.5f64;
    let kernel = |a: &Ball, b: &Ball, _spring: &Spring| {
        let dx = b.position.0 - a.position.0;
        let dy = b.position.1 - a.position.1;
        let distance = (dx * dx + dy * dy).sqrt();
        let magnitude = stiffness * (distance - spacing);
        let (ux, uy) = if distance != 0.0 { (dx / distance, dy / distance) } else { (0.0, 0.0) };
        ((ux * magnitude / a.mass, uy * magnitude / a.mass), (-ux * magnitude / b.mass, -uy * magnitude / b.mass))
    };
    let zero = (0.0f64, 0.0f64);
    let accelerations = vec![zero; balls.len()];
    let after = apply_spring_forces(
        &balls,
        &mesh.springs,
        &accelerations,
        zero,
        kernel,
        &|a: (f64, f64), b: (f64, f64)| (a.0 + b.0, a.1 + b.1),
    );
    assert_eq!(after[0], zero);
    assert!((after[1].0 - 5.0).abs() < 1e-12 && after[1].1.abs() < 1e-12);
    let dy = 50.0f64;
    let dx = 10.0f64;
    let distance = (dx * dx + dy * dy).sqrt();
    let expected = 0.5 * (distance - 50.0);
    assert!((after[3].0 - (-5.0 - expected * dx / distance)).abs() < 1e-12);
    assert!((after[2].0 - expected * dx / distance).abs() < 1e-12);
    assert!((after[2].1 - expected * dy / distance).abs() < 1e-12);
    assert!((after[3].1 - -(expected * dy / distance)).abs() < 1e-12);
}

fn integrate(b: &mut Ball, acceleration: (f64, f64), dt: f64) {
    let k_vel = (acceleration.0 * dt, acceleration.1 * dt);
    let k1 = (b.velocity.0 * dt, b.velocity.1 * dt);
    let k2 = ((b.velocity.0 + k_vel.0 / 2.0) * dt, (b.velocity.1 + k_vel.1 / 2.0) * dt);
    let k3 = k2;
    let k4 = ((b.velocity.0 + k_vel.0) * dt, (b.velocity.1 + k_vel.1) * dt);
    b.position.0 += (k1.0 + 2.0 * k2.0 + 2.0 * k3.0 + k4.0) / 6.0;
    b.position.1 += (k1.1 + 2.0 * k2.1 + 2.0 * k3.1 + k4.1) / 6.0;
    b.velocity.0 += (k_vel.0 + 2.0 * k_vel.0 + 2.0 * k_vel.0 + k_vel.0) / 6.0;
    b.velocity.1 += (k_vel.1 + 2.0 * k_vel.1 + 2.0 * k_vel.1 + k_vel.1) / 6.0;
}

fn drive_right(start_x: f64, frames: u32) -> (Ball, u32, Option<u32>) {
    let width = 1000.0f64;
    let epsilon = 0.01f64;
    let rate: u64 = 1600;
    let dt = 1.0 / rate as f64;
    let mut b = ball(start_x, 400.0, 400.0, 0.0, 1.0);
    let mut sim = SimLoop::new(rate).unwrap();
    let mut steps = 0u32;
    let mut turned_at: Option<u32> = None;
    for _frame in 0..frames {
        assert_eq!(sim.add_elapsed(10_000_000), Ok(()));
        while let Action::Step { impulse } = sim.next_action() {
            assert_eq!(impulse, None);
            integrate(&mut b, (0.0, 0.0), dt);
            steps += 1;
            if b.position.0 >= width - RADIUS - epsilon {
                b.velocity.0 *= -1.0;
                b.position.0 = width - epsilon - RADIUS;
                assert_eq!(turned_at, None);
                turned_at = Some(steps);
                assert!((b.position.0 - (1000.0 - 10.0 - 0.01)).abs() < 1e-9);
                assert_eq!(b.velocity, (-400.0, 0.0));
            }
        }
    }
    (b, steps, turned_at)
}

#[test]
fn ball_at_the_right_wall_turns_round_with_the_first_step() {
    let (b, steps, turned_at) = drive_right(990.0, 1);
    assert_eq!(steps, 16);
    assert_eq!(turned_at, Some(1));
    assert_eq!(b.velocity, (-400.0, 0.0));
    assert!((b.position.0 - (989.99 - 15.0 * 0.25)).abs() < 1e-9);
    assert_eq!(b.position.1, 400.0);
}

#[test]
fn ball_driven_to_the_right_wall_turns_round_once() {
    let (b, steps, turned_at) = drive_right(950.0, 20);
    assert_eq!(steps, 20 * 16);
    assert_eq!(turned_at, Some(160));
    assert_eq!(b.velocity, (-400.0, 0.0));
    assert!((b.position.0 - (989.99 - 160.0 * 0.25)).abs() < 1e-9);
}

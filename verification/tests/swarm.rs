//! Particles and the bookkeeping of a swarm.

use evopt::pso::{Motion, Particle, Swarm, PSO};
use evopt::score::Score;
use evopt::Fitness;
use rand::rngs::StdRng;
use rand::{RngCore, SeedableRng};

fn score(x: f32) -> Score {
    Score::from_bits(x.to_bits())
}

struct Sum;

impl Fitness for Sum {
    type Data = Vec<f32>;

    fn score(&self, candidate: &Vec<f32>) -> Score {
        score(candidate.iter().sum())
    }
}

fn settings(dims: usize, swarm_size: usize) -> PSO {
    PSO { dims, swarm_size, w: 0.8f32.to_bits(), c_1: 0.5f32.to_bits(), c_2: 1.0f32.to_bits() }
}

fn scored(position: Vec<f32>) -> Particle<f32> {
    let mut p = Particle::new(position, 0.0);
    p.evaluate(&Sum);
    p
}

fn rest(position: Vec<f32>, fitness: f32) -> Motion<f32> {
    Motion { velocity: vec![0.5; position.len()], position, fitness: score(fitness) }
}

#[test]
fn a_new_particle_rests_at_its_position() {
    let p = Particle::new(vec![1.0f32, 2.0, 3.0], 0.0);
    assert_eq!(p.position, vec![1.0, 2.0, 3.0]);
    assert_eq!(p.velocity, vec![0.0; 3]);
    assert_eq!(p.best_seen, vec![0.0; 3]);
    assert_eq!(f32::from_bits(p.fitness.to_bits()), f32::MIN);
    assert_eq!(f32::from_bits(p.best_fitness.to_bits()), f32::MIN);
}

#[test]
fn only_the_first_particle_takes_the_warm_start() {
    let x_in = vec![7.0f32, 8.0];
    assert_eq!(PSO::spawn(0, vec![1.0, 2.0], Some(&x_in), 0.0).position, x_in);
    assert_eq!(PSO::spawn(1, vec![1.0, 2.0], Some(&x_in), 0.0).position, vec![1.0, 2.0]);
    assert_eq!(PSO::spawn(0, vec![1.0, 2.0], None, 0.0).position, vec![1.0, 2.0]);
    assert_eq!(PSO::spawn(0, vec![1.0, 2.0], Some(&x_in), 0.0).velocity, vec![0.0, 0.0]);
}

#[test]
fn a_better_score_moves_the_best_seen() {
    let mut p = Particle::new(vec![1.0f32, 2.0], 0.0);
    p.record(score(-4.0));
    assert_eq!(p.fitness, score(-4.0));
    assert_eq!(p.best_fitness, score(-4.0));
    assert_eq!(p.best_seen, vec![1.0, 2.0]);
    p.position = vec![5.0, 5.0];
    p.record(score(-4.0));
    assert_eq!(p.best_seen, vec![1.0, 2.0]);
    p.record(score(-9.0));
    assert_eq!(p.fitness, score(-9.0));
    assert_eq!(p.best_fitness, score(-4.0));
    assert_eq!(p.best_seen, vec![1.0, 2.0]);
    p.record(score(3.0));
    assert_eq!(p.best_fitness, score(3.0));
    assert_eq!(p.best_seen, vec![5.0, 5.0]);
}

#[test]
fn scores_that_are_not_finite_or_not_above_the_lowest_leave_the_origin_as_best_seen() {
    for bad in [f32::NAN, f32::NEG_INFINITY, f32::MIN, f32::INFINITY] {
        let mut p = Particle::new(vec![1.0f32, 2.0], 0.0);
        p.record(score(bad));
        assert_eq!(p.fitness.to_bits(), bad.to_bits());
        assert_eq!(f32::from_bits(p.best_fitness.to_bits()), f32::MIN);
        assert_eq!(p.best_seen, vec![0.0, 0.0]);
    }
    let mut p = Particle::new(vec![1.0f32, 2.0], 0.0);
    p.record(score(-f32::MAX / 2.0));
    assert_eq!(p.best_seen, vec![1.0, 2.0]);
}

#[test]
fn evaluate_scores_the_position() {
    let mut p = Particle::new(vec![1.0f32, 2.0, 4.0], 0.0);
    assert_eq!(p.evaluate(&Sum), score(7.0));
    assert_eq!(p.fitness, score(7.0));
    assert_eq!(p.best_fitness, score(7.0));
    assert_eq!(p.best_seen, vec![1.0, 2.0, 4.0]);
    assert_eq!(p.position, vec![1.0, 2.0, 4.0]);
}

#[test]
fn get_best_copies_the_first_of_the_best() {
    let swarm = vec![scored(vec![1.0, 1.0]), scored(vec![3.0, 2.0]), scored(vec![2.0, 3.0])];
    let mut cur_best = vec![0.0f32; 2];
    assert_eq!(PSO::get_best(&swarm, &mut cur_best), score(5.0));
    assert_eq!(cur_best, vec![3.0, 2.0]);
    let one = vec![scored(vec![1.0, 1.0])];
    let mut short = Vec::new();
    assert_eq!(PSO::get_best(&one, &mut short), score(2.0));
    assert_eq!(short, vec![1.0, 1.0]);
}

#[test]
fn every_particle_gets_a_stream_of_its_own() {
    let pso = settings(2, 5);
    let mut rng = StdRng::seed_from_u64(2020);
    let mut streams = pso.particle_streams(&mut rng);
    assert_eq!(streams.len(), 5);
    let firsts: std::collections::BTreeSet<u64> = streams.iter_mut().map(|s| s.next_u64()).collect();
    assert_eq!(firsts.len(), 5);
    let mut again = StdRng::seed_from_u64(2020);
    let mut same = pso.particle_streams(&mut again);
    let repeat: std::collections::BTreeSet<u64> = same.iter_mut().map(|s| s.next_u64()).collect();
    assert_eq!(firsts, repeat);
    assert_ne!(rng.next_u64(), StdRng::seed_from_u64(2020).next_u64());
}

#[test]
fn a_swarm_runs_while_one_more_generation_stays_below_the_budget() {
    let pso = settings(2, 3);
    let swarm = vec![scored(vec![1.0, 1.0]), scored(vec![3.0, 2.0]), scored(vec![2.0, 3.0])];
    let mut run = Swarm::begin(&pso, 10, swarm, 0.0);
    assert_eq!(run.fn_count, 3);
    assert_eq!(run.global_best, vec![0.0, 0.0]);
    let report = run.next().unwrap();
    assert_eq!(report.best, score(5.0));
    assert_eq!(report.remaining, 7);
    assert_eq!(run.global_best, vec![3.0, 2.0]);
    assert!(run.moving);
    run.advance(vec![rest(vec![4.0, 4.0], 8.0), rest(vec![0.0, 0.0], 0.0), rest(vec![9.0, 9.0], f32::NAN)]);
    assert!(!run.moving);
    assert_eq!(run.fn_count, 6);
    assert_eq!(run.particles[0].best_seen, vec![4.0, 4.0]);
    assert_eq!(run.particles[0].velocity, vec![0.5, 0.5]);
    assert_eq!(run.particles[1].position, vec![0.0, 0.0]);
    assert_eq!(run.particles[1].best_seen, vec![3.0, 2.0]);
    assert_eq!(run.particles[1].best_fitness, score(5.0));
    assert_eq!(run.particles[2].best_seen, vec![2.0, 3.0]);
    assert!(run.particles[2].fitness.is_nan());
    assert_eq!(run.global_best, vec![3.0, 2.0]);
    let report = run.next().unwrap();
    assert_eq!(report.best, score(8.0));
    assert_eq!(report.remaining, 4);
    run.advance(vec![rest(vec![4.0, 4.0], 1.0), rest(vec![0.0, 0.0], 1.0), rest(vec![9.0, 9.0], 1.0)]);
    assert_eq!(run.fn_count, 9);
    assert!(run.next().is_none());
    assert_eq!(run.finish(), (score(8.0), vec![4.0, 4.0]));
}

#[test]
fn a_swarm_with_no_room_for_a_generation_is_over_at_once() {
    let pso = settings(2, 3);
    for total in [0usize, 3, 6] {
        let swarm = vec![scored(vec![1.0, 1.0]), scored(vec![3.0, 2.0]), scored(vec![2.0, 3.0])];
        let mut run = Swarm::begin(&pso, total, swarm, 0.0);
        assert!(run.next().is_none());
        assert_eq!(run.fn_count, 3);
        assert_eq!(run.finish(), (score(5.0), vec![3.0, 2.0]));
    }
    let swarm = vec![scored(vec![1.0, 1.0]), scored(vec![3.0, 2.0]), scored(vec![2.0, 3.0])];
    let mut run = Swarm::begin(&pso, 7, swarm, 0.0);
    assert_eq!(run.next().unwrap().remaining, 4);
}

/// An objective on whole numbers: the sum of the coordinates.
struct Total;

impl Fitness for Total {
    type Data = Vec<i64>;

    fn score(&self, candidate: &Vec<i64>) -> Score {
        score(candidate.iter().sum::<i64>() as f32)
    }
}

#[test]
fn a_motion_pulls_every_coordinate_and_then_moves() {
    let pso = settings(3, 1);
    let mut p = Particle::new(vec![1i64, 2, 3], 0);
    p.velocity = vec![10, 20, 30];
    p.best_seen = vec![7, 8, 9];
    let mut rng = StdRng::seed_from_u64(1);
    let m = p.motion(
        &pso,
        &Total,
        &vec![100, 200, 300],
        &mut rng,
        &|s: &PSO, v: i64, g: i64, x: i64, b: i64, _rng: &mut StdRng| {
            assert_eq!(f32::from_bits(s.w), 0.8);
            v + (g - x) + 2 * (b - x)
        },
        &|x: i64, v: i64| x + v,
    );
    assert_eq!(m.velocity, vec![10 + 99 + 12, 20 + 198 + 12, 30 + 297 + 12]);
    assert_eq!(m.position, vec![122, 232, 342]);
    assert_eq!(m.fitness, score(696.0));
    assert_eq!(p.position, vec![1, 2, 3]);
}

#[test]
fn a_run_on_whole_numbers_climbs() {
    let pso = settings(2, 3);
    let mut next = 0i64;
    let mut told = Vec::new();
    let swarm = pso.fit(
        &Total,
        13,
        5,
        Some(&vec![50, 50]),
        0i64,
        |_rng: &mut StdRng| {
            next += 1;
            next
        },
        |swarm: &Swarm<i64>, rngs: &mut Vec<StdRng>| {
            assert_eq!(rngs.len(), 3);
            swarm
                .particles
                .iter()
                .zip(rngs.iter_mut())
                .map(|(p, rng)| {
                    p.motion(
                        &pso,
                        &Total,
                        &swarm.global_best,
                        rng,
                        &|_s: &PSO, _v: i64, _g: i64, _x: i64, _b: i64, _rng: &mut StdRng| 1i64,
                        &|x: i64, v: i64| x + v,
                    )
                })
                .collect()
        },
        |best: Score, remaining: usize| told.push((f32::from_bits(best.to_bits()), remaining)),
    );
    assert_eq!(told, vec![(100.0, 10), (102.0, 7), (104.0, 4)]);
    assert_eq!(swarm.fn_count, 12);
    assert_eq!(swarm.reports.len(), 3);
    assert_eq!(swarm.particles[0].position, vec![53, 53]);
    assert_eq!(swarm.particles[1].position, vec![6, 7]);
    assert_eq!(swarm.particles[2].position, vec![8, 9]);
    assert_eq!(swarm.finish(), (score(106.0), vec![53, 53]));
}

#[test]
fn the_motions_of_a_generation_are_those_of_its_particles() {
    let pso = settings(2, 3);
    let swarm = vec![
        Particle::new(vec![1i64, 1], 0),
        Particle::new(vec![3, 2], 0),
        Particle::new(vec![2, 3], 0),
    ];
    let mut run = Swarm::begin(&pso, 100, swarm, 0i64);
    run.next().unwrap();
    let pull = |_s: &PSO, v: i64, g: i64, x: i64, _b: i64, rng: &mut StdRng| v + (g - x) + (rng.next_u32() % 7) as i64;
    let shift = |x: i64, v: i64| x + v;
    let mut rngs = pso.particle_streams(&mut StdRng::seed_from_u64(4));
    let all = run.motions(&pso, &Total, &mut rngs, &pull, &shift);
    let mut again = pso.particle_streams(&mut StdRng::seed_from_u64(4));
    assert_eq!(all.len(), 3);
    for i in (0..3).rev() {
        let one = run.particles[i].motion(&pso, &Total, &run.global_best, &mut again[i], &pull, &shift);
        assert_eq!(one.velocity, all[i].velocity);
        assert_eq!(one.position, all[i].position);
        assert_eq!(one.fitness, all[i].fitness);
    }
    run.advance(all);
    assert_eq!(run.fn_count, 6);
}

#[test]
fn every_report_of_a_swarm_tells_what_was_left() {
    let pso = settings(2, 3);
    let mut next = 0i64;
    let swarm = pso.fit(
        &Total,
        20,
        5,
        Some(&vec![50, 50]),
        0i64,
        |_rng: &mut StdRng| {
            next += 1;
            next
        },
        |swarm: &Swarm<i64>, rngs: &mut Vec<StdRng>| {
            swarm.motions(
                &pso,
                &Total,
                rngs,
                &|_s: &PSO, _v: i64, _g: i64, _x: i64, _b: i64, _rng: &mut StdRng| -1i64,
                &|x: i64, v: i64| x + v,
            )
        },
        |_best: Score, _remaining: usize| {},
    );
    assert_eq!(swarm.reports.len(), 5);
    for (k, r) in swarm.reports.iter().enumerate() {
        assert_eq!(r.remaining, 20 - 3 * (k + 1));
        assert_eq!(r.best, score(100.0));
    }
    assert_eq!(swarm.fn_count, 18);
    assert_eq!(swarm.finish(), (score(100.0), vec![50, 50]));
}

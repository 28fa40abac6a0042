//! Whole runs of the three engines on a small objective, with the arithmetic
//! on coordinates done here.

use evopt::de::pass::Pass;
use evopt::de::{CrossoverType, DePlus};
use evopt::ga::crossover::{CrossoverType as GeneCrossover, Linear};
use evopt::ga::fastga::{FastGA, GaRun};
use evopt::ga::selector::Tournament;
use evopt::ga::{Crossover, Genome, Mutator, Selector};
use evopt::pso::{Swarm, PSO};
use evopt::score::Score;
use evopt::Fitness;
use rand::rngs::StdRng;
use rand::seq::SliceRandom;
use rand_distr::{Distribution, Normal, StandardNormal, Uniform};

fn score(x: f32) -> Score {
    Score::from_bits(x.to_bits())
}

fn number(s: Score) -> f32 {
    f32::from_bits(s.to_bits())
}

struct MatyasEnv(f32, f32);

impl Fitness for MatyasEnv {
    type Data = Vec<f32>;

    fn score(&self, candidate: &Vec<f32>) -> Score {
        let mut x = candidate[0];
        let mut y = candidate[1];
        x += self.0;
        y += self.1;
        score(-(0.26 * (x.powi(2) + y.powi(2)) - 0.48 * x * y))
    }
}

/// An objective that counts how often it is asked.
struct Counting<'a>(MatyasEnv, &'a std::sync::atomic::AtomicUsize);

impl<'a> Fitness for Counting<'a> {
    type Data = Vec<f32>;

    fn score(&self, candidate: &Vec<f32>) -> Score {
        self.1.fetch_add(1, std::sync::atomic::Ordering::SeqCst);
        self.0.score(candidate)
    }
}

fn l2norm(v: &[f32]) -> f32 {
    v.iter().map(|vi| vi.powi(2)).sum::<f32>().powf(0.5)
}

struct DeRun {
    reports: Vec<(f32, usize)>,
    sizes_held: bool,
}

fn escape(orig: &[f32], top: &[f32], exp: f32, rng: &mut StdRng) -> Vec<f32> {
    let norm_dist = Normal::new(0.0f64, 1.0).unwrap();
    let mut x: Vec<f32> = orig.iter().zip(top.iter()).map(|(oxi, bi)| oxi - bi).collect();
    let orig_mag = l2norm(&x);
    x.iter_mut().for_each(|xi| *xi = norm_dist.sample(rng) as f32);
    let v_mag = l2norm(&x);
    x.iter_mut().enumerate().for_each(|(i, xi)| *xi = top[i] + orig_mag * exp * (*xi) / v_mag);
    x
}

fn de_fit<D: Distribution<f64>, F: Fitness<Data = Vec<f32>>>(
    de: &DePlus<D>,
    fit_fn: &F,
    total: usize,
    seed: u64,
    x_in: Option<&Vec<f32>>,
    log: &mut DeRun,
) -> (f32, Vec<f32>, usize) {
    assert!(de.lambda >= 2 && de.dims > 0);
    let mut sizes_held = true;
    let reports = &mut log.reports;
    let run = de
        .fit(
            fit_fn,
            total,
            seed,
            x_in,
            0.0f32,
            |dist: &D, rng: &mut StdRng| dist.sample(rng) as f32,
            |a: f32, b: f32| a + b,
            |range: (u32, u32), rng: &mut StdRng| {
                Uniform::new(f32::from_bits(range.0), f32::from_bits(range.1)).sample(rng)
            },
            |pass: &Pass<f32>, f_lr: f32, pass_seed: u64, best: usize| {
                sizes_held &= pass.pop.len() == de.lambda && pass.fits.len() == de.lambda;
                let uniform = Uniform::new(0.0f32, 1.0);
                let escapes = |m: u32, rng: &mut StdRng| uniform.sample(rng) < f32::from_bits(m);
                let jump = |x: &Vec<f32>, top: &Vec<f32>, exp: u32, rng: &mut StdRng| {
                    escape(x, top, f32::from_bits(exp), rng)
                };
                let donor = |f_lr: f32, top: f32, a: f32, b: f32| top + f_lr * (a - b);
                let takes = |rate: u32, rng: &mut StdRng| uniform.sample(rng) < f32::from_bits(rate);
                de.generation(fit_fn, pass, f_lr, pass_seed, best, &escapes, &jump, &donor, &takes)
            },
            |best: Score, remaining: usize| reports.push((number(best), remaining)),
        )
        .expect("the best score of a pass must be finite");
    log.sizes_held &= sizes_held;
    let told: Vec<(f32, usize)> = run.reports.iter().map(|r| (number(r.best), r.remaining)).collect();
    assert_eq!(told, log.reports);
    (number(run.best_fit), run.best_cand, run.spent)
}

fn matyas_de() -> DePlus<StandardNormal> {
    DePlus {
        dims: 2,
        lambda: 30,
        f: (0.1f32.to_bits(), 1.0f32.to_bits()),
        cr: CrossoverType::Uniform(0.9f32.to_bits()),
        m: 0.1f32.to_bits(),
        exp: 3.0f32.to_bits(),
        polish_on_stale: None,
        restart_on_stale: None,
        init_dist: StandardNormal,
    }
}

fn new_log() -> DeRun {
    DeRun { reports: Vec::new(), sizes_held: true }
}

#[test]
fn de_test_matyas() {
    let de = matyas_de();
    let fit_fn = MatyasEnv(-10., 10.);
    let (fit, results, _) = de_fit(&de, &fit_fn, 10000, 2020, None, &mut new_log());
    assert_eq!(fit, 0.);
    assert_eq!(results[0], 10.);
    assert_eq!(results[1], -10.);
}

#[test]
fn de_two_point_converges_on_matyas() {
    let mut de = matyas_de();
    de.cr = CrossoverType::TwoPoint;
    let fit_fn = MatyasEnv(-10., 10.);
    let (fit, results, _) = de_fit(&de, &fit_fn, 10000, 2020, None, &mut new_log());
    assert!(fit.abs() < 1e-3);
    assert!((results[0] - 10.).abs() < 5e-2);
    assert!((results[1] + 10.).abs() < 5e-2);
}

#[test]
fn de_is_deterministic() {
    let de = matyas_de();
    let fit_fn = MatyasEnv(-10., 10.);
    let mut first = new_log();
    let mut second = new_log();
    let a = de_fit(&de, &fit_fn, 3000, 7, None, &mut first);
    let b = de_fit(&de, &fit_fn, 3000, 7, None, &mut second);
    assert_eq!(a.0.to_bits(), b.0.to_bits());
    assert_eq!(a.1, b.1);
    assert_eq!(first.reports, second.reports);
}

#[test]
fn de_reports_never_fall_within_a_pass() {
    let de = matyas_de();
    let fit_fn = MatyasEnv(-10., 10.);
    let mut log = new_log();
    de_fit(&de, &fit_fn, 5000, 11, None, &mut log);
    assert!(!log.reports.is_empty());
    for pair in log.reports.windows(2) {
        assert!(pair[1].0 >= pair[0].0);
        assert!(pair[1].1 <= pair[0].1);
    }
    assert!(log.sizes_held);
}

#[test]
fn de_spends_the_budget_and_at_most_one_population_more() {
    let counter = std::sync::atomic::AtomicUsize::new(0);
    let fit_fn = Counting(MatyasEnv(-10., 10.), &counter);
    for (total, stale) in [(1000usize, None), (1005, None), (1, None), (29, None), (2000, Some(3))] {
        counter.store(0, std::sync::atomic::Ordering::SeqCst);
        let mut de = matyas_de();
        de.restart_on_stale = stale;
        let (_, _, spent) = de_fit(&de, &fit_fn, total, 5, None, &mut new_log());
        let asked = counter.load(std::sync::atomic::Ordering::SeqCst);
        assert_eq!(asked, spent);
        assert!(total <= spent && spent < total + de.lambda, "{} for {}", spent, total);
    }
}

#[test]
fn de_polishes_and_still_converges() {
    let mut de = matyas_de();
    de.polish_on_stale = Some(5);
    let fit_fn = MatyasEnv(-10., 10.);
    let mut log = new_log();
    let (fit, results, spent) = de_fit(&de, &fit_fn, 10000, 2020, None, &mut log);
    assert!(fit.abs() < 1e-3);
    assert!((results[0] - 10.).abs() < 1e-1);
    assert!((results[1] + 10.).abs() < 1e-1);
    assert!(10000 <= spent && spent <= 10030);
    for pair in log.reports.windows(2) {
        assert!(pair[1].0 >= pair[0].0);
    }
}

#[test]
fn de_warm_start_is_kept_when_nothing_beats_it() {
    let de = matyas_de();
    let fit_fn = MatyasEnv(-10., 10.);
    let x_in = vec![10.0f32, -10.0];
    let (fit, results, _) = de_fit(&de, &fit_fn, 300, 1, Some(&x_in), &mut new_log());
    assert_eq!(fit, 0.);
    assert_eq!(results, x_in);
}

fn pso_fit<F: Fitness<Data = Vec<f32>>>(
    pso: &PSO,
    fit_fn: &F,
    total: usize,
    seed: u64,
    x_in: Option<&Vec<f32>>,
    reports: &mut Vec<(f32, usize)>,
) -> (f32, Vec<f32>, usize) {
    assert!(pso.swarm_size > 0);
    let dist = Normal::new(0.0f32, 1.0).unwrap();
    let swarm = pso.fit(
        fit_fn,
        total,
        seed,
        x_in,
        0.0f32,
        |rng: &mut StdRng| dist.sample(rng),
        |swarm: &Swarm<f32>, rngs: &mut Vec<StdRng>| {
            assert_eq!(swarm.particles.len(), pso.swarm_size);
            let d = Uniform::new(0.0f32, 1.0);
            let pull = |pso: &PSO, vi: f32, gi: f32, pi: f32, bi: f32, rng: &mut StdRng| {
                let (w, c_1, c_2) = (f32::from_bits(pso.w), f32::from_bits(pso.c_1), f32::from_bits(pso.c_2));
                let r_1 = d.sample(rng);
                let r_2 = d.sample(rng);
                w * vi + r_1 * c_1 * (gi - pi) + r_2 * c_2 * (bi - pi)
            };
            let shift = |pi: f32, vi: f32| pi + vi;
            swarm.motions(pso, fit_fn, rngs, &pull, &shift)
        },
        |best: Score, remaining: usize| reports.push((number(best), remaining)),
    );
    let told: Vec<(f32, usize)> = swarm.reports.iter().map(|r| (number(r.best), r.remaining)).collect();
    assert_eq!(&told, reports);
    let spent = swarm.fn_count;
    let (fit, best) = swarm.finish();
    (number(fit), best, spent)
}

fn matyas_pso() -> PSO {
    PSO { dims: 2, swarm_size: 30, w: 0.8f32.to_bits(), c_1: 0.5f32.to_bits(), c_2: 1.0f32.to_bits() }
}

#[test]
fn pso_test_matyas() {
    let de = matyas_pso();
    let fit_fn = MatyasEnv(-10., 10.);
    let (fit, results, _) = pso_fit(&de, &fit_fn, 10000, 2020, None, &mut Vec::new());
    assert_eq!(fit, 0.);
    assert_eq!(results[0], 10.);
    assert_eq!(results[1], -10.);
}

#[test]
fn pso_reports_never_fall_and_budget_is_not_exceeded() {
    let counter = std::sync::atomic::AtomicUsize::new(0);
    let fit_fn = Counting(MatyasEnv(-10., 10.), &counter);
    let pso = matyas_pso();
    let mut reports = Vec::new();
    let (_, _, spent) = pso_fit(&pso, &fit_fn, 1000, 3, None, &mut reports);
    assert_eq!(counter.load(std::sync::atomic::Ordering::SeqCst), spent);
    assert_eq!(spent, 990);
    assert_eq!(reports.len(), 32);
    assert_eq!(reports[0].1, 970);
    for pair in reports.windows(2) {
        assert!(pair[1].0 >= pair[0].0);
    }
}

#[test]
fn pso_scores_the_swarm_once_when_the_budget_is_small() {
    let counter = std::sync::atomic::AtomicUsize::new(0);
    let fit_fn = Counting(MatyasEnv(-10., 10.), &counter);
    let pso = matyas_pso();
    for total in [0usize, 30, 59, 60] {
        counter.store(0, std::sync::atomic::Ordering::SeqCst);
        let mut reports = Vec::new();
        let (_, _, spent) = pso_fit(&pso, &fit_fn, total, 3, None, &mut reports);
        assert_eq!(spent, 30);
        assert_eq!(counter.load(std::sync::atomic::Ordering::SeqCst), 30);
        assert!(reports.is_empty());
    }
    counter.store(0, std::sync::atomic::Ordering::SeqCst);
    let (_, _, spent) = pso_fit(&pso, &fit_fn, 61, 3, None, &mut Vec::new());
    assert_eq!(spent, 60);
}

#[test]
fn pso_starts_from_the_warm_start() {
    let fit_fn = MatyasEnv(-10., 10.);
    let pso = matyas_pso();
    let x_in = vec![10.0f32, -10.0];
    let (fit, best, _) = pso_fit(&pso, &fit_fn, 30, 9, Some(&x_in), &mut Vec::new());
    assert_eq!(fit, 0.);
    assert_eq!(best, x_in);
}

#[derive(Clone, Debug)]
struct Continuous<D> {
    dims: usize,
    dist: D,
}

impl<D: Distribution<f32> + Send + Sync + Clone + std::fmt::Debug> Genome for Continuous<D> {
    type Encoded = Vec<f32>;

    fn size(&self, encode: &Vec<f32>) -> usize {
        encode.len()
    }

    fn new(&self, rng: &mut StdRng) -> Vec<f32> {
        (0..self.dims).map(|_| self.dist.sample(rng)).collect()
    }
}

#[derive(Clone, Debug)]
struct ContinuousMutator<D>(D);

impl<D: Distribution<f32> + Send + Sync + Clone + std::fmt::Debug> Mutator for ContinuousMutator<D> {
    type Encoded = Vec<f32>;

    fn mutate(&self, idxs: &Vec<usize>, genome: &mut Vec<f32>, rng: &mut StdRng) {
        for idx in idxs {
            genome[*idx] += self.0.sample(rng);
        }
    }
}

fn mutation_count(max_mutate: f32, num_genes: usize, rng: &mut StdRng) -> usize {
    let max_dim = ((max_mutate * num_genes as f32) as usize).max(2);
    let mut p: Vec<f32> = (1..max_dim).map(|m| 1. / (m as f32).powf(1.5)).collect();
    let total = p.iter().sum::<f32>();
    p.iter_mut().for_each(|mi| *mi /= total);
    let choices: Vec<usize> = (1..max_dim).collect();
    *choices.choose_weighted(rng, |i| p[*i - 1]).expect("Have an empty genome!  Unsupported")
}

fn ga_fit<G, M, CO, S, F>(
    ga: &FastGA<G, M, CO, S, Vec<f32>>,
    fit_fn: &F,
    total: usize,
    seed: u64,
    x_in: Option<&Vec<f32>>,
    reports: &mut Vec<(f32, usize)>,
) -> (f32, Vec<f32>, usize)
where
    G: Genome<Encoded = Vec<f32>>,
    M: Mutator<Encoded = Vec<f32>>,
    CO: Crossover<Encoded = Vec<f32>>,
    S: Selector,
    F: Fitness<Data = Vec<f32>>,
{
    assert!(ga.lambda > 0);
    let run = ga.fit(
        fit_fn,
        total,
        seed,
        x_in.cloned(),
        |run: &GaRun<Vec<f32>>, new_seed: u64| {
            assert_eq!(run.parents.len(), ga.lambda);
            assert_eq!(run.fitness.len(), ga.lambda);
            let count = |max_mutate: u32, num_genes: usize, rng: &mut StdRng| {
                mutation_count(f32::from_bits(max_mutate), num_genes, rng)
            };
            ga.brood(fit_fn, run, new_seed, &count).expect("Have an empty genome!  Unsupported")
        },
        |best: Score, remaining: usize| reports.push((number(best), remaining)),
    );
    let told: Vec<(f32, usize)> = run.reports.iter().map(|r| (number(r.best), r.remaining)).collect();
    assert_eq!(&told, reports);
    let spent = run.fns;
    let (fit, best) = run.finish().expect("the best score must be finite");
    (number(fit), best, spent)
}

fn matyas_ga(
    elitism: bool,
) -> FastGA<Continuous<Normal<f32>>, ContinuousMutator<Normal<f32>>, Linear<f32>, Tournament, Vec<f32>>
{
    FastGA::new(
        100,
        elitism,
        1.0f32.to_bits(),
        Continuous { dims: 2, dist: Normal::new(0., 1f32).unwrap() },
        ContinuousMutator(Normal::new(0., 1f32).unwrap()),
        Linear::new(GeneCrossover::TwoPoint),
        Tournament(4),
    )
}

#[test]
fn fastga_test_matyas() {
    let opt = matyas_ga(true);
    let fit_fn = MatyasEnv(-10., 10.);
    let mut reports = Vec::new();
    let (fit, results, _) = ga_fit(&opt, &fit_fn, 10000, 2020, None, &mut reports);
    for (best_fit, _) in &reports {
        println!("best_fit: {}", best_fit);
    }
    assert!(fit.abs() < 1e-5);
    assert!((results[0] - 10.).abs() < 1e-2);
    assert!((results[1] + 10.).abs() < 1e-2);
}

#[test]
fn ga_with_elitism_never_reports_a_lower_best() {
    let counter = std::sync::atomic::AtomicUsize::new(0);
    let fit_fn = Counting(MatyasEnv(-10., 10.), &counter);
    let opt = matyas_ga(true);
    let mut reports = Vec::new();
    let (fit, _, spent) = ga_fit(&opt, &fit_fn, 2050, 17, None, &mut reports);
    assert_eq!(spent, 2100);
    assert_eq!(counter.load(std::sync::atomic::Ordering::SeqCst), spent);
    assert_eq!(reports.len(), 20);
    assert_eq!(reports[0].1, 1950);
    for pair in reports.windows(2) {
        assert!(pair[1].0 >= pair[0].0);
    }
    assert!(fit >= reports[reports.len() - 1].0);
}

#[test]
fn ga_keeps_its_population_size_and_budget_without_elitism() {
    let counter = std::sync::atomic::AtomicUsize::new(0);
    let fit_fn = Counting(MatyasEnv(-10., 10.), &counter);
    let opt = matyas_ga(false);
    for total in [0usize, 100, 101, 1000] {
        counter.store(0, std::sync::atomic::Ordering::SeqCst);
        let (_, _, spent) = ga_fit(&opt, &fit_fn, total, 17, None, &mut Vec::new());
        assert_eq!(counter.load(std::sync::atomic::Ordering::SeqCst), spent);
        assert!(total <= spent && spent <= total + 100);
    }
}

#[test]
fn ga_starts_from_the_warm_start() {
    let opt = matyas_ga(true);
    let fit_fn = MatyasEnv(-10., 10.);
    let x_in = vec![10.0f32, -10.0];
    let (fit, best, _) = ga_fit(&opt, &fit_fn, 500, 4, Some(&x_in), &mut Vec::new());
    assert_eq!(fit, 0.);
    assert_eq!(best, x_in);
}

#[test]
fn pso_is_deterministic() {
    let pso = matyas_pso();
    let fit_fn = MatyasEnv(-10., 10.);
    let mut first = Vec::new();
    let mut second = Vec::new();
    let a = pso_fit(&pso, &fit_fn, 2000, 7, None, &mut first);
    let b = pso_fit(&pso, &fit_fn, 2000, 7, None, &mut second);
    assert_eq!(a.0.to_bits(), b.0.to_bits());
    assert_eq!(a.1, b.1);
    assert_eq!(first, second);
    let c = pso_fit(&pso, &fit_fn, 2000, 8, None, &mut Vec::new());
    assert_ne!(a.1, c.1);
}

#[test]
fn ga_is_deterministic() {
    let opt = matyas_ga(true);
    let fit_fn = MatyasEnv(-10., 10.);
    let mut first = Vec::new();
    let mut second = Vec::new();
    let a = ga_fit(&opt, &fit_fn, 2000, 7, None, &mut first);
    let b = ga_fit(&opt, &fit_fn, 2000, 7, None, &mut second);
    assert_eq!(a.0.to_bits(), b.0.to_bits());
    assert_eq!(a.1, b.1);
    assert_eq!(first, second);
    let c = ga_fit(&opt, &fit_fn, 2000, 8, None, &mut Vec::new());
    assert_ne!(a.1, c.1);
}

#[test]
fn de_with_restarts_never_reports_below_the_start_of_a_pass() {
    let mut de = matyas_de();
    de.restart_on_stale = Some(2);
    let fit_fn = MatyasEnv(-10., 10.);
    let mut log = new_log();
    let (fit, _, spent) = de_fit(&de, &fit_fn, 3000, 2020, None, &mut log);
    assert!(3000 <= spent && spent <= 3030);
    let best_told = log.reports.iter().map(|r| r.0).fold(f32::NEG_INFINITY, f32::max);
    assert!(fit >= best_told);
}

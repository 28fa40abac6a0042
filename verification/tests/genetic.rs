//! The strategies and the bookkeeping of the genetic algorithm.

use evopt::ga::crossover::{CrossoverType, Linear};
use evopt::ga::fastga::{FastGA, GaError, GaRun};
use evopt::ga::selector::{winner, Tournament};
use evopt::ga::{Crossover, Genome, Mutator, Selector};
use evopt::score::Score;
use evopt::vector::{blend, copy_of, filled, graft};
use rand::rngs::StdRng;
use rand::SeedableRng;

fn score(x: f32) -> Score {
    Score::from_bits(x.to_bits())
}

fn scores(xs: &[f32]) -> Vec<Score> {
    xs.iter().map(|x| score(*x)).collect()
}

/// Genomes of a fixed number of letters.
#[derive(Clone, Debug, PartialEq)]
struct Letters(usize);

impl Genome for Letters {
    type Encoded = Vec<char>;

    fn size(&self, encode: &Vec<char>) -> usize {
        encode.len()
    }

    fn new(&self, _rng: &mut StdRng) -> Vec<char> {
        vec!['a'; self.0]
    }
}

/// A mutator that marks the positions it is handed.
#[derive(Clone, Debug, PartialEq)]
struct Marker;

impl Mutator for Marker {
    type Encoded = Vec<char>;

    fn mutate(&self, idxs: &Vec<usize>, genome: &mut Vec<char>, _rng: &mut StdRng) {
        for idx in idxs {
            assert_eq!(genome[*idx], 'a');
            genome[*idx] = 'X';
        }
    }
}

fn engine(lambda: usize, elitism: bool, kind: CrossoverType) -> FastGA<Letters, Marker, Linear<char>, Tournament, Vec<char>> {
    FastGA::new(lambda, elitism, 1.0f32.to_bits(), Letters(6), Marker, Linear::new(kind), Tournament(3))
}

#[test]
fn blend_graft_copy_and_fill() {
    let a = vec![1, 2, 3, 4];
    let b = vec![-1, -2, -3, -4];
    assert_eq!(blend(&a, &b, &vec![true, false, false, true]), vec![-1, 2, 3, -4]);
    assert_eq!(graft(&a, &b, 1, 3), vec![1, -2, -3, 4]);
    assert_eq!(graft(&a, &b, 2, 4), vec![1, 2, -3, -4]);
    assert_eq!(graft(&a, &b, 3, 3), a);
    assert_eq!(graft(&a, &b, 0, 9), b);
    assert_eq!(copy_of(&a), a);
    assert_eq!(filled(7u8, 3), vec![7, 7, 7]);
    assert_eq!(filled(7u8, 0), Vec::<u8>::new());
}

#[test]
fn the_last_of_the_highest_draws_wins() {
    let fits = scores(&[1.0, 5.0, 5.0, 2.0, 5.0]);
    assert_eq!(winner(&fits, &vec![0, 3]), 3);
    assert_eq!(winner(&fits, &vec![3, 0]), 3);
    assert_eq!(winner(&fits, &vec![1, 2, 0]), 2);
    assert_eq!(winner(&fits, &vec![2, 1, 0]), 1);
    assert_eq!(winner(&fits, &vec![4, 0, 1, 3]), 1);
    assert_eq!(winner(&fits, &vec![0]), 0);
}

#[test]
fn a_tournament_of_one_draws_uniformly() {
    let fits = scores(&[1.0, 5.0, 3.0]);
    let mut rng = StdRng::seed_from_u64(3);
    let mut seen = [0usize; 3];
    for _ in 0..300 {
        seen[Tournament(1).select(&fits, &mut rng)] += 1;
    }
    assert!(seen.iter().all(|n| *n > 50));
}

#[test]
fn a_large_tournament_finds_the_best() {
    let fits = scores(&[1.0, 5.0, 3.0, -2.0]);
    let mut rng = StdRng::seed_from_u64(3);
    for _ in 0..20 {
        assert_eq!(Tournament(64).select(&fits, &mut rng), 1);
    }
}

#[test]
fn a_tournament_favours_higher_scores() {
    let fits = scores(&[0.0, 1.0, 2.0, 3.0, 4.0, 5.0, 6.0, 7.0]);
    let mut rng = StdRng::seed_from_u64(2020);
    let mut sum = 0usize;
    for _ in 0..1000 {
        let i = Tournament(4).select(&fits, &mut rng);
        assert!(i < 8);
        sum += i;
    }
    assert!(sum > 5000);
}

#[test]
fn linear_crossover_asks_for_two_parents() {
    let cross: Linear<u8> = Linear::new(CrossoverType::OnePoint);
    assert_eq!(cross.parents_to_select(), 2);
    assert_eq!(cross.crossover_type(), CrossoverType::OnePoint);
    assert_eq!(cross.clone().crossover_type(), CrossoverType::OnePoint);
}

fn cuts(child: &Vec<i32>) -> (usize, usize) {
    let taken: Vec<usize> = (0..child.len()).filter(|i| child[*i] < 0).collect();
    if taken.is_empty() {
        return (0, 0);
    }
    let (first, last) = (taken[0], taken[taken.len() - 1]);
    assert_eq!(taken.len(), last + 1 - first);
    (first, last + 1)
}

#[test]
fn one_point_crossover_takes_a_tail_of_the_second_parent() {
    let p1: Vec<i32> = (1..=6).collect();
    let p2: Vec<i32> = (1..=6).map(|x| -x).collect();
    let cross: Linear<i32> = Linear::new(CrossoverType::OnePoint);
    let mut rng = StdRng::seed_from_u64(1);
    let mut seen = std::collections::BTreeSet::new();
    for _ in 0..200 {
        let child = cross.cross(&vec![&p1, &p2], &mut rng);
        let (from, to) = cuts(&child);
        assert_eq!(to, 6);
        assert!(1 <= from && from < 5);
        for i in 0..6 {
            assert_eq!(child[i].abs(), p1[i]);
        }
        seen.insert(from);
    }
    assert_eq!(seen.len(), 4);
}

#[test]
fn two_point_crossover_takes_a_run_of_the_second_parent() {
    let p1: Vec<i32> = (1..=5).collect();
    let p2: Vec<i32> = (1..=5).map(|x| -x).collect();
    let cross: Linear<i32> = Linear::new(CrossoverType::TwoPoint);
    let mut rng = StdRng::seed_from_u64(1);
    let mut seen = std::collections::BTreeSet::new();
    for _ in 0..400 {
        let child = cross.cross(&vec![&p1, &p2], &mut rng);
        let (from, to) = cuts(&child);
        assert!(from < to && to < 5);
        for i in 0..5 {
            assert_eq!(child[i].abs(), p1[i]);
        }
        seen.insert((from, to));
    }
    assert_eq!(seen.len(), 10);
}

#[test]
fn two_point_crossover_of_two_genes_takes_the_first() {
    let cross: Linear<i32> = Linear::new(CrossoverType::TwoPoint);
    let mut rng = StdRng::seed_from_u64(9);
    for _ in 0..10 {
        assert_eq!(cross.cross(&vec![&vec![1, 2], &vec![-1, -2]], &mut rng), vec![-1, 2]);
    }
}

#[test]
fn binomial_crossover_takes_each_gene_from_either_parent() {
    let p1: Vec<i32> = (1..=8).collect();
    let p2: Vec<i32> = (1..=8).map(|x| -x).collect();
    let cross: Linear<i32> = Linear::new(CrossoverType::Binomial);
    let mut rng = StdRng::seed_from_u64(1);
    let mut from_second = 0usize;
    let mut children = std::collections::BTreeSet::new();
    for _ in 0..200 {
        let child = cross.cross(&vec![&p1, &p2], &mut rng);
        assert_eq!(child.len(), 8);
        for i in 0..8 {
            assert_eq!(child[i].abs(), p1[i]);
        }
        from_second += child.iter().filter(|x| **x < 0).count();
        children.insert(child);
    }
    assert!(600 < from_second && from_second < 1000);
    assert!(children.len() > 100);
    let empty: Vec<i32> = Vec::new();
    assert!(cross.cross(&vec![&empty, &empty], &mut rng).is_empty());
}

#[test]
fn new_keeps_the_settings() {
    let ga = engine(7, true, CrossoverType::Binomial);
    assert_eq!(ga.lambda, 7);
    assert!(ga.elitism);
    assert_eq!(f32::from_bits(ga.max_mutate), 1.0);
    assert_eq!(ga.genome, Letters(6));
    assert_eq!(ga.selector.0, 3);
    assert_eq!(ga.cross_over.crossover_type(), CrossoverType::Binomial);
}

#[test]
fn the_first_population_has_lambda_members_and_the_warm_start_first() {
    let ga = engine(5, false, CrossoverType::TwoPoint);
    let mut rng = StdRng::seed_from_u64(1);
    let parents = ga.found(&mut rng, None);
    assert_eq!(parents, vec![vec!['a'; 6]; 5]);
    let parents = ga.found(&mut rng, Some(vec!['z'; 6]));
    assert_eq!(parents.len(), 5);
    assert_eq!(parents[0], vec!['z'; 6]);
    assert_eq!(parents[1], vec!['a'; 6]);
    let none = engine(0, false, CrossoverType::TwoPoint).found(&mut rng, None);
    assert!(none.is_empty());
}

#[test]
fn generation_seeds_stay_below_two_to_the_63() {
    let mut rng = StdRng::seed_from_u64(2020);
    let mut seen = std::collections::BTreeSet::new();
    for _ in 0..200 {
        let seed = FastGA::<Letters, Marker, Linear<char>, Tournament, Vec<char>>::generation_seed(&mut rng);
        assert!(seed < 1 << 63);
        seen.insert(seed);
    }
    assert_eq!(seen.len(), 200);
    assert!(seen.iter().any(|s| *s >= 1 << 62));
}

#[test]
fn a_child_is_bred_from_members_of_the_population() {
    let ga = engine(3, false, CrossoverType::TwoPoint);
    let parents = vec![vec!['p'; 6], vec!['q'; 6], vec!['r'; 6]];
    let fits = scores(&[1.0, 2.0, 3.0]);
    let mut rng = StdRng::seed_from_u64(4);
    for _ in 0..100 {
        let child = ga.breed(&parents, &fits, &mut rng);
        assert_eq!(child.len(), 6);
        let kinds: std::collections::BTreeSet<char> = child.iter().cloned().collect();
        assert!(kinds.len() <= 2);
        assert!(kinds.iter().all(|c| "pqr".contains(*c)));
    }
}

#[test]
fn a_child_is_mutated_at_distinct_positions() {
    let ga = engine(3, false, CrossoverType::TwoPoint);
    let mut rng = StdRng::seed_from_u64(4);
    let mut first = std::collections::BTreeSet::new();
    for count in 0..=6usize {
        for _ in 0..50 {
            let mut child = vec!['a'; 6];
            assert_eq!(ga.mutate(&mut child, count, &mut rng), Ok(()));
            assert_eq!(child.iter().filter(|c| **c == 'X').count(), count);
            if count == 1 {
                first.insert(child.iter().position(|c| *c == 'X').unwrap());
            }
        }
    }
    assert_eq!(first.len(), 6);
}

#[test]
fn a_child_with_too_few_genes_is_refused() {
    let ga = engine(3, false, CrossoverType::TwoPoint);
    let mut rng = StdRng::seed_from_u64(4);
    let mut child = vec!['a'; 6];
    assert_eq!(ga.mutate(&mut child, 7, &mut rng), Err(GaError::GenomeTooSmall));
    assert_eq!(child, vec!['a'; 6]);
    let mut empty: Vec<char> = Vec::new();
    assert_eq!(ga.mutate(&mut empty, 1, &mut rng), Err(GaError::GenomeTooSmall));
}

fn named(names: &str) -> Vec<Vec<char>> {
    names.chars().map(|c| vec![c]).collect()
}

#[test]
fn without_elitism_the_children_are_the_new_population() {
    let ga = engine(3, false, CrossoverType::TwoPoint);
    let mut run = GaRun::begin(&ga, 10, named("abc"), scores(&[1.0, 9.0, 3.0]));
    assert_eq!(run.fns, 3);
    let report = run.next().unwrap();
    assert_eq!(report.best, score(9.0));
    assert_eq!(report.remaining, 7);
    assert_eq!(run.breeding, Some(1));
    run.advance(named("xyz"), scores(&[0.0, -1.0, 2.0]));
    assert_eq!(run.parents, named("xyz"));
    assert_eq!(run.fitness, scores(&[0.0, -1.0, 2.0]));
    assert_eq!(run.fns, 6);
    assert_eq!(run.breeding, None);
    assert_eq!(run.next().unwrap().best, score(2.0));
}

#[test]
fn with_elitism_the_best_parent_replaces_the_worst_child() {
    let ga = engine(3, true, CrossoverType::TwoPoint);
    let mut run = GaRun::begin(&ga, 10, named("abc"), scores(&[1.0, 9.0, 3.0]));
    run.next().unwrap();
    run.advance(named("xyz"), scores(&[0.0, -1.0, 2.0]));
    assert_eq!(run.parents, named("xbz"));
    assert_eq!(run.fitness, scores(&[0.0, 9.0, 2.0]));
    assert_eq!(run.fns, 6);
    let report = run.next().unwrap();
    assert_eq!(report.best, score(9.0));
    assert_eq!(report.remaining, 4);
}

#[test]
fn with_elitism_the_first_of_the_worst_leaves() {
    let ga = engine(3, true, CrossoverType::TwoPoint);
    let mut run = GaRun::begin(&ga, 10, named("abc"), scores(&[1.0, 9.0, 3.0]));
    run.next().unwrap();
    run.advance(named("xyz"), scores(&[-1.0, 5.0, -1.0]));
    assert_eq!(run.parents, named("byz"));
    assert_eq!(run.fitness, scores(&[9.0, 5.0, -1.0]));
}

#[test]
fn with_elitism_a_parent_worse_than_all_children_is_dropped() {
    let ga = engine(3, true, CrossoverType::TwoPoint);
    let mut run = GaRun::begin(&ga, 10, named("abc"), scores(&[1.0, 2.0, 3.0]));
    run.next().unwrap();
    run.advance(named("xyz"), scores(&[4.0, 5.0, 6.0]));
    assert_eq!(run.parents, named("xyz"));
    assert_eq!(run.fitness, scores(&[4.0, 5.0, 6.0]));
    let mut run = GaRun::begin(&ga, 10, named("abc"), scores(&[1.0, 2.0, 3.0]));
    run.next().unwrap();
    run.advance(named("xyz"), scores(&[3.0, 5.0, 6.0]));
    assert_eq!(run.parents, named("cyz"));
}

#[test]
fn a_run_ends_once_the_budget_is_reached() {
    let ga = engine(3, true, CrossoverType::TwoPoint);
    let mut run = GaRun::begin(&ga, 7, named("abc"), scores(&[1.0, 9.0, 3.0]));
    let mut remaining = Vec::new();
    while let Some(report) = run.next() {
        remaining.push(report.remaining);
        run.advance(named("xyz"), scores(&[0.0, -1.0, 2.0]));
        assert_eq!(run.parents.len(), 3);
        assert_eq!(run.fitness.len(), 3);
    }
    assert_eq!(remaining, vec![4, 1]);
    assert_eq!(run.fns, 9);
    let (best, member) = run.finish().unwrap();
    assert_eq!(best, score(9.0));
    assert_eq!(member, vec!['b']);
}

#[test]
fn a_run_on_a_spent_budget_returns_the_best_of_the_first_population() {
    let ga = engine(3, false, CrossoverType::TwoPoint);
    for total in [0usize, 3] {
        let mut run = GaRun::begin(&ga, total, named("abc"), scores(&[1.0, 9.0, 9.0]));
        assert!(run.next().is_none());
        assert_eq!(run.finish(), Ok((score(9.0), vec!['b'])));
    }
}

/// An objective on letters: how many of them are marked.
struct Marked;

impl evopt::Fitness for Marked {
    type Data = Vec<char>;

    fn score(&self, candidate: &Vec<char>) -> Score {
        score(candidate.iter().filter(|c| **c == 'X').count() as f32)
    }
}

#[test]
fn a_child_is_bred_and_then_mutated_at_the_counted_positions() {
    let ga = engine(4, false, CrossoverType::Binomial);
    let mut run = GaRun::begin(&ga, 100, vec![vec!['a'; 6]; 4], scores(&[0.0; 4]));
    run.next().unwrap();
    for i in 0..4usize {
        let child = ga
            .child(&run, 77, i, &|share: u32, size: usize, _rng: &mut StdRng| {
                assert_eq!(f32::from_bits(share), 1.0);
                assert_eq!(size, 6);
                2
            })
            .unwrap();
        assert_eq!(child.iter().filter(|c| **c == 'X').count(), 2);
        assert_eq!(child.iter().filter(|c| **c == 'a').count(), 4);
        let again = ga.child(&run, 77, i, &|_share: u32, _size: usize, _rng: &mut StdRng| 2).unwrap();
        assert_eq!(child, again);
    }
    let refused = ga.child(&run, 77, 0, &|_share: u32, size: usize, _rng: &mut StdRng| size + 1);
    assert_eq!(refused, Err(GaError::GenomeTooSmall));
}

fn marking_run(elitism: bool, total: usize) -> (GaRun<Vec<char>>, Vec<(f32, usize)>) {
    let ga = engine(5, elitism, CrossoverType::Binomial);
    let mut told = Vec::new();
    let run = ga.fit(
        &Marked,
        total,
        2020,
        Some(vec!['X', 'X', 'a', 'a', 'a', 'a']),
        |run: &GaRun<Vec<char>>, seed: u64| {
            assert!(seed < 1 << 63);
            let children: Vec<Vec<char>> = (0..run.lambda).map(|_| vec!['a'; 6]).collect();
            let scores = vec![score(0.0); run.lambda];
            (children, scores)
        },
        |best: Score, remaining: usize| told.push((f32::from_bits(best.to_bits()), remaining)),
    );
    (run, told)
}

#[test]
fn elitism_carries_the_best_parent_through_the_run() {
    let (run, told) = marking_run(true, 17);
    assert_eq!(told, vec![(2.0, 12), (2.0, 7), (2.0, 2)]);
    assert_eq!(run.fns, 20);
    assert_eq!(run.parents.len(), 5);
    assert_eq!(run.reports.len(), 3);
    assert_eq!(run.finish(), Ok((score(2.0), vec!['X', 'X', 'a', 'a', 'a', 'a'])));
}

#[test]
fn without_elitism_the_best_parent_can_be_lost() {
    let (run, told) = marking_run(false, 17);
    assert_eq!(told, vec![(2.0, 12), (0.0, 7), (0.0, 2)]);
    assert_eq!(run.fns, 20);
    assert_eq!(run.finish(), Ok((score(0.0), vec!['a'; 6])));
}

#[test]
fn a_brood_is_its_children_one_by_one() {
    let ga = engine(4, false, CrossoverType::TwoPoint);
    let parents = vec![vec!['a'; 6], vec!['a'; 6], vec!['a'; 6], vec!['a'; 6]];
    let mut run = GaRun::begin(&ga, 100, parents, scores(&[0.0, 1.0, 2.0, 3.0]));
    run.next().unwrap();
    let count = |_share: u32, size: usize, _rng: &mut StdRng| size / 2;
    let (children, fits) = ga.brood(&Marked, &run, 5, &count).unwrap();
    assert_eq!(children.len(), 4);
    for i in (0..4).rev() {
        assert_eq!(ga.child(&run, 5, i, &count).unwrap(), children[i]);
        assert_eq!(fits[i], score(3.0));
    }
    let distinct: std::collections::BTreeSet<Vec<char>> = children.iter().cloned().collect();
    assert!(distinct.len() > 1);
    let too_many = |_share: u32, size: usize, _rng: &mut StdRng| size + 1;
    assert_eq!(ga.brood(&Marked, &run, 5, &too_many).err(), Some(GaError::GenomeTooSmall));
    run.advance(children, fits);
    assert_eq!(run.fns, 8);
}

#[test]
fn a_child_of_a_given_size_is_mutated_exactly_when_it_has_enough_genes() {
    let ga = engine(3, false, CrossoverType::TwoPoint);
    let mut rng = StdRng::seed_from_u64(11);
    for size in 0..=6usize {
        for count in 0..=8usize {
            let mut child = vec!['a'; 6];
            let r = ga.mutate_within(&mut child, size, count, &mut rng);
            assert_eq!(r.is_ok(), count <= size);
            if r.is_ok() {
                assert_eq!(child.iter().filter(|c| **c == 'X').count(), count);
                assert!(child[size..].iter().all(|c| *c == 'a'));
            } else {
                assert_eq!(r, Err(GaError::GenomeTooSmall));
                assert_eq!(child, vec!['a'; 6]);
            }
        }
    }
}

#[test]
fn a_count_that_fits_always_gives_a_child() {
    let ga = engine(4, false, CrossoverType::Binomial);
    let mut run = GaRun::begin(&ga, 100, vec![vec!['a'; 6]; 4], scores(&[0.0; 4]));
    run.next().unwrap();
    for seed in 0..40u64 {
        for i in 0..4usize {
            let child = ga.child(&run, seed, i, &|_share: u32, size: usize, _rng: &mut StdRng| size);
            assert_eq!(child, Ok(vec!['X'; 6]));
        }
        assert!(ga.brood(&Marked, &run, seed, &|_share: u32, size: usize, _rng: &mut StdRng| size / 3).is_ok());
    }
}

#[test]
fn a_tournament_returns_a_position_that_no_draw_beats() {
    let fits = scores(&[3.0, 3.0, 1.0, 3.0, 2.0]);
    let mut rng = StdRng::seed_from_u64(6);
    let mut seen = std::collections::BTreeSet::new();
    for _ in 0..200 {
        seen.insert(Tournament(5).select(&fits, &mut rng));
    }
    assert!(seen.contains(&0) || seen.contains(&1) || seen.contains(&3));
    assert!(seen.len() > 1);
    let mut low = 0usize;
    for _ in 0..500 {
        let r = Tournament(3).select(&fits, &mut rng);
        if r == 2 {
            low += 1;
        }
    }
    assert!(low < 60);
}

#[test]
fn a_child_without_a_finite_score_leaves_its_parent_in_place() {
    let ga = engine(4, false, CrossoverType::TwoPoint);
    let mut run = GaRun::begin(&ga, 100, named("abcd"), scores(&[1.0, 9.0, 3.0, 2.0]));
    run.next().unwrap();
    run.advance(named("wxyz"), scores(&[f32::NAN, 5.0, f32::INFINITY, f32::NEG_INFINITY]));
    assert_eq!(run.parents, named("axcd"));
    assert_eq!(run.fitness, scores(&[1.0, 5.0, 3.0, 2.0]));
    assert_eq!(run.fns, 8);
    assert_eq!(run.next().unwrap().best, score(5.0));
}

#[test]
fn with_elitism_a_rejected_child_of_the_best_parent_leaves_it_in_place() {
    let ga = engine(3, true, CrossoverType::TwoPoint);
    let mut run = GaRun::begin(&ga, 100, named("abc"), scores(&[1.0, 9.0, 3.0]));
    run.next().unwrap();
    run.advance(named("xyz"), scores(&[0.0, f32::NAN, 2.0]));
    assert_eq!(run.parents, named("xbz"));
    assert_eq!(run.fitness, scores(&[0.0, 9.0, 2.0]));
    run.next().unwrap();
    run.advance(named("pqr"), scores(&[f32::INFINITY, 4.0, f32::NAN]));
    assert_eq!(run.parents, named("bqz"));
    assert_eq!(run.fitness, scores(&[9.0, 4.0, 2.0]));
}

#[test]
fn settle_takes_the_children_with_finite_scores() {
    let (members, kept, elite) = evopt::ga::fastga::settle(
        named("abc"),
        scores(&[1.0, 2.0, 3.0]),
        named("xyz"),
        scores(&[f32::NAN, 7.0, 8.0]),
        2,
    );
    assert_eq!(members, named("ayz"));
    assert_eq!(kept, scores(&[1.0, 7.0, 8.0]));
    assert_eq!(elite, Some(vec!['c']));
    let (members, _, elite) = evopt::ga::fastga::settle(
        named("abc"),
        scores(&[1.0, 2.0, 3.0]),
        named("xyz"),
        scores(&[0.0, 7.0, f32::INFINITY]),
        2,
    );
    assert_eq!(members, named("xyc"));
    assert_eq!(elite, None);
}

#[test]
fn every_position_lists_them_in_order() {
    assert_eq!(evopt::ga::fastga::every_position(4), vec![0, 1, 2, 3]);
    assert!(evopt::ga::fastga::every_position(0).is_empty());
}

#[test]
fn every_report_tells_what_was_left() {
    let (run, told) = marking_run(true, 23);
    assert_eq!(told.iter().map(|t| t.1).collect::<Vec<_>>(), vec![18, 13, 8, 3]);
    assert_eq!(run.fns, 25);
    assert_eq!(run.reports.len(), 4);
    for (k, r) in run.reports.iter().enumerate() {
        assert_eq!(r.remaining, 23 - 5 * (k + 1));
    }
}

#[test]
fn a_run_cannot_end_on_a_best_that_is_not_finite() {
    let ga = engine(3, true, CrossoverType::TwoPoint);
    for bad in [f32::NAN, f32::INFINITY] {
        let run = GaRun::begin(&ga, 3, named("abc"), scores(&[1.0, bad, 2.0]));
        assert_eq!(run.finish(), Err(GaError::NonFiniteBest));
    }
    let run = GaRun::begin(&ga, 3, named("abc"), scores(&[1.0, f32::NEG_INFINITY, 2.0]));
    assert_eq!(run.finish(), Ok((score(2.0), vec!['c'])));
}

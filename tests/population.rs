use racers::network::{Activation, Layer, Network};
use racers::population::{next_generation, rank_by_fitness, reproduce, Population, PopulationError, GENERATION_TIME};

#[test]
fn too_small_population() {
    assert!(matches!(Population::new(0), Err(PopulationError::TooSmall)));
    assert!(matches!(Population::new(1), Err(PopulationError::TooSmall)));
    assert!(Population::new(2).is_ok());
}

#[test]
fn fresh_population() {
    let p = Population::new(4).unwrap();
    assert_eq!(p.size(), 4);
    assert_eq!(p.generation(), 0);
    assert_eq!(p.timer(), 0);
    for i in 0..4 {
        assert_eq!(p.fitness(i), 0);
        assert!(!p.is_crashed(i));
    }
    assert!(!p.all_cars_crashed());
    assert!(!p.generation_over());
}

#[test]
fn update_scores_and_crashes() {
    let mut p = Population::new(3).unwrap();
    p.update(&vec![true, false, true]);
    assert_eq!(p.timer(), 1);
    assert_eq!((p.fitness(0), p.fitness(1), p.fitness(2)), (1, 0, 1));
    assert!(p.is_crashed(1));
    // a crashed vehicle stays crashed and scores nothing
    p.update(&vec![true, true, false]);
    assert_eq!((p.fitness(0), p.fitness(1), p.fitness(2)), (2, 0, 1));
    assert!(p.is_crashed(1) && p.is_crashed(2) && !p.is_crashed(0));
    assert!(!p.generation_over());
    assert!(p.update(&vec![false, true, true]).is_none());
    assert!(p.all_cars_crashed());
    assert!(p.generation_over());
}

#[test]
fn all_crashed_starts_next_generation() {
    let mut p = Population::new(3).unwrap();
    assert!(p.update(&vec![true, false, true]).is_none());
    assert!(p.update(&vec![false, false, false]).is_none());
    assert!(p.all_cars_crashed());
    // ticks are left, but every car crashed: the next update regenerates
    let r = p.update(&vec![true, false, true]).unwrap();
    assert_eq!(r.generation, 0);
    assert_eq!(r.best_fitness, 1);
    assert_eq!((r.first_parent, r.second_parent), (0, 2));
    assert_eq!(p.generation(), 1);
    assert_eq!(p.timer(), 1);
    assert_eq!((p.fitness(0), p.fitness(1), p.fitness(2)), (1, 0, 1));
    assert!(!p.is_crashed(0) && p.is_crashed(1) && !p.is_crashed(2));
}

#[test]
fn tick_budget_ends_generation() {
    let mut p = Population::new(2).unwrap();
    for _ in 0..GENERATION_TIME {
        assert!(!p.generation_over());
        p.update(&vec![true, true]);
    }
    assert_eq!(p.timer(), 1000);
    assert_eq!(p.fitness(0), 1000);
    assert!(p.generation_over());
    let r = p.update(&vec![false, true]).unwrap();
    assert_eq!(r.best_fitness, 1000);
    assert_eq!(p.generation(), 1);
    assert_eq!(p.timer(), 1);
    assert_eq!((p.fitness(0), p.fitness(1)), (0, 1));
    assert!(p.is_crashed(0) && !p.is_crashed(1));
}

#[test]
fn ranking_is_sorted_and_stable() {
    let fitness = vec![3, 9, 3, 0, 9, 5];
    let order = rank_by_fitness(&fitness);
    assert_eq!(order, vec![1, 4, 5, 0, 2, 3]);
    for w in order.windows(2) {
        assert!(fitness[w[0]] >= fitness[w[1]]);
    }
    assert!(rank_by_fitness(&vec![]).is_empty());
}

#[test]
fn regeneration_picks_two_fittest() {
    let mut p = Population::new(4).unwrap();
    p.update(&vec![false, true, true, true]);
    p.update(&vec![true, true, false, true]);
    p.update(&vec![true, false, true, true]);
    // fitness: 0, 2, 1, 3
    let plan = p.regeneration();
    assert_eq!(plan.ranking, vec![3, 1, 2, 0]);
    assert!(p.update(&vec![true, true, true, false]).is_none());
    let r = p.update(&vec![true, true, true, true]).unwrap();
    assert_eq!(r.generation, 0);
    assert_eq!(r.best_fitness, 3);
    assert_eq!(r.ranking, vec![3, 1, 2, 0]);
    assert_eq!((r.first_parent, r.second_parent), (3, 1));
    assert_eq!(r.log_record(), b"0,3\n".to_vec());
    assert_eq!(p.generation(), 1);
    assert_eq!(p.timer(), 1);
    for i in 0..4 {
        assert_eq!(p.fitness(i), 1);
        assert!(!p.is_crashed(i));
    }
}

#[test]
fn log_record_digits() {
    let mut p = Population::new(2).unwrap();
    for _ in 0..12 {
        p.update(&vec![false, false]);
    }
    assert_eq!(p.generation(), 11);
    assert!(p.update(&vec![true, false]).is_some());
    assert_eq!(p.generation(), 12);
    for _ in 0..406 {
        assert!(p.update(&vec![true, false]).is_none());
    }
    assert!(p.update(&vec![false, false]).is_none());
    let r = p.update(&vec![false, false]).unwrap();
    assert_eq!(String::from_utf8(r.log_record()).unwrap(), "12,407\n");
}

fn brain(base: f64) -> Network<f64> {
    let l1 = Layer::new(3, 2, (0..6).map(|k| base + k as f64).collect(), vec![base; 2], Activation::Identity).unwrap();
    let l2 = Layer::new(2, 1, vec![base, base], vec![base], Activation::Sigmoid).unwrap();
    Network::new_empty().add_layer(l1).unwrap().add_layer(l2).unwrap()
}

#[test]
fn offspring_plans_cover_every_parameter() {
    macroquad::rand::srand(5);
    let child = reproduce(&brain(0.0), &brain(10.0));
    assert_eq!(child.brain.layers.len(), 2);
    assert_eq!(child.weight_mutations.len(), 2);
    assert_eq!(child.weight_mutations[0].len(), 6);
    assert_eq!(child.weight_mutations[1].len(), 2);
    assert_eq!(child.bias_mutations[0].len(), 2);
    assert_eq!(child.bias_mutations[1].len(), 1);
    assert_eq!(child.brain.layers[0].weights[0], 10.0);
}

#[test]
fn same_seed_same_offspring() {
    let run = || {
        macroquad::rand::srand(77);
        let mut bests = Vec::new();
        let mut p = Population::new(3).unwrap();
        let mut parents = (brain(0.0), brain(10.0));
        for g in 0..5u64 {
            for t in 0..(g + 1) * 3 {
                p.update(&vec![true, t % 2 == 0, t < 4]);
            }
            p.update(&vec![false, false, false]);
            let r = p.update(&vec![true, true, true]).unwrap();
            bests.push(r.best_fitness);
            let child = reproduce(&parents.0, &parents.1);
            let flat: Vec<f64> = child.brain.layers.iter().flat_map(|l| l.weights.clone()).collect();
            let plan: Vec<(bool, bool)> = child.weight_mutations.iter().flatten().map(|m| (m.reset, m.nudge)).collect();
            bests.push(flat.iter().sum::<f64>() as u64 + plan.iter().filter(|m| m.0 || m.1).count() as u64);
            parents = (child.brain, brain(g as f64));
        }
        bests
    };
    assert_eq!(run(), run());
}

#[test]
fn next_generation_has_full_size() {
    macroquad::rand::srand(9);
    let (a, b) = (brain(0.0), brain(10.0));
    assert!(a.is_well_formed() && a.is_drawable() && a.shape_matches(&b));
    let children = next_generation(&a, &b, 7);
    assert_eq!(children.len(), 7);
    for c in &children {
        assert!(c.brain.is_well_formed() && c.brain.shape_matches(&a));
        assert_eq!(c.brain.layers[0].weights[0], 10.0);
    }
}

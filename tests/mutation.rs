use racers::mutation::{draw_mutations, mutation_from_rolls, Mutation};

#[test]
fn rolls_decide_each_flag_alone() {
    assert_eq!(mutation_from_rolls(0, 999), Mutation { reset: true, nudge: false });
    assert_eq!(mutation_from_rolls(19, 29), Mutation { reset: true, nudge: true });
    assert_eq!(mutation_from_rolls(20, 29), Mutation { reset: false, nudge: true });
    assert_eq!(mutation_from_rolls(20, 30), Mutation { reset: false, nudge: false });
}

#[test]
fn mutation_rates_match_their_chances() {
    macroquad::rand::srand(2024);
    let n = 200_000;
    let plan = draw_mutations(n);
    assert_eq!(plan.len(), n);
    let resets = plan.iter().filter(|m| m.reset).count() as f64 / n as f64;
    let nudges = plan.iter().filter(|m| m.nudge).count() as f64 / n as f64;
    let both = plan.iter().filter(|m| m.reset && m.nudge).count() as f64 / n as f64;
    assert!((resets - 0.02).abs() < 0.002, "reset rate {}", resets);
    assert!((nudges - 0.03).abs() < 0.002, "nudge rate {}", nudges);
    assert!((both - 0.0006).abs() < 0.0003, "joint rate {}", both);
}

#[test]
fn empty_plan() {
    assert!(draw_mutations(0).is_empty());
}

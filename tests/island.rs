use ars_optimizer::dies::Dice;
use ars_optimizer::island::{Island, NB_FIGHTS};

#[test]
fn select_best_takes_the_first_maximum() {
    assert_eq!(Island::select_best(&vec![3, 7, 7, 1]), 1);
    assert_eq!(Island::select_best(&vec![5]), 0);
    assert_eq!(Island::select_best(&vec![0, 0, 0]), 0);
    assert_eq!(Island::select_best(&vec![1, 2, 3, 9]), 3);
}

#[test]
fn island_keeps_its_size_and_reports_each_generation() {
    let mut dice = Dice::seeded(40);
    let mut island = Island::new("0".to_string(), 4, 20, &mut dice);
    assert_eq!(island.population.len(), 4);
    let names: Vec<String> = island.population.iter().map(|c| c.name.clone()).collect();
    assert_eq!(names, vec!["0", "1", "2", "3"]);
    let generations = island.run(3, &mut dice);
    assert_eq!(generations.len(), 3);
    for g in &generations {
        assert_eq!(g.fights, NB_FIGHTS * 3);
        assert!(g.wins <= g.fights);
    }
    assert_eq!(island.population.len(), 4);
    assert_eq!(island.name, "0");
    assert_eq!(island.mutation, 20);
    let names: Vec<String> = island.population.iter().map(|c| c.name.clone()).collect();
    assert_eq!(names, vec!["0", "1", "2", "3"]);
    let last = &generations[2].best;
    for c in &island.population {
        assert_eq!(c.weapon.damage, last.weapon.damage);
        assert_eq!(c.default_size, last.default_size);
    }
    let mut idle = Island::new("idle".to_string(), 2, 20, &mut dice);
    let before: Vec<String> = idle.population.iter().map(|c| format!("{:?}", c)).collect();
    assert!(idle.run(0, &mut dice).is_empty());
    let after: Vec<String> = idle.population.iter().map(|c| format!("{:?}", c)).collect();
    assert_eq!(before, after);
}

#[test]
fn single_member_island_runs() {
    let mut dice = Dice::seeded(41);
    let mut island = Island::new("solo".to_string(), 1, 50, &mut dice);
    let generations = island.run(1, &mut dice);
    assert_eq!(generations.len(), 1);
    assert_eq!(generations[0].fights, 0);
    assert_eq!(generations[0].wins, 0);
    assert_eq!(island.population.len(), 1);
}

#[test]
fn same_seed_same_evolution() {
    let mut a = Dice::seeded(42);
    let mut b = Dice::seeded(42);
    let mut first = Island::new("a".to_string(), 3, 30, &mut a);
    let mut second = Island::new("b".to_string(), 3, 30, &mut b);
    let ga = first.run(2, &mut a);
    let gb = second.run(2, &mut b);
    let wa: Vec<u64> = ga.iter().map(|g| g.wins).collect();
    let wb: Vec<u64> = gb.iter().map(|g| g.wins).collect();
    assert_eq!(wa, wb);
    for (x, y) in first.population.iter().zip(second.population.iter()) {
        assert_eq!(x.base_stats, y.base_stats);
        assert_eq!(x.virtues, y.virtues);
    }
}

#[test]
fn fitness_from_a_row_of_results() {
    assert_eq!(Island::calculate_fitness(&vec![0, 40, 70], 0), 110);
    assert_eq!(Island::calculate_fitness(&vec![60, 0, 30], 1), 90);
    assert_eq!(Island::calculate_fitness(&vec![60, 10, 0], 2), 70);
    assert_eq!(Island::calculate_fitness(&vec![0], 0), 0);
}

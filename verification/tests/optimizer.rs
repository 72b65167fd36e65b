use backend::arithmetic::Arithmetic;
use backend::metaheuristic::crowding::calculate_crowding_distance;
use backend::metaheuristic::descent::{crowd_archive, trim_archive, update_archive, MultiObjectiveDescent};
use backend::metaheuristic::dominance::{dominates, non_dominated_sort};
use backend::metaheuristic::nsga2::{next_generation, score, Setting, NSGAII};
use backend::metaheuristic::objects::{Solution, Variable, VariableDefinition};
use backend::metaheuristic::selection::{prepare, select, tournament_selection};
use backend::metaheuristic::sorting::{sort_front, sort_population, sort_solutions, Order};
use backend::metaheuristic::variation::{
    clamp, copy_solution, crossover, mutate, mutate_variable, random_variables, Variation,
};
use backend::random::random_below;
use rand::Rng;
use std::marker::PhantomData;

fn ieee() -> Arithmetic<
    f64,
    impl Fn(&f64, &f64) -> f64,
    impl Fn(&f64, &f64) -> f64,
    impl Fn(&f64, &f64) -> f64,
    impl Fn(&f64, &f64) -> bool,
    impl Fn(i64) -> f64,
> {
    Arithmetic {
        add: |a: &f64, b: &f64| a + b,
        sub: |a: &f64, b: &f64| a - b,
        div: |a: &f64, b: &f64| a / b,
        less: |a: &f64, b: &f64| a < b,
        from_int: |n: i64| n as f64,
        largest: f64::MAX,
        infinity: f64::INFINITY,
    }
}

fn less(a: &f64, b: &f64) -> bool {
    a < b
}

fn moves() -> Variation<
    f64,
    impl Fn(&f64) -> bool,
    impl Fn(&f64, &f64) -> f64,
    impl Fn(&f64, &f64, &f64, &f64) -> (f64, f64),
    impl Fn(i64, i64, i64, i64) -> (i64, i64),
    impl Fn(&f64, &f64, &f64) -> f64,
    impl Fn(i64, i64, i64) -> i64,
> {
    Variation {
        chance: |rate: &f64| rand::thread_rng().gen::<f64>() < *rate,
        sample: |min: &f64, max: &f64| rand::thread_rng().gen_range(*min..*max),
        blend: |a: &f64, b: &f64, min: &f64, max: &f64| {
            let t = rand::thread_rng().gen::<f64>();
            ((t * a + (1.0 - t) * b).clamp(*min, *max), ((1.0 - t) * a + t * b).clamp(*min, *max))
        },
        blend_integer: |a: i64, b: i64, _min: i64, _max: i64| (a + b + 1000, a - b - 1000),
        perturb: |a: &f64, min: &f64, max: &f64| {
            (a + rand::thread_rng().gen_range(-1.0..1.0)).clamp(*min, *max)
        },
        perturb_integer: |a: i64, _min: i64, _max: i64| a + rand::thread_rng().gen_range(-50..=50),
        numbers: PhantomData,
    }
}

fn solution(objectives: Vec<f64>) -> Solution<f64> {
    Solution::new(vec![], objectives, 0.0)
}

fn population(objectives: &[[f64; 2]]) -> Vec<Solution<f64>> {
    objectives.iter().map(|o| solution(o.to_vec())).collect()
}

#[test]
fn a_new_solution_has_rank_zero() {
    let s = Solution::new(vec![Variable::Integer(3)], vec![1.0, 2.0], 0.5);
    assert_eq!(s.rank, 0);
    assert_eq!(s.crowding_distance, 0.5);
    assert_eq!(s.objectives, vec![1.0, 2.0]);
    assert_eq!(s.variables.len(), 1);
}

#[test]
fn dominance_is_nowhere_worse_and_somewhere_better() {
    let a = solution(vec![1.0, 2.0, 3.0]);
    let b = solution(vec![1.0, 3.0, 3.0]);
    let c = solution(vec![0.0, 9.0, 3.0]);
    assert!(dominates(&less, &a, &b, 3));
    assert!(!dominates(&less, &b, &a, 3));
    assert!(!dominates(&less, &a, &a, 3));
    assert!(!dominates(&less, &a, &c, 3));
    assert!(!dominates(&less, &c, &a, 3));
    assert!(!dominates(&less, &a, &b, 1));
    assert!(dominates(&less, &a, &b, 2));
    assert!(!dominates(&less, &a, &b, 0));
}

#[test]
fn sorting_puts_each_member_behind_what_dominates_it() {
    let mut all = population(&[
        [1.0, 5.0],
        [2.0, 2.0],
        [5.0, 1.0],
        [2.0, 6.0],
        [3.0, 3.0],
        [6.0, 6.0],
        [1.0, 5.0],
    ]);
    for s in all.iter_mut() {
        s.rank = 99;
    }
    let fronts = non_dominated_sort(&less, &mut all, 2);
    assert_eq!(fronts, vec![vec![0, 1, 2, 6], vec![4, 3], vec![5]]);
    let ranks: Vec<usize> = all.iter().map(|s| s.rank).collect();
    assert_eq!(ranks, vec![0, 0, 0, 1, 1, 2, 0]);
    for a in 0..all.len() {
        for b in 0..all.len() {
            if dominates(&less, &all[a], &all[b], 2) {
                assert!(all[a].rank < all[b].rank);
            }
        }
    }
    for b in 0..all.len() {
        if all[b].rank > 0 {
            assert!((0..all.len())
                .any(|a| all[a].rank + 1 == all[b].rank && dominates(&less, &all[a], &all[b], 2)));
        }
    }
}

#[test]
fn sorting_an_empty_population_gives_one_empty_front() {
    let mut all: Vec<Solution<f64>> = vec![];
    assert_eq!(non_dominated_sort(&less, &mut all, 2), vec![Vec::<usize>::new()]);
}

#[test]
fn sorting_a_chain_gives_one_front_for_each_member() {
    let mut all = population(&[[3.0, 3.0], [1.0, 1.0], [2.0, 2.0]]);
    assert_eq!(non_dominated_sort(&less, &mut all, 2), vec![vec![1], vec![2], vec![0]]);
}

#[test]
fn a_cycle_of_dominance_is_left_out_of_every_front() {
    let nan = f64::NAN;
    let mut all = vec![
        solution(vec![1.0, nan, 5.0]),
        solution(vec![2.0, 6.0, nan]),
        solution(vec![nan, 7.0, 4.0]),
    ];
    for s in all.iter_mut() {
        s.rank = 7;
    }
    assert!(dominates(&less, &all[0], &all[1], 3));
    assert!(dominates(&less, &all[1], &all[2], 3));
    assert!(dominates(&less, &all[2], &all[0], 3));
    let fronts = non_dominated_sort(&less, &mut all, 3);
    assert_eq!(fronts, vec![Vec::<usize>::new()]);
    assert!(all.iter().all(|s| s.rank == 7));
}

#[test]
fn crowding_distance_of_a_front() {
    let ops = ieee();
    let mut all = population(&[[1.0, 9.0], [2.0, 7.0], [4.0, 4.0], [7.0, 2.0], [9.0, 1.0], [0.0, 0.0]]);
    all[5].crowding_distance = 3.5;
    let front = vec![3, 0, 4, 1, 2];
    calculate_crowding_distance(&ops, &mut all, &front, 2);
    assert_eq!(all[0].crowding_distance, f64::INFINITY);
    assert_eq!(all[4].crowding_distance, f64::INFINITY);
    assert_eq!(all[1].crowding_distance, (4.0 - 1.0) / 8.0 + (9.0 - 4.0) / 8.0);
    assert_eq!(all[2].crowding_distance, (7.0 - 2.0) / 8.0 + (7.0 - 2.0) / 8.0);
    assert_eq!(all[3].crowding_distance, (9.0 - 4.0) / 8.0 + (4.0 - 1.0) / 8.0);
    assert_eq!(all[5].crowding_distance, 3.5);
    assert_eq!(all[1].objectives, vec![2.0, 7.0]);
}

#[test]
fn crowding_distance_of_a_small_front_is_infinite() {
    let ops = ieee();
    let mut all = population(&[[1.0, 9.0], [2.0, 7.0], [4.0, 4.0]]);
    calculate_crowding_distance(&ops, &mut all, &vec![2, 0], 2);
    assert_eq!(all[0].crowding_distance, f64::INFINITY);
    assert_eq!(all[2].crowding_distance, f64::INFINITY);
    assert_eq!(all[1].crowding_distance, 0.0);
    calculate_crowding_distance(&ops, &mut all, &vec![], 2);
    assert_eq!(all[1].crowding_distance, 0.0);
}

#[test]
fn crowding_distance_without_spread_stays_zero() {
    let ops = ieee();
    let mut all = population(&[[1.0, 1.0], [1.0, 1.0], [1.0, 1.0], [1.0, 1.0]]);
    calculate_crowding_distance(&ops, &mut all, &vec![0, 1, 2, 3], 2);
    assert_eq!(all[0].crowding_distance, f64::INFINITY);
    assert_eq!(all[1].crowding_distance, 0.0);
    assert_eq!(all[2].crowding_distance, 0.0);
    assert_eq!(all[3].crowding_distance, f64::INFINITY);
}

#[test]
fn fronts_are_sorted_by_an_objective_keeping_ties_in_order() {
    let all = population(&[[3.0, 0.0], [1.0, 0.0], [3.0, 1.0], [2.0, 0.0], [1.0, 5.0]]);
    assert_eq!(sort_front(&less, &all, &vec![0, 1, 2, 3, 4], 0), vec![1, 4, 3, 0, 2]);
    assert_eq!(sort_front(&less, &all, &vec![4, 2, 0], 0), vec![4, 2, 0]);
    assert_eq!(sort_front(&less, &all, &vec![4, 2, 0], 1), vec![0, 2, 4]);
    assert!(sort_front(&less, &all, &vec![], 1).is_empty());
}

fn ranked(rank: usize, crowding: f64, tag: f64) -> Solution<f64> {
    let mut s = Solution::new(vec![], vec![tag], crowding);
    s.rank = rank;
    s
}

fn tags(all: &Vec<Solution<f64>>) -> Vec<f64> {
    all.iter().map(|s| s.objectives[0]).collect()
}

#[test]
fn populations_are_sorted_by_rank_and_falling_crowding_distance() {
    let mut all = vec![
        ranked(1, 0.5, 0.0),
        ranked(0, 0.1, 1.0),
        ranked(1, f64::INFINITY, 2.0),
        ranked(0, 0.7, 3.0),
        ranked(0, 0.1, 4.0),
        ranked(2, 9.0, 5.0),
        ranked(0, f64::NAN, 6.0),
    ];
    sort_population(&less, &mut all);
    assert_eq!(tags(&all), vec![3.0, 1.0, 4.0, 6.0, 2.0, 0.0, 5.0]);
}

#[test]
fn solutions_are_sorted_by_other_orders() {
    let mut all = vec![ranked(0, 0.5, 3.0), ranked(1, 0.9, 1.0), ranked(2, 0.5, 2.0)];
    sort_solutions(&less, Order::Objective(0), &mut all);
    assert_eq!(tags(&all), vec![1.0, 2.0, 3.0]);
    sort_solutions(&less, Order::Crowding, &mut all);
    assert_eq!(tags(&all), vec![1.0, 2.0, 3.0]);
    let mut other = vec![ranked(0, 0.5, 3.0), ranked(1, 0.5, 1.0), ranked(2, 0.9, 2.0)];
    sort_solutions(&less, Order::Crowding, &mut other);
    assert_eq!(tags(&other), vec![2.0, 3.0, 1.0]);
    sort_solutions(&less, Order::Selection, &mut other);
    assert_eq!(tags(&other), vec![3.0, 1.0, 2.0]);
}

#[test]
fn the_tournament_prefers_rank_then_crowding_distance() {
    let all = vec![ranked(1, 0.5, 0.0), ranked(0, 0.1, 1.0), ranked(1, 0.9, 2.0), ranked(1, 0.9, 3.0)];
    assert_eq!(select(&less, &all, 0, 1), 1);
    assert_eq!(select(&less, &all, 1, 0), 1);
    assert_eq!(select(&less, &all, 0, 2), 2);
    assert_eq!(select(&less, &all, 2, 0), 2);
    assert_eq!(select(&less, &all, 2, 3), 3);
    assert_eq!(select(&less, &all, 3, 2), 2);
    assert_eq!(select(&less, &all, 0, 0), 0);
    for _ in 0..50 {
        assert!(tournament_selection(&less, &all) < 4);
    }
    let one = vec![ranked(0, 0.0, 0.0)];
    assert_eq!(tournament_selection(&less, &one), 0);
}

#[test]
fn random_positions_stay_below_the_bound() {
    for n in [1usize, 2, 3, 10] {
        let mut seen = vec![false; n];
        for _ in 0..400 {
            let r = random_below(n);
            assert!(r < n);
            seen[r] = true;
        }
        assert!(seen.iter().all(|s| *s));
    }
}

#[test]
fn preparing_ranks_and_measures_every_front() {
    let ops = ieee();
    let mut all = population(&[[1.0, 9.0], [2.0, 7.0], [4.0, 4.0], [7.0, 2.0], [3.0, 8.0], [8.0, 8.0]]);
    let fronts = prepare(&ops, &mut all, 2);
    assert_eq!(fronts, vec![vec![0, 1, 2, 3], vec![4], vec![5]]);
    assert_eq!(all[0].crowding_distance, f64::INFINITY);
    assert_eq!(all[3].crowding_distance, f64::INFINITY);
    assert_eq!(all[1].crowding_distance, (4.0 - 1.0) / 6.0 + (9.0 - 4.0) / 7.0);
    assert_eq!(all[2].crowding_distance, (7.0 - 2.0) / 6.0 + (7.0 - 2.0) / 7.0);
    assert_eq!(all[4].crowding_distance, f64::INFINITY);
    assert_eq!(all[5].crowding_distance, f64::INFINITY);
    assert_eq!(all[4].rank, 1);
    assert_eq!(all[5].rank, 2);
}

#[test]
fn the_next_generation_keeps_the_best_fronts() {
    let ops = ieee();
    let all = population(&[
        [8.0, 8.0],
        [1.0, 9.0],
        [3.0, 8.0],
        [2.0, 7.0],
        [4.0, 4.0],
        [7.0, 2.0],
        [9.0, 9.0],
    ]);
    let kept = next_generation(&ops, all, 5, 2);
    assert_eq!(kept.len(), 5);
    let objectives: Vec<Vec<f64>> = kept.iter().map(|s| s.objectives.clone()).collect();
    assert_eq!(
        objectives,
        vec![vec![1.0, 9.0], vec![7.0, 2.0], vec![4.0, 4.0], vec![2.0, 7.0], vec![3.0, 8.0]]
    );
    let ranks: Vec<usize> = kept.iter().map(|s| s.rank).collect();
    assert_eq!(ranks, vec![0, 0, 0, 0, 1]);
    for a in kept.iter().filter(|s| s.rank == 0) {
        for b in kept.iter().filter(|s| s.rank == 0) {
            assert!(!dominates(&less, a, b, 2));
        }
    }
}

#[test]
fn the_next_generation_of_a_small_population_is_all_of_it() {
    let ops = ieee();
    let all = population(&[[8.0, 8.0], [1.0, 9.0]]);
    assert_eq!(next_generation(&ops, all, 5, 2).len(), 2);
    assert!(next_generation(&ops, population(&[[8.0, 8.0]]), 0, 2).is_empty());
}

fn domains() -> Vec<VariableDefinition<f64>> {
    vec![
        VariableDefinition::Float(-2.0, 3.0),
        VariableDefinition::Integer(-5, 5),
        VariableDefinition::Boolean,
        VariableDefinition::Integer(7, 7),
    ]
}

fn fits(variables: &Vec<Variable<f64>>, definitions: &Vec<VariableDefinition<f64>>) -> bool {
    variables.len() == definitions.len()
        && variables.iter().zip(definitions.iter()).all(|pair| match pair {
            (Variable::Float(v), VariableDefinition::Float(min, max)) => min <= v && v <= max,
            (Variable::Integer(v), VariableDefinition::Integer(min, max)) => min <= v && v <= max,
            (Variable::Boolean(_), VariableDefinition::Boolean) => true,
            _ => false,
        })
}

#[test]
fn random_variables_fit_their_domains() {
    let variation = moves();
    for _ in 0..100 {
        assert!(fits(&random_variables(&variation.sample, &domains()), &domains()));
    }
    assert!(random_variables(&variation.sample, &Vec::<VariableDefinition<f64>>::new()).is_empty());
}

#[test]
fn integers_are_brought_into_their_bounds() {
    assert_eq!(clamp(5, 1, 9), 5);
    assert_eq!(clamp(0, 1, 9), 1);
    assert_eq!(clamp(10, 1, 9), 9);
    assert_eq!(clamp(i64::MIN, -3, -3), -3);
    assert_eq!(clamp(1, 1, 9), 1);
    assert_eq!(clamp(9, 1, 9), 9);
}

#[test]
fn children_and_mutants_fit_their_domains() {
    let variation = moves();
    let definitions = domains();
    for _ in 0..200 {
        let mut first = Solution::new(random_variables(&variation.sample, &definitions), vec![1.0], 0.0);
        first.rank = 3;
        let second = Solution::new(random_variables(&variation.sample, &definitions), vec![2.0], 0.0);
        let (mut a, b) = crossover(&variation, &definitions, &0.9, &first, &second);
        assert!(fits(&a.variables, &definitions));
        assert!(fits(&b.variables, &definitions));
        assert_eq!(a.objectives, vec![1.0]);
        assert_eq!(b.objectives, vec![2.0]);
        assert_eq!(a.rank, 3);
        for i in 0..definitions.len() {
            if let (Variable::Boolean(x), Variable::Boolean(y)) = (a.variables[i], b.variables[i]) {
                let parents = (first.variables[i], second.variables[i]);
                if let (Variable::Boolean(p), Variable::Boolean(q)) = parents {
                    assert!((x, y) == (p, q) || (x, y) == (q, p));
                }
            }
        }
        mutate(&variation, &definitions, &0.5, &mut a);
        assert!(fits(&a.variables, &definitions));
        assert_eq!(a.objectives, vec![1.0]);
    }
}

#[test]
fn without_a_chance_nothing_is_crossed_or_mutated() {
    let variation = moves();
    let definitions = domains();
    let first = Solution::new(random_variables(&variation.sample, &definitions), vec![1.0], 0.0);
    let second = Solution::new(random_variables(&variation.sample, &definitions), vec![2.0], 0.0);
    let (mut a, b) = crossover(&variation, &definitions, &0.0, &first, &second);
    assert_eq!(format!("{:?}", a.variables), format!("{:?}", first.variables));
    assert_eq!(format!("{:?}", b.variables), format!("{:?}", second.variables));
    mutate(&variation, &definitions, &0.0, &mut a);
    assert_eq!(format!("{:?}", a.variables), format!("{:?}", first.variables));
}

#[test]
fn a_certain_mutation_flips_every_boolean() {
    let variation = moves();
    let definitions = vec![VariableDefinition::Boolean, VariableDefinition::Boolean];
    let mut s = Solution::new(vec![Variable::Boolean(true), Variable::Boolean(false)], vec![], 0.0);
    mutate(&variation, &definitions, &2.0, &mut s);
    assert_eq!(format!("{:?}", s.variables), "[Boolean(false), Boolean(true)]");
}

#[test]
fn a_copy_is_alike() {
    let mut s = Solution::new(vec![Variable::Integer(4), Variable::Float(0.5)], vec![1.0, 2.0], 0.25);
    s.rank = 6;
    let copy = copy_solution(&s);
    assert_eq!(format!("{:?}", copy), format!("{:?}", s));
}

fn sphere(all: &Vec<Solution<f64>>) -> Vec<Vec<f64>> {
    all.iter()
        .map(|s| {
            let x = match s.variables[0] {
                Variable::Float(v) => v,
                _ => 0.0,
            };
            let n = match s.variables[1] {
                Variable::Integer(v) => v as f64,
                _ => 0.0,
            };
            vec![x * x + n * n, (x - 1.0) * (x - 1.0) + (n - 2.0) * (n - 2.0), 0.0]
        })
        .collect()
}

#[test]
fn scoring_hands_each_member_its_row() {
    let variation = moves();
    let definitions = domains();
    let mut all: Vec<Solution<f64>> = (0..6)
        .map(|_| Solution::new(random_variables(&variation.sample, &definitions), vec![], 0.0))
        .collect();
    let expected = sphere(&all);
    score(&sphere, &mut all, 3);
    for i in 0..6 {
        assert_eq!(all[i].objectives, expected[i]);
    }
}

#[test]
fn nsga_returns_a_population_with_a_pareto_front() {
    let ops = ieee();
    let variation = moves();
    let algorithm = NSGAII::new(12, domains(), 3, 0.3, 0.9);
    for generations in [1usize, 2, 6] {
        let last = algorithm.run(&ops, &variation, generations, &sphere);
        assert_eq!(last.len(), 12);
        for s in last.iter() {
            assert!(fits(&s.variables, &domains()));
            assert_eq!(s.objectives.len(), 3);
        }
        assert_eq!(sphere(&last), last.iter().map(|s| s.objectives.clone()).collect::<Vec<_>>());
        for a in last.iter().filter(|s| s.rank == 0) {
            for b in last.iter().filter(|s| s.rank == 0) {
                assert!(!dominates(&less, a, b, 3));
            }
        }
        assert!(last.windows(2).all(|w| w[0].rank <= w[1].rank));
    }
}

#[test]
fn nsga_without_generations_returns_the_first_population() {
    let ops = ieee();
    let variation = moves();
    let last = NSGAII::new(5, domains(), 3, 0.3, 0.9).run(&ops, &variation, 0, &sphere);
    assert_eq!(last.len(), 5);
    assert!(last.iter().all(|s| s.rank == 0));
    let none = NSGAII::new(0, domains(), 3, 0.3, 0.9).run(&ops, &variation, 3, &sphere);
    assert!(none.is_empty());
}

#[test]
fn nsga_is_made_from_the_settings_of_a_configuration() {
    let made = NSGAII::new_from_json(
        Setting::Given(30),
        Setting::Given(0.1),
        Setting::Given(0.8),
        domains(),
        3,
    )
    .unwrap();
    assert_eq!(made.population_size, 30);
    assert_eq!(made.mutation_rate, 0.1);
    assert_eq!(made.crossover_rate, 0.8);
    assert_eq!(made.num_objectives, 3);
    assert_eq!(made.variable_definitions.len(), 4);
    let missing = NSGAII::<f64>::new_from_json(
        Setting::Invalid,
        Setting::Missing,
        Setting::Given(0.8),
        vec![],
        3,
    );
    assert_eq!(missing.err().unwrap(), "Missing parameters for the algorithm");
    let invalid = NSGAII::<f64>::new_from_json(
        Setting::Given(3),
        Setting::Given(0.1),
        Setting::Invalid,
        vec![],
        3,
    );
    assert_eq!(invalid.err().unwrap(), "Invalid parameters for the algorithm");
}

#[test]
fn the_archive_turns_away_what_it_dominates() {
    let ops = ieee();
    let mut archive = population(&[[1.0, 5.0], [3.0, 3.0], [5.0, 1.0]]);
    update_archive(&ops, &mut archive, solution(vec![4.0, 4.0]), 10, 2);
    assert_eq!(archive.len(), 3);
    update_archive(&ops, &mut archive, solution(vec![3.0, 3.0]), 10, 2);
    assert_eq!(archive.len(), 4);
    update_archive(&ops, &mut archive, solution(vec![2.0, 2.0]), 10, 2);
    let objectives: Vec<Vec<f64>> = archive.iter().map(|s| s.objectives.clone()).collect();
    assert_eq!(objectives, vec![vec![1.0, 5.0], vec![5.0, 1.0], vec![2.0, 2.0]]);
    update_archive(&ops, &mut archive, solution(vec![0.0, 0.0]), 10, 2);
    assert_eq!(archive.len(), 1);
    assert_eq!(archive[0].objectives, vec![0.0, 0.0]);
}

#[test]
fn the_archive_is_trimmed_to_its_size() {
    let ops = ieee();
    let mut archive = population(&[[1.0, 9.0], [2.0, 7.0], [4.0, 4.0], [7.0, 2.0]]);
    update_archive(&ops, &mut archive, solution(vec![9.0, 1.0]), 4, 2);
    assert_eq!(archive.len(), 4);
    let objectives: Vec<Vec<f64>> = archive.iter().map(|s| s.objectives.clone()).collect();
    assert_eq!(
        objectives,
        vec![vec![9.0, 1.0], vec![1.0, 9.0], vec![4.0, 4.0], vec![7.0, 2.0]]
    );
    assert_eq!(archive[0].crowding_distance, f64::INFINITY);
    assert_eq!(archive[1].crowding_distance, f64::INFINITY);
    assert_eq!(archive[2].crowding_distance, (7.0 - 2.0) / 8.0 + (7.0 - 2.0) / 8.0);
    assert_eq!(archive[3].crowding_distance, (9.0 - 4.0) / 8.0 + (4.0 - 1.0) / 8.0);
    let mut none: Vec<Solution<f64>> = vec![];
    update_archive(&ops, &mut none, solution(vec![9.0, 1.0]), 0, 2);
    assert!(none.is_empty());
}

#[test]
fn crowding_an_archive_sorts_it_by_the_last_objective() {
    let ops = ieee();
    let mut archive = population(&[[2.0, 7.0], [9.0, 1.0], [1.0, 9.0], [4.0, 4.0]]);
    crowd_archive(&ops, &mut archive, 2);
    let objectives: Vec<Vec<f64>> = archive.iter().map(|s| s.objectives.clone()).collect();
    assert_eq!(
        objectives,
        vec![vec![9.0, 1.0], vec![4.0, 4.0], vec![2.0, 7.0], vec![1.0, 9.0]]
    );
    assert_eq!(archive[1].crowding_distance, (9.0 - 2.0) / 8.0 + (7.0 - 1.0) / 8.0);
    assert_eq!(archive[2].crowding_distance, (4.0 - 1.0) / 8.0 + (9.0 - 4.0) / 8.0);
    let mut pair = population(&[[2.0, 7.0], [9.0, 1.0]]);
    crowd_archive(&ops, &mut pair, 2);
    assert_eq!(pair[0].objectives, vec![2.0, 7.0]);
    assert!(pair.iter().all(|s| s.crowding_distance == f64::INFINITY));
    let mut three = population(&[[2.0, 7.0], [9.0, 1.0], [1.0, 9.0]]);
    trim_archive(&ops, &mut three, 2, 2);
    assert_eq!(three.len(), 2);
    assert!(three.iter().all(|s| s.crowding_distance == f64::INFINITY));
}

fn grade(variables: &Vec<Variable<f64>>) -> Vec<f64> {
    let x = match variables[0] {
        Variable::Float(v) => v,
        _ => 0.0,
    };
    let n = match variables[1] {
        Variable::Integer(v) => v as f64,
        _ => 0.0,
    };
    vec![x * x + n * n, (x - 1.0) * (x - 1.0) + (n - 2.0) * (n - 2.0), 0.0]
}

fn nudge(value: &f64, step: &f64, min: &f64, max: &f64) -> f64 {
    (value + (rand::thread_rng().gen::<f64>() * 2.0 - 1.0) * step).clamp(*min, *max)
}

fn whole(step: &f64) -> i64 {
    step.ceil() as i64
}

#[test]
fn a_neighbour_differs_in_one_variable_at_most() {
    let variation = moves();
    let descent = MultiObjectiveDescent::new(0.4, domains(), 50, 5, 3);
    for _ in 0..200 {
        let current = descent.initialize_solution(&ieee(), &variation.sample);
        assert_eq!(current.objectives, vec![0.0, 0.0, 0.0]);
        let neighbor = descent.generate_neighbor(&nudge, &whole, &current);
        assert!(fits(&neighbor.variables, &domains()));
        let changed = (0..4)
            .filter(|i| {
                format!("{:?}", neighbor.variables[*i]) != format!("{:?}", current.variables[*i])
            })
            .count();
        assert!(changed <= 1);
        if let (Variable::Integer(a), Variable::Integer(b)) = (current.variables[1], neighbor.variables[1]) {
            assert!((a - b).abs() <= 1);
        }
        if let (Variable::Float(a), Variable::Float(b)) = (current.variables[0], neighbor.variables[0]) {
            assert!((a - b).abs() <= 0.4);
        }
    }
}

#[test]
fn an_integer_moves_by_the_whole_step() {
    let descent = MultiObjectiveDescent::new(3.4, vec![VariableDefinition::Integer(-100, 100)], 50, 5, 3);
    let current = Solution::new(vec![Variable::Integer(0)], vec![], 0.0);
    let mut seen = std::collections::BTreeSet::new();
    for _ in 0..500 {
        match descent.generate_neighbor(&nudge, &whole, &current).variables[0] {
            Variable::Integer(v) => {
                assert!((-4..=4).contains(&v));
                seen.insert(v);
            }
            _ => panic!("an integer was expected"),
        }
    }
    assert_eq!(seen.len(), 9);
}

#[test]
fn the_descent_returns_an_archive_of_undominated_solutions() {
    let ops = ieee();
    let variation = moves();
    let descent = MultiObjectiveDescent::new(0.4, domains(), 50, 5, 3);
    let archive = descent.run(&ops, &variation.sample, &nudge, &whole, 300, &grade);
    assert!(archive.len() <= 5);
    assert!(!archive.is_empty());
    for s in archive.iter() {
        assert!(fits(&s.variables, &domains()));
        assert_eq!(s.objectives, grade(&s.variables));
    }
    for a in archive.iter() {
        for b in archive.iter() {
            assert!(!dominates(&less, a, b, 3));
        }
    }
    let first = descent.run(&ops, &variation.sample, &nudge, &whole, 0, &grade);
    assert_eq!(first.len(), 1);
}

#[test]
fn the_descent_is_made_from_the_settings_of_a_configuration() {
    let made =
        MultiObjectiveDescent::new_from_json(Setting::Given(0.5), Setting::Given(20), domains(), 3)
            .unwrap();
    assert_eq!(made.step_size, 0.5);
    assert_eq!(made.archive_size, 20);
    assert_eq!(made.max_iterations_without_improvement, 1000);
    assert_eq!(made.num_objectives, 3);
    let missing =
        MultiObjectiveDescent::<f64>::new_from_json(Setting::Missing, Setting::Invalid, vec![], 3);
    assert_eq!(missing.err().unwrap(), "Missing parameters for the algorithm");
    let invalid =
        MultiObjectiveDescent::<f64>::new_from_json(Setting::Given(0.5), Setting::Invalid, vec![], 3);
    assert_eq!(invalid.err().unwrap(), "Invalid parameters for the algorithm");
}

#[test]
fn a_variable_moves_only_where_the_chance_hits() {
    let variation = moves();
    let integer = VariableDefinition::Integer(0, 10);
    let untouched = mutate_variable(&variation, integer, Variable::Integer(4), false);
    assert_eq!(format!("{:?}", untouched), "Integer(4)");
    let kept = mutate_variable(&variation, VariableDefinition::Boolean, Variable::Boolean(true), false);
    assert_eq!(format!("{:?}", kept), "Boolean(true)");
    let flipped = mutate_variable(&variation, VariableDefinition::Boolean, Variable::Boolean(true), true);
    assert_eq!(format!("{:?}", flipped), "Boolean(false)");
    let other = mutate_variable(&variation, VariableDefinition::Boolean, Variable::Integer(7), true);
    assert_eq!(format!("{:?}", other), "Integer(7)");
}

#[test]
fn a_moved_integer_is_brought_into_its_bounds() {
    let variation = Variation {
        chance: |_rate: &f64| true,
        sample: |min: &f64, _max: &f64| *min,
        blend: |a: &f64, b: &f64, _min: &f64, _max: &f64| (*a, *b),
        blend_integer: |a: i64, b: i64, _min: i64, _max: i64| (a, b),
        perturb: |a: &f64, _min: &f64, _max: &f64| *a,
        perturb_integer: |a: i64, _min: i64, _max: i64| a + 100,
        numbers: PhantomData,
    };
    let high = mutate_variable(&variation, VariableDefinition::Integer(0, 10), Variable::Integer(4), true);
    assert_eq!(format!("{:?}", high), "Integer(10)");
}

#[test]
fn a_moved_number_is_what_the_formula_gives() {
    let variation = Variation {
        chance: |_rate: &f64| true,
        sample: |min: &f64, _max: &f64| *min,
        blend: |a: &f64, b: &f64, _min: &f64, _max: &f64| (*a, *b),
        blend_integer: |a: i64, b: i64, _min: i64, _max: i64| (a, b),
        perturb: |a: &f64, _min: &f64, max: &f64| (a + 0.25).min(*max),
        perturb_integer: |a: i64, _min: i64, _max: i64| a - 100,
        numbers: PhantomData,
    };
    let definitions = vec![
        VariableDefinition::Float(0.0, 1.0),
        VariableDefinition::Integer(-5, 5),
        VariableDefinition::Boolean,
    ];
    let mut s = Solution::new(
        vec![Variable::Float(0.5), Variable::Integer(3), Variable::Boolean(false), Variable::Integer(9)],
        vec![1.5],
        0.0,
    );
    mutate(&variation, &definitions, &0.5, &mut s);
    assert_eq!(format!("{:?}", s.variables), "[Float(0.75), Integer(-5), Boolean(true), Integer(9)]");
    assert_eq!(s.objectives, vec![1.5]);
}

#[test]
fn the_descent_stops_after_the_idle_steps_it_allows() {
    let ops = ieee();
    let variation = moves();
    let calls = std::cell::Cell::new(0usize);
    let flat = |_variables: &Vec<Variable<f64>>| {
        calls.set(calls.get() + 1);
        vec![1.0]
    };
    let descent = MultiObjectiveDescent::new(0.5, vec![VariableDefinition::Boolean], 3, 2, 1);
    let archive = descent.run(&ops, &variation.sample, &nudge, &whole, 100, &flat);
    assert_eq!(archive.len(), 2);
    assert_eq!(calls.get(), 5);
    calls.set(0);
    let short = descent.run(&ops, &variation.sample, &nudge, &whole, 2, &flat);
    assert_eq!(short.len(), 2);
    assert_eq!(calls.get(), 3);
}

use linear_equations::cluster::merge_cluster_solutions;
use linear_equations::equation::LinearEquation;
use linear_equations::solution::Solution;
use linear_equations::system::{build_linear_system, index_variables, is_solvable_shape};
use nalgebra::DMatrix;

fn equation(terms: &[(&str, f64)], constant: f64) -> LinearEquation<f64> {
    let mut e = LinearEquation::new(constant);
    for (name, value) in terms {
        e.set_coefficient(name.to_string(), *value);
    }
    e
}

fn lu_solve(a: &Vec<Vec<f64>>, b: &Vec<Vec<f64>>) -> Option<Vec<Vec<f64>>> {
    if !is_solvable_shape(a, b) {
        return None;
    }
    let n = a.len();
    let k = b.first().map_or(0, |r| r.len());
    let a_data: Vec<f64> = a.iter().flatten().cloned().collect();
    let b_data: Vec<f64> = b.iter().flatten().cloned().collect();
    let a_mat = DMatrix::from_row_slice(n, n, &a_data);
    let b_mat = DMatrix::from_row_slice(n, k, &b_data);
    let x = a_mat.lu().solve(&b_mat)?;
    Some(x.row_iter().map(|r| r.iter().cloned().collect()).collect())
}

fn solve(equations: &Vec<LinearEquation<f64>>) -> Option<Solution<f64>> {
    let system = build_linear_system(equations, 0.0);
    let x = if system.needs_decomposition() {
        lu_solve(&system.coefficients, &system.constants)
    } else {
        None
    };
    system.read_solution(x)
}

fn solve_clusters(clusters: &Vec<Vec<LinearEquation<f64>>>) -> Solution<f64> {
    let outcomes: Vec<Option<Solution<f64>>> = clusters.iter().map(solve).collect();
    merge_cluster_solutions(&outcomes)
}

fn value(s: &Solution<f64>, name: &str) -> Option<f64> {
    s.get(&name.to_string())
}

#[test]
fn test_solve_linear_equation() {
    let equations = vec![equation(&[("a", 1.0)], 0.0), equation(&[("a", 1.0)], 0.1)];
    let solution = solve(&equations);
    assert!(solution.is_none());
}

#[test]
fn test_solve_linear_equation_clusters() {
    let equations1 = vec![
        equation(&[("a", 1.0)], 10.0),
        equation(&[("a", 1.0), ("b", 2.0)], 0.0),
        equation(&[("b", 1.0), ("c", 1.0)], 0.0),
    ];
    let equations2 = vec![equation(&[("d", 1.0), ("e", 2.0)], 0.0)];
    let equations3 = vec![equation(&[("z", 1.0)], 42.0)];
    let equations4 = vec![
        equation(&[("conflict", 1.0)], -21.0),
        equation(&[("conflict", 1.0)], -1.0),
    ];
    let clusters = vec![equations1, equations2, equations3, equations4];

    let solution = solve_clusters(&clusters);

    assert_eq!(value(&solution, "a"), Some(10.0));
    assert_eq!(value(&solution, "b"), Some(-5.0));
    assert_eq!(value(&solution, "c"), Some(5.0));
    assert_eq!(value(&solution, "z"), Some(42.0));
    assert!(value(&solution, "conflict").is_none());
    assert!(value(&solution, "d").is_none());
    assert!(value(&solution, "e").is_none());

    let q1 = "Q (044f1290-c386-42ac-a531-e6334029fd7c)";
    let q2 = "Q (864a016f-542e-4254-87f3-59dde11539b6)";
    let q21 = "Q (8446d267-c847-43d0-9dca-5d9a88d0b35b)->(864a016f-542e-4254-87f3-59dde11539b6)";
    let p2 = "P (864a016f-542e-4254-87f3-59dde11539b6)";
    let q12 = "Q (864a016f-542e-4254-87f3-59dde11539b6)->(8446d267-c847-43d0-9dca-5d9a88d0b35b)";
    let p1 = "P (8446d267-c847-43d0-9dca-5d9a88d0b35b)";
    let equations1 = vec![equation(&[(q1, 1.0)], 0.0), equation(&[(q1, 1.0)], 0.2)];
    let equations2 = vec![
        equation(&[(q2, 1.0), (q21, 1.0)], 0.0),
        equation(&[(p2, 1.0)], 0.0),
        equation(&[(q12, 1.0)], 0.0),
        equation(&[(q21, 1.0), (q12, 1.0)], 0.0),
        equation(&[(p1, 1.0), (p2, -1.0), (q21, -0.000013558774142754068)], 0.0),
    ];
    let clusters = vec![equations1, equations2];
    let solution = solve_clusters(&clusters);
    for (key, value) in &solution.entries {
        println!("{}: {}", key, value);
    }
    assert!(value(&solution, q1).is_none());
    assert_eq!(solution.entries.len(), 5);
}

#[test]
fn test_solve_matrix() {
    let a = vec![vec![1.0, 1.0], vec![2.0, 1.0]];
    let b = vec![vec![0.0], vec![1.0]];
    let solution = lu_solve(&a, &b).unwrap();
    assert_eq!(solution[0][0], 1.0);
    assert_eq!(solution[1][0], -1.0);

    let a = vec![vec![1.0], vec![1.0]];
    let b = vec![vec![1.0], vec![0.5]];
    let solution = lu_solve(&a, &b);
    assert!(solution.is_none());
}

#[test]
fn non_square_shape_is_refused() {
    assert!(!is_solvable_shape(&vec![vec![1.0], vec![1.0]], &vec![vec![1.0], vec![0.5]]));
    assert!(is_solvable_shape(&vec![vec![1.0, 1.0], vec![2.0, 1.0]], &vec![vec![0.0], vec![1.0]]));
    assert!(!is_solvable_shape(&vec![vec![1.0, 1.0], vec![2.0]], &vec![vec![0.0], vec![1.0]]));
    assert!(!is_solvable_shape(&vec![vec![1.0]], &vec![vec![0.0], vec![1.0]]));
    let empty: Vec<Vec<f64>> = Vec::new();
    assert!(is_solvable_shape(&empty, &empty));
}

#[test]
fn variables_indexed_in_order_of_first_appearance() {
    let equations = vec![
        equation(&[("b", 1.0), ("a", 2.0)], 0.0),
        equation(&[("a", 3.0), ("c", 1.0)], 0.0),
        equation(&[("d", 1.0), ("b", 1.0)], 0.0),
    ];
    let index = index_variables(&equations);
    assert_eq!(index, vec!["b", "a", "c", "d"]);
    assert!(index_variables::<f64>(&Vec::new()).is_empty());
}

#[test]
fn matrix_rows_follow_the_variable_index() {
    let equations = vec![
        equation(&[("x", 2.0), ("y", -1.0)], 3.0),
        equation(&[("z", 4.0)], 7.0),
        equation(&[("y", 5.0)], -2.0),
    ];
    let system = build_linear_system(&equations, 0.0);
    assert_eq!(system.variables, vec!["x", "y", "z"]);
    assert_eq!(
        system.coefficients,
        vec![vec![2.0, -1.0, 0.0], vec![0.0, 0.0, 4.0], vec![0.0, 5.0, 0.0]]
    );
    assert_eq!(system.constants, vec![vec![3.0], vec![7.0], vec![-2.0]]);
    assert!(system.is_square());
    assert!(system.needs_decomposition());
}

#[test]
fn shape_mismatch_is_not_square() {
    let under = vec![equation(&[("d", 1.0), ("e", 2.0)], 0.0)];
    let system = build_linear_system(&under, 0.0);
    assert!(!system.is_square());
    assert!(system.read_solution(Some(vec![vec![1.0], vec![2.0]])).is_none());
}

#[test]
fn solved_column_is_read_against_variables() {
    let equations = vec![equation(&[("p", 1.0)], 1.0), equation(&[("q", 1.0)], 2.0)];
    let system = build_linear_system(&equations, 0.0);
    let s = system.read_solution(Some(vec![vec![1.5], vec![-2.5]])).unwrap();
    assert_eq!(value(&s, "p"), Some(1.5));
    assert_eq!(value(&s, "q"), Some(-2.5));
    assert!(system.read_solution(None).is_none());
    assert!(system.read_solution(Some(vec![vec![1.5]])).is_none());
    assert!(system.read_solution(Some(vec![vec![1.5], vec![]])).is_none());
}

#[test]
fn substituting_the_solution_reproduces_constants() {
    let equations = vec![
        equation(&[("x", 2.0), ("y", 1.0), ("z", -1.0)], 8.0),
        equation(&[("x", -3.0), ("y", -1.0), ("z", 2.0)], -11.0),
        equation(&[("x", -2.0), ("y", 1.0), ("z", 2.0)], -3.0),
    ];
    let s = solve(&equations).unwrap();
    for e in &equations {
        let mut total = 0.0;
        for (name, c) in &e.variables {
            total += c * value(&s, name).unwrap();
        }
        assert!((total - e.constant).abs() <= 1e-9 * e.constant.abs().max(1.0));
    }
}

#[test]
fn solving_twice_gives_identical_results() {
    let equations = vec![
        equation(&[("a", 3.0), ("b", 1.0)], 9.0),
        equation(&[("a", 1.0), ("b", 2.0)], 8.0),
    ];
    let first = solve(&equations).unwrap();
    let second = solve(&equations).unwrap();
    assert_eq!(first.entries, second.entries);
}

#[test]
fn empty_inputs_give_empty_solutions() {
    let s = solve(&Vec::new()).unwrap();
    assert!(s.is_empty());
    let merged = merge_cluster_solutions::<f64>(&Vec::new());
    assert!(merged.is_empty());
}

#[test]
fn failing_group_is_isolated() {
    let fails = vec![equation(&[("u", 1.0)], 1.0), equation(&[("u", 2.0)], 2.0)];
    let succeeds = vec![equation(&[("v", 1.0), ("w", 1.0)], 3.0), equation(&[("v", 1.0)], 1.0)];
    let s = solve_clusters(&vec![fails, succeeds]);
    assert!(value(&s, "u").is_none());
    assert_eq!(value(&s, "v"), Some(1.0));
    assert_eq!(value(&s, "w"), Some(2.0));
}

#[test]
fn later_group_overwrites_earlier_value() {
    let first = vec![equation(&[("x", 1.0)], 1.0)];
    let second = vec![equation(&[("x", 1.0)], 7.0)];
    let s = solve_clusters(&vec![first, second]);
    assert_eq!(value(&s, "x"), Some(7.0));
    assert_eq!(s.entries.len(), 1);
}

#[test]
fn solution_insert_and_extend() {
    let mut a: Solution<i64> = Solution::new();
    a.insert("x".to_string(), 1);
    a.insert("y".to_string(), 2);
    a.insert("x".to_string(), 3);
    assert_eq!(a.get(&"x".to_string()), Some(3));
    assert_eq!(a.entries.len(), 2);
    let mut b: Solution<i64> = Solution::new();
    b.insert("y".to_string(), 9);
    b.insert("z".to_string(), 4);
    a.extend(&b);
    assert_eq!(a.get(&"x".to_string()), Some(3));
    assert_eq!(a.get(&"y".to_string()), Some(9));
    assert_eq!(a.get(&"z".to_string()), Some(4));
    assert_eq!(a.get(&"w".to_string()), None);
}

#[test]
fn equation_coefficients() {
    let mut e = LinearEquation::new(5i64);
    e.set_coefficient("m".to_string(), 2);
    e.set_coefficient("n".to_string(), 3);
    e.set_coefficient("m".to_string(), 4);
    assert_eq!(e.coefficient(&"m".to_string(), 0), 4);
    assert_eq!(e.coefficient(&"n".to_string(), 0), 3);
    assert_eq!(e.coefficient(&"k".to_string(), 0), 0);
    assert_eq!(e.variables.len(), 2);
    assert_eq!(e.constant, 5);
}

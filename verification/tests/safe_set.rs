use clinlint::diagnostics::statement_analysis::{
    calculate_safe_set, get_dependencies_only_occuring_in_set,
};
use clinlint::varset::VarSet;

fn set(names: &[&str]) -> VarSet {
    let mut s = VarSet::new();
    for n in names {
        s.insert(n.to_string());
    }
    s
}

fn sorted(s: &VarSet) -> Vec<String> {
    let mut v = s.to_vec();
    v.sort();
    v
}

fn pairs(list: &[(&[&str], &[&str])]) -> Vec<(VarSet, VarSet)> {
    list.iter().map(|(p, d)| (set(p), set(d))).collect()
}

#[test]
fn safe_set_follows_chains_of_bindings() {
    // X is bound outright, Y by X, Z by Y; W needs V, which nothing binds
    let deps = pairs(&[
        (&["Z"], &["Y"]),
        (&["Y"], &["X"]),
        (&["X"], &[]),
        (&["W"], &["V"]),
        (&[], &["X", "W"]),
    ]);
    let (safe, mentioned) = calculate_safe_set(&deps, &VarSet::new(), true);
    assert_eq!(sorted(&safe), vec!["X", "Y", "Z"]);
    assert_eq!(sorted(&mentioned), vec!["V", "W", "X", "Y", "Z"]);
}

#[test]
fn safe_set_is_a_fixed_point() {
    let deps = pairs(&[
        (&["B"], &["A"]),
        (&["A"], &[]),
        (&["C", "D"], &["A", "B"]),
        (&["E"], &["F"]),
        (&["F"], &["E"]),
    ]);
    let (safe, _) = calculate_safe_set(&deps, &VarSet::new(), true);
    assert_eq!(sorted(&safe), vec!["A", "B", "C", "D"]);
    // One more round adds nothing: whatever a pair provides whose dependencies are safe is safe
    for (provide, depend) in &deps {
        if depend.is_subset(&safe) {
            assert!(provide.is_subset(&safe));
        }
    }
    // And nothing is safe without a reason: the set found again from scratch is the same
    let (again, _) = calculate_safe_set(&deps, &VarSet::new(), true);
    assert_eq!(sorted(&again), sorted(&safe));
}

#[test]
fn safe_set_of_no_dependencies_is_empty() {
    let deps: Vec<(VarSet, VarSet)> = Vec::new();
    let (safe, mentioned) = calculate_safe_set(&deps, &set(&["X"]), true);
    assert!(safe.is_empty());
    assert!(mentioned.is_empty());
}

#[test]
fn local_safe_set_ignores_global_variables() {
    // In a scope inside a statement with the global variable G, only the other variables count
    let deps = pairs(&[(&[], &["G", "X"]), (&["X"], &["G"]), (&["Y"], &["Z"])]);
    let (safe, mentioned) = calculate_safe_set(&deps, &set(&["G"]), false);
    assert_eq!(sorted(&safe), vec!["X"]);
    assert_eq!(sorted(&mentioned), vec!["G", "X", "Y", "Z"]);
    // The same dependencies in the scope of the statement: X needs G, which nothing binds
    let (global_safe, _) = calculate_safe_set(&deps, &set(&["G"]), true);
    assert!(global_safe.is_empty());
}

#[test]
fn dependencies_are_projected_to_a_set() {
    let deps = pairs(&[(&["X", "Y"], &["Z"]), (&["Y"], &[]), (&["A"], &["B"]), (&[], &["X"])]);
    let projected = get_dependencies_only_occuring_in_set(&deps, set(&["X", "Z"]));
    let shown: Vec<(Vec<String>, Vec<String>)> =
        projected.iter().map(|(p, d)| (sorted(p), sorted(d))).collect();
    assert_eq!(
        shown,
        vec![
            (vec!["X".to_string()], vec!["Z".to_string()]),
            (vec![], vec!["X".to_string()]),
        ]
    );
}

#[test]
fn variable_sets_behave_as_sets() {
    let a = set(&["X", "Y", "X"]);
    let b = set(&["Y", "Z"]);
    assert_eq!(sorted(&a), vec!["X", "Y"]);
    assert_eq!(sorted(&a.union(&b)), vec!["X", "Y", "Z"]);
    assert_eq!(sorted(&a.intersection(&b)), vec!["Y"]);
    assert_eq!(sorted(&a.difference(&b)), vec!["X"]);
    assert!(set(&["Y"]).is_subset(&a));
    assert!(!b.is_subset(&a));
    assert!(a.contains(&"X".to_string()));
    assert!(!a.contains(&"Z".to_string()));
    assert!(VarSet::new().is_empty());
    assert!(!a.is_empty());
    assert_eq!(sorted(&VarSet::singleton("V".to_string())), vec!["V"]);
    assert_eq!(sorted(&a.clone()), vec!["X", "Y"]);
}

use craft::schedule::{all_ran, next_to_run};

#[test]
fn scripts_run_after_dependencies() {
    // 0 depends on 1, 1 depends on 2, 2 has none.
    let deps = vec![vec![1usize], vec![2usize], vec![]];
    let installed = vec![true, true, true];
    let mut ran = vec![false, false, false];
    let mut order = vec![];
    while let Some(i) = next_to_run(&ran, &installed, &deps) {
        ran[i] = true;
        order.push(i);
    }
    assert_eq!(order, vec![2, 1, 0]);
    assert!(all_ran(&ran));
}

#[test]
fn nothing_runs_before_install_or_with_unknown_dependency() {
    let deps = vec![vec![], vec![7usize]];
    assert_eq!(next_to_run(&vec![false, false], &vec![false, true], &deps), None);
    assert_eq!(next_to_run(&vec![false, false], &vec![true, true], &deps), Some(0));
    assert!(!all_ran(&vec![true, false]));
    assert!(all_ran(&vec![]));
}

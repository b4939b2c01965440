use kernel_core::poll::{until};

#[test]
fn a_condition_that_never_clears_gives_up() {
    assert!(!until(100, || false));
}

/// The point of the whole module: bounded means bounded. Without a budget
/// this call would not return, and no test could say so.
#[test]
fn giving_up_takes_the_budget_and_not_a_step_more() {
    let mut looks = 0;
    assert!(!until(10, || {
        looks += 1;
        false
    }));
    // One look per attempt, plus the first one before any waiting.
    assert_eq!(looks, 11);
}

#[test]
fn an_already_ready_condition_costs_one_look() {
    let mut looks = 0;
    assert!(until(1_000_000, || {
        looks += 1;
        true
    }));
    assert_eq!(looks, 1);
}

#[test]
fn a_condition_that_clears_in_time_succeeds() {
    let mut looks = 0;
    assert!(until(10, || {
        looks += 1;
        looks == 5
    }));
    assert_eq!(looks, 5);
}

#[test]
fn a_zero_budget_still_looks_once() {
    let mut looks = 0;
    assert!(!until(0, || {
        looks += 1;
        false
    }));
    assert_eq!(looks, 1);
}

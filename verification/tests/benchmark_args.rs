use simulation_taps_tt::bench_config::{default_scenarios, parse_args, Scenario, USAGE};

fn args(values: &[&str]) -> Vec<String> {
    values.iter().map(|s| s.to_string()).collect()
}

#[test]
fn no_arguments_runs_default_suite_once() {
    let scenarios = parse_args(&[]).expect("valid");
    assert_eq!(scenarios, default_scenarios());
    assert!(scenarios.iter().all(|s| s.repeats == 1));
}

#[test]
fn n_and_n3_run_once() {
    assert_eq!(
        parse_args(&args(&["50", "5"])).expect("valid"),
        vec![Scenario { n: 50, n3: 5, repeats: 1 }]
    );
}

#[test]
fn repeats_is_taken_from_third_argument() {
    assert_eq!(
        parse_args(&args(&["100", "7", "20"])).expect("valid"),
        vec![Scenario { n: 100, n3: 7, repeats: 20 }]
    );
}

#[test]
fn rejects_zero_negative_and_non_numeric_values() {
    assert!(parse_args(&args(&["0", "5", "20"])).is_err());
    assert!(parse_args(&args(&["10", "0"])).is_err());
    assert!(parse_args(&args(&["10", "5", "0"])).is_err());
    assert!(parse_args(&args(&["-3", "5"])).is_err());
    assert!(parse_args(&args(&["ten", "5"])).is_err());
}

#[test]
fn rejects_wrong_argument_count() {
    assert!(parse_args(&args(&["10"])).is_err());
    assert!(parse_args(&args(&["10", "5", "20", "1"])).is_err());
}

#[test]
fn default_suite_crosses_signers_and_tracers() {
    let pairs: Vec<(usize, usize)> = default_scenarios().iter().map(|s| (s.n, s.n3)).collect();
    assert_eq!(
        pairs,
        vec![
            (10, 1),
            (10, 5),
            (25, 1),
            (25, 5),
            (50, 1),
            (50, 5),
            (100, 1),
            (100, 5),
        ]
    );
}

#[test]
fn errors_name_the_argument() {
    assert_eq!(
        parse_args(&args(&["0", "5", "20"])),
        Err("Invalid n: '0' (expected an integer >= 1)".to_string())
    );
    assert_eq!(
        parse_args(&args(&["10", "x"])),
        Err("Invalid n3: 'x' (expected an integer >= 1)".to_string())
    );
    assert_eq!(
        parse_args(&args(&["10", "5", " 3"])),
        Err("Invalid repeats: ' 3' (expected an integer >= 1)".to_string())
    );
    assert_eq!(
        parse_args(&args(&["10"])),
        Err("Expected 0, 2 or 3 arguments, got 1".to_string())
    );
    // The first bad argument is the one that is named.
    assert_eq!(
        parse_args(&args(&["", "", ""])),
        Err("Invalid n: '' (expected an integer >= 1)".to_string())
    );
}

#[test]
fn numbers_may_carry_a_plus_sign_and_leading_zeros() {
    assert_eq!(
        parse_args(&args(&["+10", "007"])).expect("valid"),
        vec![Scenario { n: 10, n3: 7, repeats: 1 }]
    );
    assert!(parse_args(&args(&["+", "5"])).is_err());
    assert!(parse_args(&args(&["++1", "5"])).is_err());
}

#[test]
fn numbers_have_to_fit() {
    let largest = usize::MAX.to_string();
    assert_eq!(
        parse_args(&args(&[&largest, "1"])).expect("valid"),
        vec![Scenario { n: usize::MAX, n3: 1, repeats: 1 }]
    );
    let too_large = format!("{}0", usize::MAX);
    assert!(parse_args(&args(&[&too_large, "1"])).is_err());
    let one_more = (usize::MAX as u128 + 1).to_string();
    assert!(parse_args(&args(&[&one_more, "1"])).is_err());
}

#[test]
fn usage_describes_every_argument() {
    assert_eq!(
        USAGE,
        "Usage: benchmark [<n> <n3> [<repeats>]]\n\
         \n  <n>        number of signers (n_1), at least 1\
         \n  <n3>       number of tracers (n_3), at least 1\
         \n  <repeats>  how many times to run the scenario (default 1)\
         \n\nWith no arguments, runs the default suite once per scenario."
    );
}

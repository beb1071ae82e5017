use simulation_taps_tt::bench_config::Scenario;
use simulation_taps_tt::bench_run::{
    launch_plan, raw_row, summary_row, wait_order, Program, RunLog, Series, SUMMARY_HEADER,
};
use simulation_taps_tt::bench_stats::{
    collect_records, format_bench_line, parse_bench_line, Actor, BenchRecord, OperationSummary,
    Role, Summarizer,
};

fn record(actor: Actor, phase: &str, micros: u128) -> BenchRecord {
    BenchRecord {
        actor,
        phase: phase.to_string(),
        micros,
    }
}

fn mean(row: &OperationSummary) -> f64 {
    row.values.iter().map(|&v| v as f64).sum::<f64>() / row.samples as f64
}

fn std_dev(row: &OperationSummary) -> f64 {
    if row.samples > 1 {
        let mean = mean(row);
        let squares: f64 = row.values.iter().map(|&v| (v as f64 - mean).powi(2)).sum();
        (squares / (row.samples - 1) as f64).sqrt()
    } else {
        0.0
    }
}

#[test]
fn parses_only_well_formed_bench_lines() {
    assert_eq!(parse_bench_line("BENCH,Setup,123"), Some(("Setup".to_string(), 123)));
    assert_eq!(
        parse_bench_line("BENCH,Compute Parameters,42\r"),
        Some(("Compute Parameters".to_string(), 42))
    );
    assert_eq!(parse_bench_line("Aggregation,17"), None);
    assert_eq!(parse_bench_line("[Signer] BENCH,Setup,1"), None);
    assert_eq!(parse_bench_line("BENCH,Setup,abc"), None);
    assert_eq!(parse_bench_line("BENCH,Setup"), None);
}

#[test]
fn collects_records_from_actor_stdout() {
    let stdout = "[Signer #3] starting\nBENCH,Setup,10\nBENCH,Commitment,20\nsome log\nBENCH,Sign,30\n";
    let records = collect_records(Actor::Signer(3), stdout);
    assert_eq!(
        records,
        vec![
            record(Actor::Signer(3), "Setup", 10),
            record(Actor::Signer(3), "Commitment", 20),
            record(Actor::Signer(3), "Sign", 30),
        ]
    );
}

#[test]
fn pools_every_actor_of_a_role_over_every_run() {
    let mut summarizer = Summarizer::new();
    // Two runs of N=2, N3=1: two signers, one combiner, one tracer.
    summarizer.add_run(
        2,
        1,
        &[
            record(Actor::Combiner, "GroupKey", 100),
            record(Actor::Signer(0), "Setup", 10),
            record(Actor::Signer(1), "Setup", 30),
            record(Actor::Tracer(0), "TracerDkg", 5),
        ],
    );
    summarizer.add_run(
        2,
        1,
        &[
            record(Actor::Combiner, "GroupKey", 200),
            record(Actor::Signer(0), "Setup", 20),
            record(Actor::Signer(1), "Setup", 40),
            record(Actor::Tracer(0), "TracerDkg", 15),
        ],
    );

    let rows = summarizer.summaries();
    assert_eq!(rows.len(), 3);
    assert!(rows.iter().all(|r| r.n == 2 && r.n3 == 1 && r.runs == 2));

    // Signer "Setup": 2 signers x 2 runs = 4 samples {10, 30, 20, 40}.
    let setup = rows
        .iter()
        .find(|r| r.role == Role::Signer && r.operation == "Setup")
        .expect("signer setup");
    assert_eq!(setup.samples, 4);
    assert_eq!(mean(setup), 25.0);
    assert_eq!(setup.min, 10);
    assert_eq!(setup.max, 40);
    assert_eq!(setup.values, vec![10, 30, 20, 40]);
    // Sample std dev: sqrt(((15^2 + 5^2 + 5^2 + 15^2)) / 3) = sqrt(500/3).
    assert!((std_dev(setup) - (500.0f64 / 3.0).sqrt()).abs() < 1e-9);

    let group_key = rows
        .iter()
        .find(|r| r.role == Role::Combiner)
        .expect("combiner");
    assert_eq!((group_key.samples, mean(group_key)), (2, 150.0));
    assert_eq!((group_key.min, group_key.max), (100, 200));

    let dkg = rows.iter().find(|r| r.role == Role::Tracer).expect("tracer");
    assert_eq!((dkg.samples, mean(dkg)), (2, 10.0));
}

#[test]
fn single_sample_has_zero_std_dev() {
    let mut summarizer = Summarizer::new();
    summarizer.add_run(1, 1, &[record(Actor::Signer(0), "Setup", 7)]);
    let row = &summarizer.summaries()[0];
    assert_eq!((row.samples, row.runs), (1, 1));
    assert_eq!((mean(row), std_dev(row), row.min, row.max), (7.0, 0.0, 7, 7));
}

#[test]
fn orders_scenarios_then_roles_then_protocol_order() {
    let mut summarizer = Summarizer::new();
    summarizer.add_run(
        10,
        5,
        &[
            record(Actor::Tracer(0), "TracerDkg", 1),
            record(Actor::Combiner, "Setup", 1),
            record(Actor::Signer(1), "Setup", 1),
            record(Actor::Signer(0), "Commitment", 1),
            record(Actor::Signer(0), "Sigma", 1),
        ],
    );
    summarizer.add_run(10, 1, &[record(Actor::Signer(0), "Setup", 7)]);

    let rows: Vec<(usize, usize, Role, String)> = summarizer
        .summaries()
        .into_iter()
        .map(|r| (r.n, r.n3, r.role, r.operation))
        .collect();

    assert_eq!(
        rows,
        vec![
            (10, 1, Role::Signer, "Setup".to_string()),
            (10, 5, Role::Signer, "Setup".to_string()),
            (10, 5, Role::Signer, "Commitment".to_string()),
            (10, 5, Role::Signer, "Sigma".to_string()),
            (10, 5, Role::Combiner, "Setup".to_string()),
            (10, 5, Role::Tracer, "TracerDkg".to_string()),
        ]
    );
}

#[test]
fn white_space_and_signs_in_bench_lines() {
    assert_eq!(
        parse_bench_line("\t BENCH,Setup, +7 \u{3000}"),
        Some(("Setup".to_string(), 7))
    );
    assert_eq!(parse_bench_line("BENCH ,Setup,7"), None);
    assert_eq!(parse_bench_line("BENCH,Setup,7,8"), None);
    assert_eq!(parse_bench_line("BENCH,,7"), Some((String::new(), 7)));
    assert_eq!(parse_bench_line("BENCH,Setup,"), None);
    assert_eq!(parse_bench_line("BENCH,Setup,-7"), None);
    assert_eq!(parse_bench_line("BENCHMARK,Setup,7"), None);
    assert_eq!(parse_bench_line("BENCH"), None);
    assert_eq!(parse_bench_line(""), None);
}

#[test]
fn microseconds_fit_in_128_bits() {
    let line = format!("BENCH,Setup,{}", u128::MAX);
    assert_eq!(parse_bench_line(&line), Some(("Setup".to_string(), u128::MAX)));
    let too_large = format!("BENCH,Setup,{}0", u128::MAX);
    assert_eq!(parse_bench_line(&too_large), None);
}

#[test]
fn bench_lines_read_back_as_written() {
    for micros in [0u128, 9, 10, 987_654_321_012_345_678_901_234_567_890, u128::MAX] {
        let line = format_bench_line("Compute Beta", micros);
        assert_eq!(line, format!("BENCH,Compute Beta,{}", micros));
        assert_eq!(
            parse_bench_line(&line),
            Some(("Compute Beta".to_string(), micros))
        );
    }
}

#[test]
fn lines_end_in_line_feeds_or_both() {
    let records = collect_records(
        Actor::Combiner,
        "BENCH,A,1\r\n\n\r\nBENCH,B,2\nBENCH,\u{e9}t\u{e9},3",
    );
    assert_eq!(
        records,
        vec![
            record(Actor::Combiner, "A", 1),
            record(Actor::Combiner, "B", 2),
            record(Actor::Combiner, "\u{e9}t\u{e9}", 3),
        ]
    );
    assert_eq!(collect_records(Actor::Combiner, ""), vec![]);
    assert_eq!(collect_records(Actor::Combiner, "\n"), vec![]);
}

#[test]
fn roles_ignore_ids() {
    assert_eq!(Role::of(Actor::Signer(7)), Role::Signer);
    assert_eq!(Role::of(Actor::Combiner), Role::Combiner);
    assert_eq!(Role::of(Actor::Tracer(0)), Role::Tracer);
    assert_eq!(Role::Signer.name(), "signer");
    assert_eq!(Role::Combiner.name(), "combiner");
    assert_eq!(Role::Tracer.name(), "tracer");
}

#[test]
fn scenarios_of_other_sizes_are_not_pooled() {
    let mut summarizer = Summarizer::new();
    summarizer.add_run(2, 1, &[record(Actor::Combiner, "Setup", 1)]);
    summarizer.add_run(2, 3, &[record(Actor::Combiner, "Setup", 2)]);
    summarizer.add_run(2, 1, &[]);
    let rows = summarizer.summaries();
    assert_eq!(rows.len(), 2);
    assert_eq!((rows[0].n3, rows[0].runs, rows[0].samples), (1, 2, 1));
    assert_eq!((rows[1].n3, rows[1].runs, rows[1].samples), (3, 1, 1));
    assert!(Summarizer::new().summaries().is_empty());
}

#[test]
fn a_run_leaves_the_rows_of_other_scenarios_alone() {
    let mut summarizer = Summarizer::new();
    summarizer.add_run(
        5,
        2,
        &[
            record(Actor::Tracer(0), "TracerDkg", 4),
            record(Actor::Signer(0), "Setup", 3),
            record(Actor::Signer(0), "Sigma", 2),
        ],
    );
    summarizer.add_run(1, 1, &[record(Actor::Combiner, "Setup", 9)]);
    let before: Vec<OperationSummary> =
        summarizer.summaries().into_iter().filter(|r| r.n != 3).collect();
    summarizer.add_run(
        3,
        1,
        &[
            record(Actor::Signer(0), "Setup", 1),
            record(Actor::Tracer(0), "TracerDkg", 1),
        ],
    );
    let rows = summarizer.summaries();
    assert_eq!(rows.len(), 6);
    let after: Vec<OperationSummary> = rows.into_iter().filter(|r| r.n != 3).collect();
    assert_eq!(before, after);
}

#[test]
fn rows_of_the_raw_files() {
    assert_eq!(
        raw_row(10, 5, 2, &record(Actor::Combiner, "Proofs", 17)),
        "10,5,2,Proofs,17"
    );
    assert_eq!(
        raw_row(10, 5, 2, &record(Actor::Signer(9), "Sigma", 18)),
        "10,5,2,9,Sigma,18"
    );
    assert_eq!(
        raw_row(10, 5, 2, &record(Actor::Tracer(4), "TracerDkg", 19)),
        "10,5,2,4,TracerDkg,19"
    );
}

#[test]
fn rows_of_the_summary() {
    let mut summarizer = Summarizer::new();
    summarizer.add_run(
        2,
        1,
        &[
            record(Actor::Signer(0), "Setup", 10),
            record(Actor::Signer(1), "Setup", 30),
        ],
    );
    let row = &summarizer.summaries()[0];
    assert_eq!(
        summary_row(row, "20.00", "14.14"),
        "2,1,1,signer,Setup,2,20.00,14.14,10,30"
    );
    assert_eq!(SUMMARY_HEADER.split(',').count(), 10);
}

#[test]
fn processes_start_in_order() {
    let plan = launch_plan(3, 2);
    let programs: Vec<(Program, Vec<usize>, u64)> = plan
        .into_iter()
        .map(|l| (l.program, l.args, l.pause_millis))
        .collect();
    assert_eq!(
        programs,
        vec![
            (Program::Authority, vec![3, 2], 2000),
            (Program::Combiner, vec![], 2000),
            (Program::Tracer, vec![0], 50),
            (Program::Tracer, vec![1], 50),
            (Program::Signer, vec![0], 10),
            (Program::Signer, vec![1], 10),
            (Program::Signer, vec![2], 10),
        ]
    );
}

#[test]
fn actors_are_waited_for_in_order() {
    assert_eq!(
        wait_order(2, 2),
        vec![
            Actor::Combiner,
            Actor::Signer(0),
            Actor::Signer(1),
            Actor::Tracer(0),
            Actor::Tracer(1),
        ]
    );
    assert_eq!(wait_order(0, 0), vec![Actor::Combiner]);
}

#[test]
fn one_failure_fails_the_run() {
    let mut log = RunLog::new();
    log.actor_exited(Actor::Combiner, true, "BENCH,Setup,1\n");
    assert!(log.ok);
    log.actor_exited(Actor::Signer(0), false, "BENCH,Setup,2\n");
    log.actor_exited(Actor::Tracer(0), true, "nothing\n");
    assert!(!log.ok);
    assert_eq!(
        log.records,
        vec![
            record(Actor::Combiner, "Setup", 1),
            record(Actor::Signer(0), "Setup", 2),
        ]
    );

    let mut log = RunLog::new();
    assert!(log.authority_exited(None));
    assert!(log.ok);
    assert!(!log.authority_exited(Some(true)));
    assert!(log.ok);
    assert!(!log.authority_exited(Some(false)));
    assert!(!log.ok);
}

#[test]
fn series_runs_every_scenario_as_often_as_asked() {
    let scenarios = vec![
        Scenario { n: 2, n3: 1, repeats: 2 },
        Scenario { n: 3, n3: 1, repeats: 1 },
    ];
    let mut series = Series::new(scenarios.clone()).expect("fits");
    assert_eq!(series.next_run(), Some((scenarios[0], 1)));
    let after = series.finish_run(true, &[record(Actor::Combiner, "Setup", 5)]);
    assert_eq!((after.cool_down, after.scenario_done), (true, None));

    // A failed run does not enter the summary.
    assert_eq!(series.next_run(), Some((scenarios[0], 2)));
    let after = series.finish_run(false, &[record(Actor::Combiner, "Setup", 500)]);
    assert_eq!((after.cool_down, after.scenario_done), (true, Some(1)));
    assert_eq!(series.summarizer.summaries()[0].runs, 1);

    assert_eq!(series.next_run(), Some((scenarios[1], 1)));
    let after = series.finish_run(true, &[record(Actor::Combiner, "Setup", 6)]);
    assert_eq!((after.cool_down, after.scenario_done), (false, Some(1)));

    assert_eq!(series.next_run(), None);
    assert_eq!((series.completed, series.total, series.failures), (3, 3, 1));
    let rows = series.summarizer.summaries();
    let told: Vec<(usize, usize, usize, u128)> =
        rows.iter().map(|r| (r.n, r.runs, r.samples, r.max)).collect();
    assert_eq!(told, vec![(2, 1, 1, 5), (3, 1, 1, 6)]);
}

#[test]
fn series_that_cannot_be_counted_is_refused() {
    let scenarios = vec![
        Scenario { n: 1, n3: 1, repeats: usize::MAX },
        Scenario { n: 2, n3: 1, repeats: 1 },
    ];
    assert!(Series::new(scenarios).is_none());
}

//! How the benchmark suite runs: which processes a scenario starts, what
//! their output comes to, and what is written down.
use vstd::prelude::*;
use vstd::string::StringExecFns;

use crate::bench_config::Scenario;
use crate::bench_stats::{
    collect_records, group_views, record_views, records_in, with_run, Actor, BenchRecord,
    OperationSummary, Role, Summarizer,
};
use crate::text::{
    decimal, decimal_round_trip, decimal_text, decimal_value, decimals_are_digits, fields,
    fields_begin_at_commas, free_of, lines, usize_text,
};

verus! {

/// Raw per-run timings of the signers, one row per `BENCH` line.
pub const RAW_SIGNERS: &'static str = "benchmark_results_signers.csv";

/// Raw per-run timings of the combiner.
pub const RAW_COMBINER: &'static str = "benchmark_results_combiner.csv";

/// Raw per-run timings of the tracers.
pub const RAW_TRACER: &'static str = "benchmark_results_tracer.csv";

/// Per-operation statistics over every actor of a role and every successful
/// run of each scenario.
pub const SUMMARY: &'static str = "benchmark_results_summary.csv";

/// Columns of the signers' raw timings.
pub const RAW_SIGNERS_HEADER: &'static str = "N,N3,Run,Signer_ID,Phase,Time_Microseconds";

/// Columns of the combiner's raw timings.
pub const RAW_COMBINER_HEADER: &'static str = "N,N3,Run,Phase,Time_Microseconds";

/// Columns of the tracers' raw timings.
pub const RAW_TRACER_HEADER: &'static str = "N,N3,Run,Tracer_ID,Phase,Time_Microseconds";

/// Columns of the summary.
pub const SUMMARY_HEADER: &'static str = "N,N3,Runs,Role,Operation,Samples,Mean_Microseconds,Std_Dev_Microseconds,Min_Microseconds,Max_Microseconds";

/// One row of the raw timings; signers and tracers are told apart by their id.
pub open spec fn raw_text(
    n: usize,
    n3: usize,
    run: usize,
    record: (Actor, Seq<char>, u128),
) -> Seq<char> {
    let id = match record.0 {
        Actor::Combiner => Seq::empty(),
        Actor::Signer(i) => decimal(i as nat) + ","@,
        Actor::Tracer(k) => decimal(k as nat) + ","@,
    };
    decimal(n as nat) + ","@ + decimal(n3 as nat) + ","@ + decimal(run as nat) + ","@ + id
        + record.1 + ","@ + decimal(record.2 as nat)
}

/// One row of the raw timings.
pub fn raw_row(n: usize, n3: usize, run: usize, record: &BenchRecord) -> (row: String)
    ensures
        row@ == raw_text(n, n3, run, record@),
{
    let mut row: String = usize_text(n);
    row.append(",");
    row.append(usize_text(n3).as_str());
    row.append(",");
    row.append(usize_text(run).as_str());
    row.append(",");
    let ghost head = row@;
    match record.actor {
        Actor::Combiner => {
            proof {
                assert(head + Seq::<char>::empty() =~= head);
            }
        },
        Actor::Signer(i) => {
            row.append(usize_text(i).as_str());
            row.append(",");
            proof {
                assert(row@ =~= head + (decimal(i as nat) + ","@));
            }
        },
        Actor::Tracer(k) => {
            row.append(usize_text(k).as_str());
            row.append(",");
            proof {
                assert(row@ =~= head + (decimal(k as nat) + ","@));
            }
        },
    }
    row.append(record.phase.as_str());
    row.append(",");
    row.append(decimal_text(record.micros).as_str());
    row
}

/// One row of the summary, given the averages as text.
pub open spec fn summary_text(
    row: OperationSummary,
    mean: Seq<char>,
    std_dev: Seq<char>,
) -> Seq<char> {
    decimal(row.n as nat) + ","@ + decimal(row.n3 as nat) + ","@ + decimal(row.runs as nat) + ","@
        + row.role.spec_name() + ","@ + row.operation@ + ","@ + decimal(row.samples as nat) + ","@
        + mean + ","@ + std_dev + ","@ + decimal(row.min as nat) + ","@ + decimal(row.max as nat)
}

/// One row of the summary, given the averages as text.
pub fn summary_row(row: &OperationSummary, mean: &str, std_dev: &str) -> (text: String)
    ensures
        text@ == summary_text(*row, mean@, std_dev@),
{
    let mut text: String = usize_text(row.n);
    text.append(",");
    text.append(usize_text(row.n3).as_str());
    text.append(",");
    text.append(usize_text(row.runs).as_str());
    text.append(",");
    text.append(row.role.name());
    text.append(",");
    text.append(row.operation.as_str());
    text.append(",");
    text.append(usize_text(row.samples).as_str());
    text.append(",");
    text.append(mean);
    text.append(",");
    text.append(std_dev);
    text.append(",");
    text.append(decimal_text(row.min).as_str());
    text.append(",");
    text.append(decimal_text(row.max).as_str());
    text
}

/// The programs that a scenario runs.
#[derive(Debug, Clone, Copy, PartialEq, Eq, Structural)]
pub enum Program {
    Authority,
    Combiner,
    Tracer,
    Signer,
}

/// A process to start, its numeric arguments, and how long to wait before the
/// next one.
#[derive(Debug, Clone, PartialEq, Eq)]
pub struct Launch {
    pub program: Program,
    pub args: Vec<usize>,
    pub pause_millis: u64,
}

impl View for Launch {
    type V = (Program, Seq<usize>, u64);

    open spec fn view(&self) -> (Program, Seq<usize>, u64) {
        (self.program, self.args@, self.pause_millis)
    }
}

/// The process that a scenario starts at position `i`: the Authority and the
/// combiner with time to come up, then the tracers and the signers slightly
/// staggered.
pub open spec fn launch_at(n: usize, n3: usize, i: int) -> (Program, Seq<usize>, u64) {
    if i == 0 {
        (Program::Authority, seq![n, n3], 2000)
    } else if i == 1 {
        (Program::Combiner, Seq::empty(), 2000)
    } else if i < 2 + n3 {
        (Program::Tracer, seq![(i - 2) as usize], 50)
    } else {
        (Program::Signer, seq![(i - 2 - n3) as usize], 10)
    }
}

/// The processes that a scenario starts, in order.
pub fn launch_plan(n: usize, n3: usize) -> (plan: Vec<Launch>)
    requires
        n + n3 + 2 <= usize::MAX,
    ensures
        plan@.len() == 2 + n3 + n,
        forall|i: int| 0 <= i < plan@.len() ==> (#[trigger] plan@[i])@ == launch_at(n, n3, i),
{
    let mut plan: Vec<Launch> = Vec::new();
    let mut args: Vec<usize> = Vec::new();
    args.push(n);
    args.push(n3);
    proof {
        assert(args@ =~= seq![n, n3]);
    }
    plan.push(Launch { program: Program::Authority, args, pause_millis: 2000 });
    plan.push(Launch { program: Program::Combiner, args: Vec::new(), pause_millis: 2000 });
    let mut k: usize = 0;
    while k < n3
        invariant
            n + n3 + 2 <= usize::MAX,
            k <= n3,
            plan@.len() == 2 + k,
            forall|i: int| 0 <= i < plan@.len() ==> (#[trigger] plan@[i])@ == launch_at(n, n3, i),
        decreases n3 - k,
    {
        let mut args: Vec<usize> = Vec::new();
        args.push(k);
        proof {
            assert(args@ =~= seq![k]);
        }
        plan.push(Launch { program: Program::Tracer, args, pause_millis: 50 });
        k = k + 1;
    }
    let mut j: usize = 0;
    while j < n
        invariant
            n + n3 + 2 <= usize::MAX,
            j <= n,
            plan@.len() == 2 + n3 + j,
            forall|i: int| 0 <= i < plan@.len() ==> (#[trigger] plan@[i])@ == launch_at(n, n3, i),
        decreases n - j,
    {
        let mut args: Vec<usize> = Vec::new();
        args.push(j);
        proof {
            assert(args@ =~= seq![j]);
        }
        plan.push(Launch { program: Program::Signer, args, pause_millis: 10 });
        j = j + 1;
    }
    plan
}

/// The actor that is waited for at position `i`: the combiner, then the
/// signers, then the tracers.
pub open spec fn waited_at(n: usize, i: int) -> Actor {
    if i == 0 {
        Actor::Combiner
    } else if i <= n {
        Actor::Signer((i - 1) as usize)
    } else {
        Actor::Tracer((i - 1 - n) as usize)
    }
}

/// The order in which the actors of a scenario are waited for, and so the
/// order of their records.
pub fn wait_order(n: usize, n3: usize) -> (order: Vec<Actor>)
    requires
        n + n3 + 1 <= usize::MAX,
    ensures
        order@.len() == 1 + n + n3,
        forall|i: int| 0 <= i < order@.len() ==> (#[trigger] order@[i]) == waited_at(n, i),
{
    let mut order: Vec<Actor> = Vec::new();
    order.push(Actor::Combiner);
    let mut i: usize = 0;
    while i < n
        invariant
            n + n3 + 1 <= usize::MAX,
            i <= n,
            order@.len() == 1 + i,
            forall|j: int| 0 <= j < order@.len() ==> (#[trigger] order@[j]) == waited_at(n, j),
        decreases n - i,
    {
        order.push(Actor::Signer(i));
        i = i + 1;
    }
    let mut k: usize = 0;
    while k < n3
        invariant
            n + n3 + 1 <= usize::MAX,
            k <= n3,
            order@.len() == 1 + n + k,
            forall|j: int| 0 <= j < order@.len() ==> (#[trigger] order@[j]) == waited_at(n, j),
        decreases n3 - k,
    {
        order.push(Actor::Tracer(k));
        k = k + 1;
    }
    order
}

/// What is known of a run so far.
#[derive(Debug, Clone, PartialEq, Eq)]
pub struct RunLog {
    /// Whether every actor that has exited did so successfully.
    pub ok: bool,
    /// Every `BENCH` record printed.
    pub records: Vec<BenchRecord>,
}

impl RunLog {
    /// Nobody has exited yet.
    pub fn new() -> (log: Self)
        ensures
            log.ok,
            log.records@.len() == 0,
    {
        RunLog { ok: true, records: Vec::new() }
    }

    /// An actor has exited, having printed `stdout`. Its records count whether
    /// or not it succeeded.
    pub fn actor_exited(&mut self, actor: Actor, success: bool, stdout: &str)
        ensures
            final(self).ok == (old(self).ok && success),
            record_views(final(self).records@) == record_views(old(self).records@) + records_in(
                actor,
                lines(stdout@),
            ),
    {
        let mut records: Vec<BenchRecord> = collect_records(actor, stdout);
        let ghost added = records@;
        self.ok = self.ok && success;
        self.records.append(&mut records);
        proof {
            assert(record_views(self.records@) =~= record_views(old(self).records@) + record_views(
                added,
            ));
        }
    }

    /// Takes note of the Authority, which exits on its own once setup is done:
    /// `Some` tells whether it succeeded, `None` that it is still alive.
    /// Returns whether it has to be killed, so that a stray process cannot
    /// hold its port.
    pub fn authority_exited(&mut self, success: Option<bool>) -> (kill: bool)
        ensures
            kill == (success is None),
            final(self).ok == (old(self).ok && success != Some(false)),
            final(self).records == old(self).records,
    {
        match success {
            Some(ok) => {
                self.ok = self.ok && ok;
                false
            },
            None => true,
        }
    }
}

/// The number of runs that these scenarios ask for.
pub open spec fn total_runs(scenarios: Seq<Scenario>) -> nat
    decreases scenarios.len(),
{
    if scenarios.len() == 0 {
        0
    } else {
        total_runs(scenarios.drop_last()) + scenarios.last().repeats as nat
    }
}

proof fn lemma_total_grows(scenarios: Seq<Scenario>, i: int)
    requires
        0 <= i < scenarios.len(),
    ensures
        total_runs(scenarios.take(i)) + scenarios[i].repeats == total_runs(scenarios.take(i + 1)),
        total_runs(scenarios.take(i + 1)) <= total_runs(scenarios),
    decreases scenarios.len() - i,
{
    assert(scenarios.take(i + 1).drop_last() =~= scenarios.take(i));
    if i + 1 < scenarios.len() {
        lemma_total_grows(scenarios, i + 1);
    } else {
        assert(scenarios.take(i + 1) =~= scenarios);
    }
}

/// What follows a run.
#[derive(Debug, Clone, Copy, PartialEq, Eq, Structural)]
pub struct AfterRun {
    /// Whether to let the system reclaim the ports before the next run.
    pub cool_down: bool,
    /// How many runs of the scenario succeeded, if this was its last one.
    pub scenario_done: Option<usize>,
}

/// A series of scenarios, each run several times, and how far it has come.
pub struct Series {
    pub scenarios: Vec<Scenario>,
    pub total: usize,
    /// The scenario that is being run.
    pub at: usize,
    /// Completed runs of that scenario.
    pub done: usize,
    /// Failed runs of that scenario.
    pub scenario_failures: usize,
    /// Completed runs of all scenarios.
    pub completed: usize,
    /// Failed runs of the scenarios before that one.
    pub failures: usize,
    pub summarizer: Summarizer,
}

impl Series {
    /// The counts fit each other, and no more runs were summarized than
    /// completed.
    pub open spec fn wf(&self) -> bool {
        &&& self.total == total_runs(self.scenarios@)
        &&& forall|i: int|
            0 <= i < self.scenarios@.len() ==> (#[trigger] self.scenarios@[i]).repeats >= 1
        &&& self.at <= self.scenarios@.len()
        &&& if self.at < self.scenarios@.len() {
            self.done < self.scenarios@[self.at as int].repeats
        } else {
            self.done == 0
        }
        &&& self.completed == total_runs(self.scenarios@.take(self.at as int)) + self.done
        &&& self.scenario_failures <= self.done
        &&& self.failures + self.done <= self.completed
        &&& self.summarizer.wf()
        &&& forall|n: usize, n3: usize| #[trigger]
            self.summarizer.runs_of(n, n3) <= self.completed
    }

    /// A series that has yet to start.
    pub fn new(scenarios: Vec<Scenario>) -> (res: Option<Self>)
        requires
            forall|i: int|
                0 <= i < scenarios@.len() ==> (#[trigger] scenarios@[i]).repeats >= 1,
        ensures
            match res {
                Some(series) => {
                    &&& series.wf()
                    &&& series.scenarios@ == scenarios@
                    &&& series.at == 0
                    &&& series.done == 0
                    &&& series.scenario_failures == 0
                    &&& series.completed == 0
                    &&& series.failures == 0
                    &&& group_views(series.summarizer.groups@).len() == 0
                },
                None => total_runs(scenarios@) > usize::MAX,
            },
    {
        let mut total: usize = 0;
        let mut i: usize = 0;
        proof {
            assert(scenarios@.take(0) =~= Seq::<Scenario>::empty());
        }
        while i < scenarios.len()
            invariant
                i <= scenarios@.len(),
                total == total_runs(scenarios@.take(i as int)),
            decreases scenarios@.len() - i,
        {
            proof {
                lemma_total_grows(scenarios@, i as int);
            }
            let repeats: usize = scenarios[i].repeats;
            if total > usize::MAX - repeats {
                return None;
            }
            total = total + repeats;
            i = i + 1;
        }
        proof {
            assert(scenarios@.take(scenarios@.len() as int) =~= scenarios@);
        }
        Some(
            Series {
                scenarios,
                total,
                at: 0,
                done: 0,
                scenario_failures: 0,
                completed: 0,
                failures: 0,
                summarizer: Summarizer::new(),
            },
        )
    }

    /// The next run: its scenario, and its number among the scenario's runs,
    /// starting from one.
    pub open spec fn upcoming(&self) -> Option<(Scenario, usize)> {
        if self.at < self.scenarios@.len() {
            Some((self.scenarios@[self.at as int], (self.done + 1) as usize))
        } else {
            None
        }
    }

    /// The next run, if the series has not ended.
    pub fn next_run(&self) -> (next: Option<(Scenario, usize)>)
        requires
            self.wf(),
        ensures
            next == self.upcoming(),
            next is None ==> self.completed == self.total,
    {
        if self.at < self.scenarios.len() {
            Some((self.scenarios[self.at], self.done + 1))
        } else {
            proof {
                assert(self.scenarios@.take(self.at as int) =~= self.scenarios@);
            }
            None
        }
    }

    /// Takes note of a run. Only a successful one enters the summary: a run
    /// that died partway would skew it or leave gaps in it.
    pub fn finish_run(&mut self, ok: bool, records: &[BenchRecord]) -> (after: AfterRun)
        requires
            old(self).wf(),
            old(self).upcoming() is Some,
        ensures
            final(self).wf(),
            final(self).scenarios@ == old(self).scenarios@,
            final(self).total == old(self).total,
            final(self).completed == old(self).completed + 1,
            ({
                let scenario = old(self).scenarios@[old(self).at as int];
                let failed: int = old(self).scenario_failures + if ok {
                    0int
                } else {
                    1int
                };
                &&& group_views(final(self).summarizer.groups@) == if ok {
                    with_run(
                        group_views(old(self).summarizer.groups@),
                        scenario.n,
                        scenario.n3,
                        record_views(records@),
                    )
                } else {
                    group_views(old(self).summarizer.groups@)
                }
                &&& forall|n: usize, n3: usize| #[trigger]
                    final(self).summarizer.runs_of(n, n3) == old(self).summarizer.runs_of(n, n3)
                        + if ok && n == scenario.n && n3 == scenario.n3 {
                        1nat
                    } else {
                        0nat
                    }
                &&& if old(self).done + 1 == scenario.repeats {
                    &&& final(self).at == old(self).at + 1
                    &&& final(self).done == 0
                    &&& final(self).scenario_failures == 0
                    &&& final(self).failures == old(self).failures + failed
                    &&& after.scenario_done == Some((scenario.repeats - failed) as usize)
                } else {
                    &&& final(self).at == old(self).at
                    &&& final(self).done == old(self).done + 1
                    &&& final(self).scenario_failures == failed
                    &&& final(self).failures == old(self).failures
                    &&& after.scenario_done is None
                }
            }),
            after.cool_down == (final(self).completed < final(self).total),
    {
        let scenario: Scenario = self.scenarios[self.at];
        proof {
            assert(self.scenarios@.len() == self.scenarios.len());
            lemma_total_grows(self.scenarios@, self.at as int);
        }
        self.completed = self.completed + 1;
        if ok {
            proof {
                assert(self.summarizer.runs_of(scenario.n, scenario.n3) < usize::MAX);
            }
            self.summarizer.add_run(scenario.n, scenario.n3, records);
            proof {
                assert forall|n: usize, n3: usize| #[trigger]
                    self.summarizer.runs_of(n, n3) <= self.completed by {
                    assert(old(self).summarizer.runs_of(n, n3) <= old(self).completed);
                }
            }
        } else {
            self.scenario_failures = self.scenario_failures + 1;
            proof {
                assert forall|n: usize, n3: usize| #[trigger]
                    self.summarizer.runs_of(n, n3) <= self.completed by {
                    assert(old(self).summarizer.runs_of(n, n3) <= old(self).completed);
                }
            }
        }
        self.done = self.done + 1;
        let mut scenario_done: Option<usize> = None;
        if self.done == scenario.repeats {
            scenario_done = Some(scenario.repeats - self.scenario_failures);
            self.failures = self.failures + self.scenario_failures;
            self.at = self.at + 1;
            self.done = 0;
            self.scenario_failures = 0;
        }
        AfterRun { cool_down: self.completed < self.total, scenario_done }
    }
}

/// As long as a run is left, its number lies between one and the scenario's
/// repeats, and not all runs have been completed; once none is left, every
/// scenario has been run as often as it asks for.
pub proof fn runs_are_numbered(series: Series)
    requires
        series.wf(),
    ensures
        match series.upcoming() {
            Some((scenario, run)) => 1 <= run <= scenario.repeats && series.completed
                < series.total,
            None => series.completed == series.total,
        },
{
    if series.at < series.scenarios@.len() {
        lemma_total_grows(series.scenarios@, series.at as int);
    } else {
        assert(series.scenarios@.take(series.at as int) =~= series.scenarios@);
    }
}

/// Under each column of the summary's header stands that column's value:
/// split at its commas, a row has one field per column, and every number reads
/// back as itself.
pub proof fn summary_rows_read_back(row: OperationSummary, mean: Seq<char>, std_dev: Seq<char>)
    requires
        free_of(row.operation@, ','),
        free_of(mean, ','),
        free_of(std_dev, ','),
    ensures
        ({
            let f = fields(summary_text(row, mean, std_dev));
            &&& f.len() == 10
            &&& decimal_value(f[0]) == Some(row.n as nat)
            &&& decimal_value(f[1]) == Some(row.n3 as nat)
            &&& decimal_value(f[2]) == Some(row.runs as nat)
            &&& f[3] == (match row.role {
                Role::Signer => "signer"@,
                Role::Combiner => "combiner"@,
                Role::Tracer => "tracer"@,
            })
            &&& f[4] == row.operation@
            &&& decimal_value(f[5]) == Some(row.samples as nat)
            &&& f[6] == mean
            &&& f[7] == std_dev
            &&& decimal_value(f[8]) == Some(row.min as nat)
            &&& decimal_value(f[9]) == Some(row.max as nat)
        }),
        fields(SUMMARY_HEADER@) == seq![
            "N"@,
            "N3"@,
            "Runs"@,
            "Role"@,
            "Operation"@,
            "Samples"@,
            "Mean_Microseconds"@,
            "Std_Dev_Microseconds"@,
            "Min_Microseconds"@,
            "Max_Microseconds"@,
        ],
{
    reveal_strlit("signer");
    reveal_strlit("combiner");
    reveal_strlit("tracer");
    let f0 = decimal(row.n as nat);
    let f1 = decimal(row.n3 as nat);
    let f2 = decimal(row.runs as nat);
    let f3 = row.role.spec_name();
    let f4 = row.operation@;
    let f5 = decimal(row.samples as nat);
    let f8 = decimal(row.min as nat);
    let f9 = decimal(row.max as nat);
    decimals_are_digits(row.n as nat);
    decimals_are_digits(row.n3 as nat);
    decimals_are_digits(row.runs as nat);
    decimals_are_digits(row.samples as nat);
    decimals_are_digits(row.min as nat);
    decimals_are_digits(row.max as nat);
    decimal_round_trip(row.n as nat);
    decimal_round_trip(row.n3 as nat);
    decimal_round_trip(row.runs as nat);
    decimal_round_trip(row.samples as nat);
    decimal_round_trip(row.min as nat);
    decimal_round_trip(row.max as nat);
    fields_begin_at_commas(Seq::empty(), f0);
    let t1 = f0 + ","@ + f1;
    fields_begin_at_commas(f0, f1);
    let t2 = t1 + ","@ + f2;
    fields_begin_at_commas(t1, f2);
    let t3 = t2 + ","@ + f3;
    fields_begin_at_commas(t2, f3);
    let t4 = t3 + ","@ + f4;
    fields_begin_at_commas(t3, f4);
    let t5 = t4 + ","@ + f5;
    fields_begin_at_commas(t4, f5);
    let t6 = t5 + ","@ + mean;
    fields_begin_at_commas(t5, mean);
    let t7 = t6 + ","@ + std_dev;
    fields_begin_at_commas(t6, std_dev);
    let t8 = t7 + ","@ + f8;
    fields_begin_at_commas(t7, f8);
    let t9 = t8 + ","@ + f9;
    fields_begin_at_commas(t8, f9);
    assert(summary_text(row, mean, std_dev) == t9);
    lemma_summary_header();
}

proof fn lemma_summary_header()
    ensures
        fields(SUMMARY_HEADER@) == seq![
            "N"@,
            "N3"@,
            "Runs"@,
            "Role"@,
            "Operation"@,
            "Samples"@,
            "Mean_Microseconds"@,
            "Std_Dev_Microseconds"@,
            "Min_Microseconds"@,
            "Max_Microseconds"@,
        ],
{
    reveal_strlit(
        "N,N3,Runs,Role,Operation,Samples,Mean_Microseconds,Std_Dev_Microseconds,Min_Microseconds,Max_Microseconds",
    );
    reveal_strlit(",");
    reveal_strlit("N");
    reveal_strlit("N3");
    reveal_strlit("Runs");
    reveal_strlit("Role");
    reveal_strlit("Operation");
    reveal_strlit("Samples");
    reveal_strlit("Mean_Microseconds");
    reveal_strlit("Std_Dev_Microseconds");
    reveal_strlit("Min_Microseconds");
    reveal_strlit("Max_Microseconds");
    let t1 = "N"@ + ","@ + "N3"@;
    let t2 = t1 + ","@ + "Runs"@;
    let t3 = t2 + ","@ + "Role"@;
    let t4 = t3 + ","@ + "Operation"@;
    let t5 = t4 + ","@ + "Samples"@;
    let t6 = t5 + ","@ + "Mean_Microseconds"@;
    let t7 = t6 + ","@ + "Std_Dev_Microseconds"@;
    let t8 = t7 + ","@ + "Min_Microseconds"@;
    let t9 = t8 + ","@ + "Max_Microseconds"@;
    fields_begin_at_commas(Seq::empty(), "N"@);
    fields_begin_at_commas("N"@, "N3"@);
    fields_begin_at_commas(t1, "Runs"@);
    fields_begin_at_commas(t2, "Role"@);
    fields_begin_at_commas(t3, "Operation"@);
    fields_begin_at_commas(t4, "Samples"@);
    fields_begin_at_commas(t5, "Mean_Microseconds"@);
    fields_begin_at_commas(t6, "Std_Dev_Microseconds"@);
    fields_begin_at_commas(t7, "Min_Microseconds"@);
    fields_begin_at_commas(t8, "Max_Microseconds"@);
    assert(SUMMARY_HEADER@ =~= t9);
    assert(fields(t9) =~= seq![
        "N"@,
        "N3"@,
        "Runs"@,
        "Role"@,
        "Operation"@,
        "Samples"@,
        "Mean_Microseconds"@,
        "Std_Dev_Microseconds"@,
        "Min_Microseconds"@,
        "Max_Microseconds"@,
    ]);
}

/// Under each column of the combiner's raw file stands that column's value.
pub proof fn combiner_rows_read_back(
    n: usize,
    n3: usize,
    run: usize,
    phase: Seq<char>,
    micros: u128,
)
    requires
        free_of(phase, ','),
    ensures
        ({
            let f = fields(raw_text(n, n3, run, (Actor::Combiner, phase, micros)));
            &&& f.len() == 5
            &&& decimal_value(f[0]) == Some(n as nat)
            &&& decimal_value(f[1]) == Some(n3 as nat)
            &&& decimal_value(f[2]) == Some(run as nat)
            &&& f[3] == phase
            &&& decimal_value(f[4]) == Some(micros as nat)
        }),
        fields(RAW_COMBINER_HEADER@) == seq![
            "N"@,
            "N3"@,
            "Run"@,
            "Phase"@,
            "Time_Microseconds"@,
        ],
{
    let f0 = decimal(n as nat);
    let f1 = decimal(n3 as nat);
    let f2 = decimal(run as nat);
    let f4 = decimal(micros as nat);
    decimals_are_digits(n as nat);
    decimals_are_digits(n3 as nat);
    decimals_are_digits(run as nat);
    decimals_are_digits(micros as nat);
    decimal_round_trip(n as nat);
    decimal_round_trip(n3 as nat);
    decimal_round_trip(run as nat);
    decimal_round_trip(micros as nat);
    let t1 = f0 + ","@ + f1;
    let t2 = t1 + ","@ + f2;
    let t3 = t2 + ","@ + phase;
    let t4 = t3 + ","@ + f4;
    fields_begin_at_commas(Seq::empty(), f0);
    fields_begin_at_commas(f0, f1);
    fields_begin_at_commas(t1, f2);
    fields_begin_at_commas(t2, phase);
    fields_begin_at_commas(t3, f4);
    assert(raw_text(n, n3, run, (Actor::Combiner, phase, micros)) =~= t4);

    reveal_strlit("N,N3,Run,Phase,Time_Microseconds");
    reveal_strlit(",");
    reveal_strlit("N");
    reveal_strlit("N3");
    reveal_strlit("Run");
    reveal_strlit("Phase");
    reveal_strlit("Time_Microseconds");
    let h1 = "N"@ + ","@ + "N3"@;
    let h2 = h1 + ","@ + "Run"@;
    let h3 = h2 + ","@ + "Phase"@;
    let h4 = h3 + ","@ + "Time_Microseconds"@;
    fields_begin_at_commas(Seq::empty(), "N"@);
    fields_begin_at_commas("N"@, "N3"@);
    fields_begin_at_commas(h1, "Run"@);
    fields_begin_at_commas(h2, "Phase"@);
    fields_begin_at_commas(h3, "Time_Microseconds"@);
    assert(RAW_COMBINER_HEADER@ =~= h4);
    assert(fields(h4) =~= seq!["N"@, "N3"@, "Run"@, "Phase"@, "Time_Microseconds"@]);
}

/// Under each column of the signers' and tracers' raw files stands that
/// column's value, the actor's id among them.
pub proof fn signer_and_tracer_rows_read_back(
    n: usize,
    n3: usize,
    run: usize,
    actor: Actor,
    phase: Seq<char>,
    micros: u128,
)
    requires
        actor is Signer || actor is Tracer,
        free_of(phase, ','),
    ensures
        ({
            let f = fields(raw_text(n, n3, run, (actor, phase, micros)));
            &&& f.len() == 6
            &&& decimal_value(f[0]) == Some(n as nat)
            &&& decimal_value(f[1]) == Some(n3 as nat)
            &&& decimal_value(f[2]) == Some(run as nat)
            &&& actor == Actor::Signer(decimal_value(f[3])->0 as usize) || actor == Actor::Tracer(
                decimal_value(f[3])->0 as usize,
            )
            &&& decimal_value(f[3]) is Some
            &&& f[4] == phase
            &&& decimal_value(f[5]) == Some(micros as nat)
        }),
        fields(RAW_SIGNERS_HEADER@) == seq![
            "N"@,
            "N3"@,
            "Run"@,
            "Signer_ID"@,
            "Phase"@,
            "Time_Microseconds"@,
        ],
        fields(RAW_TRACER_HEADER@) == seq![
            "N"@,
            "N3"@,
            "Run"@,
            "Tracer_ID"@,
            "Phase"@,
            "Time_Microseconds"@,
        ],
{
    let id: nat = match actor {
        Actor::Signer(i) => i as nat,
        Actor::Tracer(k) => k as nat,
        Actor::Combiner => 0,
    };
    let f0 = decimal(n as nat);
    let f1 = decimal(n3 as nat);
    let f2 = decimal(run as nat);
    let f3 = decimal(id);
    let f5 = decimal(micros as nat);
    decimals_are_digits(n as nat);
    decimals_are_digits(n3 as nat);
    decimals_are_digits(run as nat);
    decimals_are_digits(id);
    decimals_are_digits(micros as nat);
    decimal_round_trip(n as nat);
    decimal_round_trip(n3 as nat);
    decimal_round_trip(run as nat);
    decimal_round_trip(id);
    decimal_round_trip(micros as nat);
    let t1 = f0 + ","@ + f1;
    let t2 = t1 + ","@ + f2;
    let t3 = t2 + ","@ + f3;
    let t4 = t3 + ","@ + phase;
    let t5 = t4 + ","@ + f5;
    fields_begin_at_commas(Seq::empty(), f0);
    fields_begin_at_commas(f0, f1);
    fields_begin_at_commas(t1, f2);
    fields_begin_at_commas(t2, f3);
    fields_begin_at_commas(t3, phase);
    fields_begin_at_commas(t4, f5);
    assert(raw_text(n, n3, run, (actor, phase, micros)) =~= t5);
    lemma_raw_headers();
}

proof fn lemma_raw_headers()
    ensures
        fields(RAW_SIGNERS_HEADER@) == seq![
            "N"@,
            "N3"@,
            "Run"@,
            "Signer_ID"@,
            "Phase"@,
            "Time_Microseconds"@,
        ],
        fields(RAW_TRACER_HEADER@) == seq![
            "N"@,
            "N3"@,
            "Run"@,
            "Tracer_ID"@,
            "Phase"@,
            "Time_Microseconds"@,
        ],
{
    reveal_strlit("N,N3,Run,Signer_ID,Phase,Time_Microseconds");
    reveal_strlit("N,N3,Run,Tracer_ID,Phase,Time_Microseconds");
    reveal_strlit(",");
    reveal_strlit("N");
    reveal_strlit("N3");
    reveal_strlit("Run");
    reveal_strlit("Signer_ID");
    reveal_strlit("Tracer_ID");
    reveal_strlit("Phase");
    reveal_strlit("Time_Microseconds");
    let h1 = "N"@ + ","@ + "N3"@;
    let h2 = h1 + ","@ + "Run"@;
    let s3 = h2 + ","@ + "Signer_ID"@;
    let s4 = s3 + ","@ + "Phase"@;
    let s5 = s4 + ","@ + "Time_Microseconds"@;
    let k3 = h2 + ","@ + "Tracer_ID"@;
    let k4 = k3 + ","@ + "Phase"@;
    let k5 = k4 + ","@ + "Time_Microseconds"@;
    fields_begin_at_commas(Seq::empty(), "N"@);
    fields_begin_at_commas("N"@, "N3"@);
    fields_begin_at_commas(h1, "Run"@);
    fields_begin_at_commas(h2, "Signer_ID"@);
    fields_begin_at_commas(s3, "Phase"@);
    fields_begin_at_commas(s4, "Time_Microseconds"@);
    fields_begin_at_commas(h2, "Tracer_ID"@);
    fields_begin_at_commas(k3, "Phase"@);
    fields_begin_at_commas(k4, "Time_Microseconds"@);
    assert(RAW_SIGNERS_HEADER@ =~= s5);
    assert(RAW_TRACER_HEADER@ =~= k5);
    assert(fields(s5) =~= seq!["N"@, "N3"@, "Run"@, "Signer_ID"@, "Phase"@, "Time_Microseconds"@]);
    assert(fields(k5) =~= seq!["N"@, "N3"@, "Run"@, "Tracer_ID"@, "Phase"@, "Time_Microseconds"@]);
}

/// A scenario starts the Authority with both numbers first, then the combiner,
/// both with two seconds to come up; then every tracer and every signer, each
/// once and told its own id.
pub proof fn every_process_is_started_once(n: usize, n3: usize, plan: Seq<Launch>)
    requires
        plan.len() == 2 + n3 + n,
        forall|i: int| 0 <= i < plan.len() ==> (#[trigger] plan[i])@ == launch_at(n, n3, i),
    ensures
        plan[0].program == Program::Authority,
        plan[0].args@ == seq![n, n3],
        plan[0].pause_millis == 2000,
        plan[1].program == Program::Combiner,
        plan[1].args@.len() == 0,
        plan[1].pause_millis == 2000,
        forall|k: usize|
            k < n3 ==> (#[trigger] plan[2 + k]).program == Program::Tracer && plan[2 + k].args@
                == seq![k] && plan[2 + k].pause_millis == 50,
        forall|i: usize|
            i < n ==> (#[trigger] plan[2 + n3 + i]).program == Program::Signer && plan[2 + n3
                + i].args@ == seq![i] && plan[2 + n3 + i].pause_millis == 10,
{
    assert(plan[0]@ == launch_at(n, n3, 0));
    assert(plan[1]@ == launch_at(n, n3, 1));
    assert forall|k: usize| k < n3 implies (#[trigger] plan[2 + k]).program == Program::Tracer
        && plan[2 + k].args@ == seq![k] && plan[2 + k].pause_millis == 50 by {
        assert(plan[2 + k]@ == launch_at(n, n3, 2 + k));
    }
    assert forall|i: usize| i < n implies (#[trigger] plan[2 + n3 + i]).program == Program::Signer
        && plan[2 + n3 + i].args@ == seq![i] && plan[2 + n3 + i].pause_millis == 10 by {
        assert(plan[2 + n3 + i]@ == launch_at(n, n3, 2 + n3 + i));
    }
}

/// The combiner is waited for first, then every signer by id, then every
/// tracer by id.
pub proof fn every_actor_is_waited_for_once(n: usize, n3: usize, order: Seq<Actor>)
    requires
        order.len() == 1 + n + n3,
        forall|i: int| 0 <= i < order.len() ==> (#[trigger] order[i]) == waited_at(n, i),
    ensures
        order[0] == Actor::Combiner,
        forall|i: usize| i < n ==> (#[trigger] order[1 + i]) == Actor::Signer(i),
        forall|k: usize| k < n3 ==> (#[trigger] order[1 + n + k]) == Actor::Tracer(k),
{
}

/// Every scenario asks for as many runs as it says, on top of the others.
pub proof fn runs_add_up(scenarios: Seq<Scenario>, scenario: Scenario)
    ensures
        total_runs(Seq::empty()) == 0,
        total_runs(scenarios.push(scenario)) == total_runs(scenarios) + scenario.repeats,
{
    assert(scenarios.push(scenario).drop_last() =~= scenarios);
}

/// The next run is the first of the current scenario that has not been done,
/// and there is one as long as a scenario is left.
pub proof fn runs_follow_each_other(series: Series)
    requires
        series.wf(),
    ensures
        series.at < series.scenarios@.len() ==> series.upcoming() == Some(
            (series.scenarios@[series.at as int], (series.done + 1) as usize),
        ),
        series.at >= series.scenarios@.len() ==> series.upcoming() is None,
{
}

} // verus!

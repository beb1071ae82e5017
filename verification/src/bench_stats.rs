//! Per-operation timing records of the benchmark suite, and what is known of
//! them over repeated runs of a scenario.
use vstd::prelude::*;
use vstd::string::{StrSliceExecFns, StringExecFns};

use crate::text::{
    chars_of, decimal, decimal_round_trip, decimal_text, decimal_value, decimals_are_digits, find,
    find_char, free_of, lemma_decimal_untrimmed, lemma_find, lines, lines_end_at_line_feeds,
    lines_of_joined_texts, parse_decimal, trim, trim_range, without_return,
};

verus! {

/// Which process a timing came from.
#[derive(Debug, Clone, Copy, PartialEq, Eq, Hash, PartialOrd, Ord, Structural)]
pub enum Actor {
    Combiner,
    Signer(usize),
    Tracer(usize),
}

/// One `BENCH,<phase>,<microseconds>` line printed by an actor.
#[derive(Debug, Clone, PartialEq, Eq)]
pub struct BenchRecord {
    pub actor: Actor,
    pub phase: String,
    pub micros: u128,
}

impl View for BenchRecord {
    type V = (Actor, Seq<char>, u128);

    open spec fn view(&self) -> (Actor, Seq<char>, u128) {
        (self.actor, self.phase@, self.micros)
    }
}

/// The views of a list of records.
pub open spec fn record_views(records: Seq<BenchRecord>) -> Seq<(Actor, Seq<char>, u128)> {
    Seq::new(records.len(), |i: int| records[i]@)
}

/// The phase and the microseconds that a `BENCH,<phase>,<microseconds>` line
/// tells. White space around the line and around the number is ignored.
pub open spec fn bench_line(line: Seq<char>) -> Option<(Seq<char>, u128)> {
    let t = trim(line);
    let first = find(t, ',', 0);
    if t.take(first) != "BENCH"@ || first >= t.len() {
        None
    } else {
        let rest = t.skip(first + 1);
        let second = find(rest, ',', 0);
        if second >= rest.len() {
            None
        } else {
            match decimal_value(trim(rest.skip(second + 1))) {
                Some(v) if v <= u128::MAX => Some((rest.take(second), v as u128)),
                _ => None,
            }
        }
    }
}

fn is_bench_tag(chars: &Vec<char>, from: usize, to: usize) -> (res: bool)
    requires
        from <= to <= chars@.len(),
    ensures
        res == (chars@.subrange(from as int, to as int) == "BENCH"@),
{
    proof {
        reveal_strlit("BENCH");
    }
    let ghost s = chars@.subrange(from as int, to as int);
    proof {
        assert("BENCH"@.len() == 5);
        assert(s.len() == to - from);
    }
    if to - from != 5 {
        return false;
    }
    let res: bool = chars[from] == 'B' && chars[from + 1] == 'E' && chars[from + 2] == 'N'
        && chars[from + 3] == 'C' && chars[from + 4] == 'H';
    proof {
        if res {
            assert(s =~= "BENCH"@);
        } else {
            assert(s[0] == chars@[from as int]);
            assert(s[1] == chars@[from + 1]);
            assert(s[2] == chars@[from + 2]);
            assert(s[3] == chars@[from + 3]);
            assert(s[4] == chars@[from + 4]);
        }
    }
    res
}

/// Parses a `BENCH,<phase>,<microseconds>` stdout line into
/// `(phase, microseconds)`. Any other line yields `None`.
pub fn parse_bench_line(line: &str) -> (res: Option<(String, u128)>)
    ensures
        match res {
            Some((phase, micros)) => bench_line(line@) == Some((phase@, micros)),
            None => bench_line(line@) is None,
        },
{
    let chars: Vec<char> = chars_of(line);
    let (a, b) = trim_range(&chars, 0, chars.len());
    let ghost t = trim(line@);
    proof {
        assert(chars@.subrange(0, chars@.len() as int) =~= line@);
        assert(chars@.subrange(a as int, b as int) == t);
        lemma_find(t, ',', 0);
    }
    let first: usize = find_char(&chars, ',', a, b);
    proof {
        assert(chars@.subrange(a as int, first as int) =~= t.take(first - a));
    }
    if !is_bench_tag(&chars, a, first) {
        return None;
    }
    if first == b {
        return None;
    }
    let ghost rest = t.skip(first - a + 1);
    proof {
        assert(chars@.subrange(first + 1, b as int) =~= rest);
        lemma_find(rest, ',', 0);
    }
    let second: usize = find_char(&chars, ',', first + 1, b);
    if second == b {
        return None;
    }
    proof {
        assert(chars@.subrange(second + 1, b as int) =~= rest.skip(second - first));
        assert(chars@.subrange(first + 1, second as int) =~= rest.take(second - first - 1));
    }
    let (c, d) = trim_range(&chars, second + 1, b);
    match parse_decimal(&chars, c, d, u128::MAX) {
        Some(micros) => {
            let phase: String = String::from_str(line.substring_char(first + 1, second));
            Some((phase, micros))
        },
        None => None,
    }
}

/// The line by which an actor tells how long a phase took.
pub open spec fn bench_text(phase: Seq<char>, micros: u128) -> Seq<char> {
    "BENCH,"@ + phase + ","@ + decimal(micros as nat)
}

/// The line by which an actor tells how long a phase took.
pub fn format_bench_line(phase: &str, micros: u128) -> (line: String)
    ensures
        line@ == bench_text(phase@, micros),
{
    let mut line: String = String::from_str("BENCH,");
    line.append(phase);
    line.append(",");
    line.append(decimal_text(micros).as_str());
    line
}

/// What an actor tells is what is read from its line, as long as the phase's
/// name has no comma.
pub proof fn bench_line_round_trip(phase: Seq<char>, micros: u128)
    requires
        forall|i: int| 0 <= i < phase.len() ==> phase[i] != ',',
    ensures
        bench_line(bench_text(phase, micros)) == Some((phase, micros)),
{
    reveal_strlit("BENCH,");
    reveal_strlit("BENCH");
    reveal_strlit(",");
    let number = decimal(micros as nat);
    let s = bench_text(phase, micros);
    decimal_round_trip(micros as nat);
    lemma_decimal_untrimmed(micros as nat);
    assert(s[0] == 'B');
    assert(s.last() == number.last());
    assert(trim(s) == s);
    lemma_find(s, ',', 0);
    assert(s[5] == ',');
    assert(s[0] == 'B' && s[1] == 'E' && s[2] == 'N' && s[3] == 'C' && s[4] == 'H');
    assert(find(s, ',', 0) == 5);
    assert(s.take(5) =~= "BENCH"@);
    let rest = s.skip(6);
    assert(rest =~= phase + ","@ + number);
    lemma_find(rest, ',', 0);
    assert(rest[phase.len() as int] == ',');
    assert forall|i: int| 0 <= i < phase.len() implies rest[i] != ',' by {
        assert(rest[i] == phase[i]);
    }
    assert(find(rest, ',', 0) == phase.len());
    assert(rest.take(phase.len() as int) =~= phase);
    assert(rest.skip((phase.len() + 1) as int) =~= number);
}

/// The records that these lines of an actor's stdout tell, in order.
pub open spec fn records_in(actor: Actor, ls: Seq<Seq<char>>) -> Seq<(Actor, Seq<char>, u128)>
    decreases ls.len(),
{
    if ls.len() == 0 {
        Seq::empty()
    } else {
        let before = records_in(actor, ls.drop_last());
        match bench_line(ls.last()) {
            Some((phase, micros)) => before.push((actor, phase, micros)),
            None => before,
        }
    }
}

/// Collects every `BENCH` record from one actor's stdout.
pub fn collect_records(actor: Actor, stdout: &str) -> (records: Vec<BenchRecord>)
    ensures
        record_views(records@) == records_in(actor, lines(stdout@)),
{
    let chars: Vec<char> = chars_of(stdout);
    let ghost s = stdout@;
    let mut records: Vec<BenchRecord> = Vec::new();
    let ghost mut done: Seq<Seq<char>> = Seq::empty();
    let mut pos: usize = 0;
    proof {
        assert(s.skip(0) =~= s);
        assert(done + lines(s) =~= lines(s));
        assert(record_views(records@) =~= records_in(actor, done));
    }
    while pos < chars.len()
        invariant
            pos <= chars@.len(),
            chars@ == s,
            s == stdout@,
            lines(s) == done + lines(s.skip(pos as int)),
            record_views(records@) == records_in(actor, done),
        decreases chars@.len() - pos,
    {
        let ghost tail = s.skip(pos as int);
        proof {
            assert(chars@.subrange(pos as int, chars@.len() as int) =~= tail);
            lemma_find(tail, '\n', 0);
        }
        let end: usize = find_char(&chars, '\n', pos, chars.len());
        let mut stop: usize = end;
        let mut next: usize = end;
        if end < chars.len() {
            next = end + 1;
            if end > pos && chars[end - 1] == '\r' {
                stop = end - 1;
            }
        }
        let ghost line = s.subrange(pos as int, stop as int);
        proof {
            if end < s.len() {
                assert(tail.take(end - pos) =~= s.subrange(pos as int, end as int));
                assert(line =~= without_return(tail.take(end - pos)));
                assert(tail.skip(end - pos + 1) =~= s.skip(next as int));
            } else {
                assert(line =~= tail);
                assert(s.skip(next as int) =~= Seq::<char>::empty());
            }
            assert(lines(tail) =~= seq![line] + lines(s.skip(next as int)));
            let before = done;
            done = done.push(line);
            assert(before + lines(tail) =~= done + lines(s.skip(next as int)));
            assert(done.drop_last() =~= before);
        }
        let ghost seen = records@;
        match parse_bench_line(stdout.substring_char(pos, stop)) {
            Some((phase, micros)) => {
                records.push(BenchRecord { actor, phase, micros });
                proof {
                    assert(record_views(records@) =~= record_views(seen).push(
                        (actor, phase@, micros),
                    ));
                }
            },
            None => {},
        }
        pos = next;
    }
    proof {
        assert(s.skip(pos as int) =~= Seq::<char>::empty());
        assert(done + Seq::<Seq<char>>::empty() =~= done);
    }
    records
}

/// The kind of actor, ignoring its id. Summary statistics pool every actor
/// of the same role together.
#[derive(Debug, Clone, Copy, PartialEq, Eq, Hash, PartialOrd, Ord, Structural)]
pub enum Role {
    Signer,
    Combiner,
    Tracer,
}

impl Role {
    /// The role an actor plays.
    pub open spec fn spec_of(actor: Actor) -> Role {
        match actor {
            Actor::Signer(_) => Role::Signer,
            Actor::Combiner => Role::Combiner,
            Actor::Tracer(_) => Role::Tracer,
        }
    }

    /// The role an actor plays.
    pub fn of(actor: Actor) -> (role: Role)
        ensures
            role == Role::spec_of(actor),
    {
        match actor {
            Actor::Signer(_) => Role::Signer,
            Actor::Combiner => Role::Combiner,
            Actor::Tracer(_) => Role::Tracer,
        }
    }

    /// The name by which reports know the role.
    pub open spec fn spec_name(&self) -> Seq<char> {
        match self {
            Role::Signer => "signer"@,
            Role::Combiner => "combiner"@,
            Role::Tracer => "tracer"@,
        }
    }

    /// The name by which reports know the role.
    pub fn name(&self) -> (name: &'static str)
        ensures
            name@ == self.spec_name(),
    {
        match self {
            Role::Signer => "signer",
            Role::Combiner => "combiner",
            Role::Tracer => "tracer",
        }
    }

    /// Where reports list the role: signers first, then the combiner, then the
    /// tracers.
    pub open spec fn rank(&self) -> int {
        match self {
            Role::Signer => 0,
            Role::Combiner => 1,
            Role::Tracer => 2,
        }
    }

    fn position(&self) -> (rank: u8)
        ensures
            rank == self.rank(),
    {
        match self {
            Role::Signer => 0,
            Role::Combiner => 1,
            Role::Tracer => 2,
        }
    }
}

/// Every measurement of one operation of one role in one `(n, n_3)` scenario.
#[derive(Debug, Clone, PartialEq, Eq)]
pub struct Group {
    pub n: usize,
    pub n3: usize,
    pub role: Role,
    pub operation: String,
    pub values: Vec<u128>,
}

/// What measurements are pooled by: scenario, role and operation.
pub type Key = (usize, usize, Role, Seq<char>);

/// The number of runs of one `(n, n_3)` scenario.
#[derive(Debug, Clone, Copy, PartialEq, Eq, Structural)]
pub struct RunCount {
    pub n: usize,
    pub n3: usize,
    pub count: usize,
}

impl View for Group {
    type V = (Key, Seq<u128>);

    open spec fn view(&self) -> (Key, Seq<u128>) {
        ((self.n, self.n3, self.role, self.operation@), self.values@)
    }
}

/// The views of a list of groups.
pub open spec fn group_views(groups: Seq<Group>) -> Seq<(Key, Seq<u128>)> {
    Seq::new(groups.len(), |i: int| groups[i]@)
}

/// Where a key has its group; the number of groups if it has none.
pub open spec fn position_of(groups: Seq<(Key, Seq<u128>)>, key: Key) -> int
    decreases groups.len(),
{
    if groups.len() == 0 {
        0
    } else {
        let before = position_of(groups.drop_last(), key);
        if before < groups.len() - 1 {
            before
        } else if groups.last().0 == key {
            groups.len() - 1
        } else {
            groups.len() as int
        }
    }
}

/// The groups with one more measurement: it joins the group of its key, or
/// opens a new one at the end.
pub open spec fn pooled(groups: Seq<(Key, Seq<u128>)>, key: Key, micros: u128) -> Seq<
    (Key, Seq<u128>),
> {
    let at = position_of(groups, key);
    if at < groups.len() {
        groups.update(at, (key, groups[at].1.push(micros)))
    } else {
        groups.push((key, seq![micros]))
    }
}

/// The key of a record of scenario `(n, n3)`.
pub open spec fn key_of(n: usize, n3: usize, record: (Actor, Seq<char>, u128)) -> Key {
    (n, n3, Role::spec_of(record.0), record.1)
}

/// The groups with the records of one run of scenario `(n, n3)`.
pub open spec fn with_run(
    groups: Seq<(Key, Seq<u128>)>,
    n: usize,
    n3: usize,
    records: Seq<(Actor, Seq<char>, u128)>,
) -> Seq<(Key, Seq<u128>)>
    decreases records.len(),
{
    if records.len() == 0 {
        groups
    } else {
        pooled(
            with_run(groups, n, n3, records.drop_last()),
            key_of(n, n3, records.last()),
            records.last().2,
        )
    }
}

/// The measurements pooled under a key, in the order in which they came.
pub open spec fn samples_of(groups: Seq<(Key, Seq<u128>)>, key: Key) -> Seq<u128> {
    let at = position_of(groups, key);
    if 0 <= at < groups.len() {
        groups[at].1
    } else {
        Seq::empty()
    }
}

/// The measurements that one run of scenario `(n, n3)` adds under a key.
pub open spec fn matching(
    n: usize,
    n3: usize,
    records: Seq<(Actor, Seq<char>, u128)>,
    key: Key,
) -> Seq<u128>
    decreases records.len(),
{
    if records.len() == 0 {
        Seq::empty()
    } else {
        let before = matching(n, n3, records.drop_last(), key);
        if key_of(n, n3, records.last()) == key {
            before.push(records.last().2)
        } else {
            before
        }
    }
}

/// How many runs of scenario `(n, n3)` these counts tell.
pub open spec fn runs_in(counts: Seq<RunCount>, n: usize, n3: usize) -> nat
    decreases counts.len(),
{
    if counts.len() == 0 {
        0
    } else {
        runs_in(counts.drop_last(), n, n3) + if counts.last().n == n && counts.last().n3 == n3 {
            counts.last().count as nat
        } else {
            0
        }
    }
}

/// Whether no scenario is counted twice.
pub open spec fn counted_once(counts: Seq<RunCount>) -> bool {
    forall|i: int, j: int|
        0 <= i < j < counts.len() ==> (#[trigger] counts[i]).n != (#[trigger] counts[j]).n
            || counts[i].n3 != counts[j].n3
}

/// Whether no key has two groups.
pub open spec fn distinct_keys(groups: Seq<(Key, Seq<u128>)>) -> bool {
    forall|i: int, j: int|
        0 <= i < j < groups.len() ==> (#[trigger] groups[i]).0 != (#[trigger] groups[j]).0
}

/// Whether every group has a measurement.
pub open spec fn all_measured(groups: Seq<(Key, Seq<u128>)>) -> bool {
    forall|i: int| 0 <= i < groups.len() ==> (#[trigger] groups[i]).1.len() > 0
}

/// Collects every measurement of every successful run.
#[derive(Debug)]
pub struct Summarizer {
    /// One group per key, in first-seen order, so operations keep their
    /// protocol order.
    pub groups: Vec<Group>,
    pub runs: Vec<RunCount>,
}

proof fn lemma_position(groups: Seq<(Key, Seq<u128>)>, key: Key)
    ensures
        0 <= position_of(groups, key) <= groups.len(),
        position_of(groups, key) < groups.len() ==> groups[position_of(groups, key)].0 == key,
        forall|i: int|
            0 <= i < position_of(groups, key) ==> (#[trigger] groups[i]).0 != key,
    decreases groups.len(),
{
    if groups.len() > 0 {
        let rest = groups.drop_last();
        lemma_position(rest, key);
        let p = position_of(rest, key);
        assert forall|i: int| 0 <= i < position_of(groups, key) implies (
        #[trigger] groups[i]).0 != key by {
            if i < rest.len() {
                assert(rest[i].0 == groups[i].0);
            }
        }
    }
}

/// A position with the right key and none before it is the key's position.
proof fn lemma_position_is(groups: Seq<(Key, Seq<u128>)>, key: Key, at: int)
    requires
        0 <= at <= groups.len(),
        at < groups.len() ==> groups[at].0 == key,
        forall|i: int| 0 <= i < at ==> (#[trigger] groups[i]).0 != key,
    ensures
        position_of(groups, key) == at,
{
    lemma_position(groups, key);
    let p = position_of(groups, key);
    if p < at {
        assert(groups[p].0 != key);
    }
    if at < p {
        assert(groups[at].0 != key);
    }
}

proof fn lemma_pooled(groups: Seq<(Key, Seq<u128>)>, key: Key, micros: u128)
    requires
        distinct_keys(groups),
        all_measured(groups),
    ensures
        distinct_keys(pooled(groups, key, micros)),
        all_measured(pooled(groups, key, micros)),
{
    lemma_position(groups, key);
}

proof fn lemma_pooled_samples(groups: Seq<(Key, Seq<u128>)>, key: Key, micros: u128, other: Key)
    ensures
        samples_of(pooled(groups, key, micros), other) == (if other == key {
            samples_of(groups, other).push(micros)
        } else {
            samples_of(groups, other)
        }),
{
    let after = pooled(groups, key, micros);
    lemma_position(groups, key);
    lemma_position(groups, other);
    let p = position_of(groups, other);
    let q = position_of(groups, key);
    if other == key {
        lemma_position_is(after, key, q);
        assert(q == groups.len() ==> Seq::<u128>::empty().push(micros) =~= seq![micros]);
    } else if p < groups.len() {
        assert(p != q);
        assert forall|i: int| 0 <= i < p implies (#[trigger] after[i]).0 != other by {
            if i != q {
                assert(after[i] == groups[i]);
            }
        }
        lemma_position_is(after, other, p);
    } else {
        assert forall|i: int| 0 <= i < after.len() implies (#[trigger] after[i]).0 != other by {
            if i < groups.len() && i != q {
                assert(after[i] == groups[i]);
            }
        }
        lemma_position_is(after, other, after.len() as int);
    }
}

/// What is pooled under a key is every measurement that came under it, in
/// order: a run adds its own matching measurements at the end and leaves every
/// other key alone.
pub proof fn runs_pool_samples(
    groups: Seq<(Key, Seq<u128>)>,
    n: usize,
    n3: usize,
    records: Seq<(Actor, Seq<char>, u128)>,
    key: Key,
)
    ensures
        samples_of(with_run(groups, n, n3, records), key) == samples_of(groups, key) + matching(
            n,
            n3,
            records,
            key,
        ),
    decreases records.len(),
{
    if records.len() == 0 {
        assert(samples_of(groups, key) + Seq::<u128>::empty() =~= samples_of(groups, key));
    } else {
        let before = records.drop_last();
        runs_pool_samples(groups, n, n3, before, key);
        lemma_pooled_samples(
            with_run(groups, n, n3, before),
            key_of(n, n3, records.last()),
            records.last().2,
            key,
        );
        assert(samples_of(with_run(groups, n, n3, records), key) =~= samples_of(groups, key)
            + matching(n, n3, records, key));
    }
}

/// A run keeps the groups that are there in their places, so operations are
/// listed in the order in which they were first seen.
pub proof fn first_seen_order_is_kept(
    groups: Seq<(Key, Seq<u128>)>,
    n: usize,
    n3: usize,
    records: Seq<(Actor, Seq<char>, u128)>,
)
    ensures
        with_run(groups, n, n3, records).len() >= groups.len(),
        forall|i: int|
            0 <= i < groups.len() ==> (#[trigger] with_run(groups, n, n3, records)[i]).0
                == groups[i].0,
    decreases records.len(),
{
    if records.len() > 0 {
        first_seen_order_is_kept(groups, n, n3, records.drop_last());
        lemma_position(
            with_run(groups, n, n3, records.drop_last()),
            key_of(n, n3, records.last()),
        );
    }
}

proof fn lemma_runs_update(counts: Seq<RunCount>, at: int, n: usize, n3: usize)
    requires
        0 <= at < counts.len(),
        counts[at].count < usize::MAX,
    ensures
        runs_in(
            counts.update(
                at,
                RunCount { count: (counts[at].count + 1) as usize, ..counts[at] },
            ),
            n,
            n3,
        ) == runs_in(counts, n, n3) + if counts[at].n == n && counts[at].n3 == n3 {
            1nat
        } else {
            0nat
        },
    decreases counts.len(),
{
    let bumped = RunCount { count: (counts[at].count + 1) as usize, ..counts[at] };
    let after = counts.update(at, bumped);
    if at == counts.len() - 1 {
        assert(after.drop_last() =~= counts.drop_last());
    } else {
        assert(after.drop_last() =~= counts.drop_last().update(at, bumped));
        lemma_runs_update(counts.drop_last(), at, n, n3);
    }
}

proof fn lemma_runs_bound(counts: Seq<RunCount>, at: int)
    requires
        0 <= at < counts.len(),
    ensures
        counts[at].count <= runs_in(counts, counts[at].n, counts[at].n3),
    decreases counts.len(),
{
    if at < counts.len() - 1 {
        lemma_runs_bound(counts.drop_last(), at);
    }
}

proof fn lemma_runs_exact(counts: Seq<RunCount>, at: int)
    requires
        0 <= at < counts.len(),
        counted_once(counts),
    ensures
        counts[at].count == runs_in(counts, counts[at].n, counts[at].n3),
    decreases counts.len(),
{
    let rest = counts.drop_last();
    if at < counts.len() - 1 {
        assert(counts[at].n != counts[counts.len() - 1].n || counts[at].n3 != counts[counts.len()
            - 1].n3);
        lemma_runs_exact(rest, at);
    } else {
        lemma_runs_none(rest, counts[at].n, counts[at].n3);
    }
}

proof fn lemma_runs_none(counts: Seq<RunCount>, n: usize, n3: usize)
    requires
        forall|i: int|
            0 <= i < counts.len() ==> (#[trigger] counts[i]).n != n || counts[i].n3 != n3,
    ensures
        runs_in(counts, n, n3) == 0,
    decreases counts.len(),
{
    if counts.len() > 0 {
        assert(counts[counts.len() - 1].n != n || counts[counts.len() - 1].n3 != n3);
        lemma_runs_none(counts.drop_last(), n, n3);
    }
}

impl Summarizer {
    /// Every key has one group with at least one measurement, every scenario
    /// one count, and no measurement comes without a run.
    pub open spec fn wf(&self) -> bool {
        &&& distinct_keys(group_views(self.groups@))
        &&& all_measured(group_views(self.groups@))
        &&& counted_once(self.runs@)
        &&& forall|i: int|
            0 <= i < self.groups@.len() ==> runs_in(
                self.runs@,
                (#[trigger] self.groups@[i]).n,
                self.groups@[i].n3,
            ) > 0
    }

    /// The number of successful runs of scenario `(n, n3)`.
    pub open spec fn runs_of(&self, n: usize, n3: usize) -> nat {
        runs_in(self.runs@, n, n3)
    }

    /// Nothing collected yet.
    pub fn new() -> (summarizer: Self)
        ensures
            summarizer.wf(),
            group_views(summarizer.groups@) == Seq::<(Key, Seq<u128>)>::empty(),
            forall|n: usize, n3: usize| #[trigger] summarizer.runs_of(n, n3) == 0,
    {
        let summarizer = Summarizer { groups: Vec::new(), runs: Vec::new() };
        proof {
            assert(group_views(summarizer.groups@) =~= Seq::<(Key, Seq<u128>)>::empty());
        }
        summarizer
    }

    fn count_run(&mut self, n: usize, n3: usize)
        requires
            counted_once(old(self).runs@),
            old(self).runs_of(n, n3) < usize::MAX,
        ensures
            final(self).groups == old(self).groups,
            counted_once(final(self).runs@),
            forall|a: usize, b: usize| #[trigger]
                final(self).runs_of(a, b) == old(self).runs_of(a, b) + if a == n && b == n3 {
                    1nat
                } else {
                    0nat
                },
    {
        let mut i: usize = 0;
        while i < self.runs.len()
            invariant
                i <= self.runs@.len(),
                *self == *old(self),
                counted_once(self.runs@),
                self.runs_of(n, n3) < usize::MAX,
                forall|j: int|
                    0 <= j < i ==> (#[trigger] self.runs@[j]).n != n || self.runs@[j].n3 != n3,
            decreases self.runs@.len() - i,
        {
            let entry: RunCount = self.runs[i];
            if entry.n == n && entry.n3 == n3 {
                proof {
                    lemma_runs_bound(self.runs@, i as int);
                    assert forall|a: usize, b: usize|
                        runs_in(
                            self.runs@.update(
                                i as int,
                                RunCount { count: (entry.count + 1) as usize, ..entry },
                            ),
                            a,
                            b,
                        ) == #[trigger] self.runs_of(a, b) + if a == n && b == n3 {
                            1nat
                        } else {
                            0nat
                        } by {
                        lemma_runs_update(self.runs@, i as int, a, b);
                    }
                }
                self.runs.set(i, RunCount { n, n3, count: entry.count + 1 });
                return;
            }
            i = i + 1;
        }
        let ghost before = self.runs@;
        self.runs.push(RunCount { n, n3, count: 1 });
        proof {
            assert(self.runs@.drop_last() =~= before);
        }
    }

    /// Adds one measurement.
    fn add_sample(&mut self, n: usize, n3: usize, record: &BenchRecord)
        requires
            distinct_keys(group_views(old(self).groups@)),
            all_measured(group_views(old(self).groups@)),
        ensures
            final(self).runs == old(self).runs,
            group_views(final(self).groups@) == pooled(
                group_views(old(self).groups@),
                key_of(n, n3, record@),
                record.micros,
            ),
    {
        let role: Role = Role::of(record.actor);
        let ghost before = group_views(self.groups@);
        let ghost key = key_of(n, n3, record@);
        let mut i: usize = 0;
        while i < self.groups.len()
            invariant
                i <= self.groups@.len(),
                *self == *old(self),
                before == group_views(old(self).groups@),
                key == key_of(n, n3, record@),
                role == Role::spec_of(record.actor),
                forall|j: int| 0 <= j < i ==> (#[trigger] before[j]).0 != key,
            decreases self.groups@.len() - i,
        {
            let group: &Group = &self.groups[i];
            proof {
                assert(before[i as int] == group@);
            }
            if group.n == n && group.n3 == n3 && group.role == role && group.operation
                == record.phase {
                proof {
                    lemma_position_is(before, key, i as int);
                }
                self.groups[i].values.push(record.micros);
                proof {
                    assert(group_views(self.groups@) =~= pooled(before, key, record.micros));
                }
                return;
            }
            i = i + 1;
        }
        proof {
            lemma_position_is(before, key, before.len() as int);
        }
        let mut values: Vec<u128> = Vec::new();
        values.push(record.micros);
        self.groups.push(Group { n, n3, role, operation: record.phase.clone(), values });
        proof {
            assert(seq![record.micros] =~= Seq::<u128>::empty().push(record.micros));
            assert(group_views(self.groups@) =~= pooled(before, key, record.micros));
        }
    }

    /// Whether `after` is this summarizer with one more run of scenario
    /// `(n, n3)`.
    pub open spec fn adds_run(
        &self,
        n: usize,
        n3: usize,
        records: Seq<(Actor, Seq<char>, u128)>,
        after: Self,
    ) -> bool {
        &&& group_views(after.groups@) == with_run(group_views(self.groups@), n, n3, records)
        &&& forall|a: usize, b: usize| #[trigger]
            after.runs_of(a, b) == self.runs_of(a, b) + if a == n && b == n3 {
                1nat
            } else {
                0nat
            }
    }

    /// Adds every record of one successful run of scenario `(n, n3)`.
    pub fn add_run(&mut self, n: usize, n3: usize, records: &[BenchRecord])
        requires
            old(self).wf(),
            old(self).runs_of(n, n3) < usize::MAX,
        ensures
            final(self).wf(),
            old(self).adds_run(n, n3, record_views(records@), *final(self)),
    {
        self.count_run(n, n3);
        let ghost start = group_views(old(self).groups@);
        let ghost views = record_views(records@);
        let ghost counts = self.runs;
        let mut i: usize = 0;
        proof {
            assert(views.take(0) =~= Seq::<(Actor, Seq<char>, u128)>::empty());
            assert(self.runs_of(n, n3) > 0);
            assert forall|a: usize, b: usize| #[trigger]
                runs_in(counts@, a, b) == old(self).runs_of(a, b) + if a == n && b == n3 {
                    1nat
                } else {
                    0nat
                } by {
                assert(runs_in(counts@, a, b) == self.runs_of(a, b));
            }
            assert forall|j: int| 0 <= j < self.groups@.len() implies runs_in(
                self.runs@,
                (#[trigger] self.groups@[j]).n,
                self.groups@[j].n3,
            ) > 0 by {
                assert(self.runs_of(self.groups@[j].n, self.groups@[j].n3) >= old(self).runs_of(
                    self.groups@[j].n,
                    self.groups@[j].n3,
                ));
            }
        }
        while i < records.len()
            invariant
                i <= records@.len(),
                views == record_views(records@),
                self.runs == counts,
                runs_in(counts@, n, n3) > 0,
                self.wf(),
                group_views(self.groups@) == with_run(start, n, n3, views.take(i as int)),
            decreases records@.len() - i,
        {
            let ghost prior = *self;
            let ghost groups = self.groups@;
            let ghost key = key_of(n, n3, views[i as int]);
            proof {
                assert(views[i as int] == records@[i as int]@);
                assert(views.take(i + 1).drop_last() =~= views.take(i as int));
                lemma_pooled(group_views(groups), key, views[i as int].2);
                lemma_position(group_views(groups), key);
            }
            self.add_sample(n, n3, &records[i]);
            proof {
                assert forall|j: int| 0 <= j < self.groups@.len() implies runs_in(
                    self.runs@,
                    (#[trigger] self.groups@[j]).n,
                    self.groups@[j].n3,
                ) > 0 by {
                    let now = group_views(self.groups@);
                    assert(now[j] == self.groups@[j]@);
                    if j < groups.len() {
                        assert(group_views(groups)[j] == groups[j]@);
                        assert(now[j].0 == group_views(groups)[j].0);
                        assert(runs_in(
                            prior.runs@,
                            prior.groups@[j].n,
                            prior.groups@[j].n3,
                        ) > 0);
                    } else {
                        let opened = (key, seq![views[i as int].2]);
                        assert(now == group_views(groups).push(opened));
                        assert(now[j] == opened);
                    }
                }
            }
            i = i + 1;
        }
        proof {
            assert(views.take(views.len() as int) =~= views);
            assert forall|a: usize, b: usize| #[trigger]
                self.runs_of(a, b) == old(self).runs_of(a, b) + if a == n && b == n3 {
                    1nat
                } else {
                    0nat
                } by {
                assert(self.runs_of(a, b) == runs_in(counts@, a, b));
            }
        }
    }
}

impl Default for Summarizer {
    /// Nothing collected yet.
    fn default() -> (summarizer: Self)
        ensures
            summarizer.wf(),
            group_views(summarizer.groups@) == Seq::<(Key, Seq<u128>)>::empty(),
            forall|n: usize, n3: usize| #[trigger] summarizer.runs_of(n, n3) == 0,
    {
        Summarizer::new()
    }
}

/// What is known of one operation of one role in one `(n, n_3)` scenario,
/// over every actor of that role and every successful run.
#[derive(Debug, Clone, PartialEq, Eq)]
pub struct OperationSummary {
    pub n: usize,
    pub n3: usize,
    /// Number of successful runs of the scenario.
    pub runs: usize,
    pub role: Role,
    pub operation: String,
    /// Number of measurements, e.g. `n * runs` for a signer operation.
    pub samples: usize,
    pub min: u128,
    pub max: u128,
    /// The measurements themselves, for whatever averages a report wants.
    pub values: Vec<u128>,
}

/// Whether reports list the scenario and role of `a` before those of `b`.
pub open spec fn ranks_before(a: Group, b: Group) -> bool {
    ||| a.n < b.n
    ||| a.n == b.n && a.n3 < b.n3
    ||| a.n == b.n && a.n3 == b.n3 && a.role.rank() < b.role.rank()
}

/// Whether reports list group `i` before group `j`: by scenario, then by role,
/// then in the order in which the operations were first seen.
pub open spec fn listed_before(groups: Seq<Group>, i: int, j: int) -> bool {
    ||| ranks_before(groups[i], groups[j])
    ||| !ranks_before(groups[j], groups[i]) && i < j
}

/// Whether `order` lists every group once, in the order of reports.
pub open spec fn report_order(groups: Seq<Group>, order: Seq<usize>) -> bool {
    &&& order.len() == groups.len()
    &&& forall|i: int| 0 <= i < order.len() ==> (#[trigger] order[i]) < groups.len()
    &&& forall|k: usize| k < groups.len() ==> #[trigger] order.contains(k)
    &&& forall|i: int, j: int|
        0 <= i < j < order.len() ==> listed_before(
            groups,
            (#[trigger] order[i]) as int,
            (#[trigger] order[j]) as int,
        )
}

/// Whether a summary tells what is known of a group.
pub open spec fn summarizes(row: OperationSummary, group: Group, runs: nat) -> bool {
    &&& row.n == group.n
    &&& row.n3 == group.n3
    &&& row.runs == runs
    &&& row.role == group.role
    &&& row.operation@ == group.operation@
    &&& row.samples == group.values@.len()
    &&& row.values@ == group.values@
    &&& group.values@.contains(row.min)
    &&& group.values@.contains(row.max)
    &&& forall|i: int|
        0 <= i < group.values@.len() ==> row.min <= (#[trigger] group.values@[i]) <= row.max
}

fn is_ranked_before(a: &Group, b: &Group) -> (res: bool)
    ensures
        res == ranks_before(*a, *b),
{
    a.n < b.n || (a.n == b.n && (a.n3 < b.n3 || (a.n3 == b.n3 && a.role.position()
        < b.role.position())))
}

proof fn lemma_listed_transitive(groups: Seq<Group>, i: int, j: int, k: int)
    requires
        listed_before(groups, i, j),
        listed_before(groups, j, k),
    ensures
        listed_before(groups, i, k),
{
}

fn extremes(values: &Vec<u128>) -> (res: (u128, u128))
    requires
        values@.len() > 0,
    ensures
        values@.contains(res.0),
        values@.contains(res.1),
        forall|i: int| 0 <= i < values@.len() ==> res.0 <= (#[trigger] values@[i]) <= res.1,
{
    let mut min: u128 = values[0];
    let mut max: u128 = values[0];
    let mut i: usize = 1;
    while i < values.len()
        invariant
            1 <= i <= values@.len(),
            values@.contains(min),
            values@.contains(max),
            forall|j: int| 0 <= j < i ==> min <= (#[trigger] values@[j]) <= max,
        decreases values@.len() - i,
    {
        let v: u128 = values[i];
        if v < min {
            min = v;
        }
        if v > max {
            max = v;
        }
        i = i + 1;
    }
    (min, max)
}

fn copy_values(values: &Vec<u128>) -> (copy: Vec<u128>)
    ensures
        copy@ == values@,
{
    let mut copy: Vec<u128> = Vec::new();
    let mut i: usize = 0;
    while i < values.len()
        invariant
            i <= values@.len(),
            copy@ == values@.take(i as int),
        decreases values@.len() - i,
    {
        copy.push(values[i]);
        proof {
            assert(values@.take(i + 1) =~= values@.take(i as int).push(values@[i as int]));
        }
        i = i + 1;
    }
    proof {
        assert(values@.take(values@.len() as int) =~= values@);
    }
    copy
}

impl Summarizer {
    fn count_of(&self, n: usize, n3: usize) -> (count: usize)
        requires
            counted_once(self.runs@),
        ensures
            count == self.runs_of(n, n3),
    {
        let mut i: usize = 0;
        while i < self.runs.len()
            invariant
                i <= self.runs@.len(),
                counted_once(self.runs@),
                forall|j: int|
                    0 <= j < i ==> (#[trigger] self.runs@[j]).n != n || self.runs@[j].n3 != n3,
            decreases self.runs@.len() - i,
        {
            let entry: RunCount = self.runs[i];
            if entry.n == n && entry.n3 == n3 {
                proof {
                    lemma_runs_exact(self.runs@, i as int);
                }
                return entry.count;
            }
            i = i + 1;
        }
        proof {
            lemma_runs_none(self.runs@, n, n3);
        }
        0
    }

    /// The groups in the order of reports.
    fn sorted(&self) -> (order: Vec<usize>)
        ensures
            report_order(self.groups@, order@),
    {
        let ghost groups = self.groups@;
        let mut order: Vec<usize> = Vec::new();
        let mut next: usize = 0;
        while next < self.groups.len()
            invariant
                groups == self.groups@,
                next <= groups.len(),
                order@.len() == next,
                forall|i: int| 0 <= i < order@.len() ==> (#[trigger] order@[i]) < next,
                forall|k: usize| k < next ==> #[trigger] order@.contains(k),
                forall|i: int, j: int|
                    0 <= i < j < order@.len() ==> listed_before(
                        groups,
                        (#[trigger] order@[i]) as int,
                        (#[trigger] order@[j]) as int,
                    ),
            decreases groups.len() - next,
        {
            let mut at: usize = order.len();
            while at > 0 && is_ranked_before(&self.groups[next], &self.groups[order[at - 1]])
                invariant
                    groups == self.groups@,
                    next < groups.len(),
                    at <= order@.len() == next,
                    forall|i: int| 0 <= i < order@.len() ==> (#[trigger] order@[i]) < next,
                    forall|i: int|
                        at <= i < order@.len() ==> ranks_before(
                            groups[next as int],
                            groups[(#[trigger] order@[i]) as int],
                        ),
                decreases at,
            {
                at = at - 1;
            }
            let ghost before = order@;
            proof {
                if at > 0 {
                    let last = before[at - 1] as int;
                    assert(listed_before(groups, last, next as int));
                    assert forall|i: int| 0 <= i < at implies listed_before(
                        groups,
                        (#[trigger] before[i]) as int,
                        next as int,
                    ) by {
                        if i < at - 1 {
                            assert(listed_before(groups, before[i] as int, before[at - 1] as int));
                            lemma_listed_transitive(
                                groups,
                                before[i] as int,
                                before[at - 1] as int,
                                next as int,
                            );
                        }
                    }
                }
            }
            order.insert(at, next);
            proof {
                let after = order@;
                assert(after == before.insert(at as int, next));
                assert forall|i: int| 0 <= i < after.len() implies (#[trigger] after[i]) < next + 1 by {
                    if i < at {
                        assert(after[i] == before[i]);
                    } else if i > at {
                        assert(after[i] == before[i - 1]);
                    }
                }
                assert forall|k: usize| k < next + 1 implies #[trigger] after.contains(k) by {
                    if k == next {
                        assert(after[at as int] == next);
                    } else {
                        assert(before.contains(k));
                        let i = choose|i: int| 0 <= i < before.len() && before[i] == k;
                        if i < at {
                            assert(after[i] == k);
                        } else {
                            assert(after[i + 1] == k);
                        }
                    }
                }
                assert forall|i: int, j: int| 0 <= i < j < after.len() implies listed_before(
                    groups,
                    (#[trigger] after[i]) as int,
                    (#[trigger] after[j]) as int,
                ) by {
                    let x = if i < at {
                        before[i]
                    } else {
                        before[i - 1]
                    };
                    let y = if j < at {
                        before[j]
                    } else {
                        before[j - 1]
                    };
                    assert(i != at ==> after[i] == x);
                    assert(j != at ==> after[j] == y);
                }
            }
            next = next + 1;
        }
        order
    }

    /// Whether `rows` summarizes every group, in the order of reports.
    pub open spec fn tells(&self, rows: Seq<OperationSummary>) -> bool {
        exists|order: Seq<usize>| #[trigger]
            report_order(self.groups@, order) && rows.len() == order.len() && forall|i: int|
                0 <= i < rows.len() ==> summarizes(
                    #[trigger] rows[i],
                    self.groups@[order[i] as int],
                    self.runs_of(
                        self.groups@[order[i] as int].n,
                        self.groups@[order[i] as int].n3,
                    ),
                )
    }

    /// One summary per scenario, role (signer, combiner, tracer) and
    /// operation, with each role's operations in protocol order.
    pub fn summaries(&self) -> (rows: Vec<OperationSummary>)
        requires
            self.wf(),
        ensures
            self.tells(rows@),
    {
        let order: Vec<usize> = self.sorted();
        let mut rows: Vec<OperationSummary> = Vec::new();
        let mut i: usize = 0;
        while i < order.len()
            invariant
                i <= order@.len(),
                self.wf(),
                report_order(self.groups@, order@),
                rows@.len() == i,
                forall|j: int|
                    0 <= j < i ==> summarizes(
                        #[trigger] rows@[j],
                        self.groups@[order@[j] as int],
                        self.runs_of(
                            self.groups@[order@[j] as int].n,
                            self.groups@[order@[j] as int].n3,
                        ),
                    ),
            decreases order@.len() - i,
        {
            let group: &Group = &self.groups[order[i]];
            proof {
                let views = group_views(self.groups@);
                assert(views[order@[i as int] as int] == group@);
                assert(views[order@[i as int] as int].1.len() > 0);
            }
            let (min, max) = extremes(&group.values);
            let runs: usize = self.count_of(group.n, group.n3);
            rows.push(
                OperationSummary {
                    n: group.n,
                    n3: group.n3,
                    runs,
                    role: group.role,
                    operation: group.operation.clone(),
                    samples: group.values.len(),
                    min,
                    max,
                    values: copy_values(&group.values),
                },
            );
            i = i + 1;
        }
        proof {
            assert(report_order(self.groups@, order@));
        }
        rows
    }
}

/// What a summary row says.
pub type RowView = (Key, nat, Seq<u128>, u128, u128);

/// What a summary row says: its key, the runs, the measurements, and the
/// fastest and slowest of them.
pub open spec fn row_view(row: OperationSummary) -> RowView {
    (
        (row.n, row.n3, row.role, row.operation@),
        row.runs as nat,
        row.values@,
        row.min,
        row.max,
    )
}

/// What the rows of scenarios other than `(n, n3)` say, in order.
pub open spec fn rows_of_others(rows: Seq<OperationSummary>, n: usize, n3: usize) -> Seq<RowView>
    decreases rows.len(),
{
    if rows.len() == 0 {
        Seq::empty()
    } else {
        let before = rows_of_others(rows.drop_last(), n, n3);
        if rows.last().n != n || rows.last().n3 != n3 {
            before.push(row_view(rows.last()))
        } else {
            before
        }
    }
}

/// The groups of scenarios other than `(n, n3)`, in the order listed.
spec fn others_in(groups: Seq<Group>, order: Seq<usize>, n: usize, n3: usize) -> Seq<usize>
    decreases order.len(),
{
    if order.len() == 0 {
        Seq::empty()
    } else {
        let before = others_in(groups, order.drop_last(), n, n3);
        let last = groups[order.last() as int];
        if last.n != n || last.n3 != n3 {
            before.push(order.last())
        } else {
            before
        }
    }
}

/// Whether positions are listed in the order of reports.
spec fn in_report_order(groups: Seq<Group>, order: Seq<usize>) -> bool {
    forall|i: int, j: int|
        0 <= i < j < order.len() ==> listed_before(
            groups,
            (#[trigger] order[i]) as int,
            (#[trigger] order[j]) as int,
        )
}

proof fn lemma_others_in(groups: Seq<Group>, order: Seq<usize>, n: usize, n3: usize)
    requires
        in_report_order(groups, order),
    ensures
        in_report_order(groups, others_in(groups, order, n, n3)),
        forall|k: usize| #[trigger]
            others_in(groups, order, n, n3).contains(k) <==> order.contains(k) && (
            groups[k as int].n != n || groups[k as int].n3 != n3),
    decreases order.len(),
{
    if order.len() > 0 {
        let rest = order.drop_last();
        let top = order.last();
        assert(in_report_order(groups, rest));
        lemma_others_in(groups, rest, n, n3);
        let before = others_in(groups, rest, n, n3);
        let after = others_in(groups, order, n, n3);
        let keep = groups[top as int].n != n || groups[top as int].n3 != n3;
        assert forall|i: int| 0 <= i < before.len() implies listed_before(
            groups,
            (#[trigger] before[i]) as int,
            top as int,
        ) by {
            assert(before.contains(before[i]));
            let p = choose|p: int| 0 <= p < rest.len() && rest[p] == before[i];
            assert(order[p] == before[i]);
            assert(order[order.len() - 1] == top);
        }
        assert forall|k: usize| #[trigger] after.contains(k) <==> order.contains(k) && (
        groups[k as int].n != n || groups[k as int].n3 != n3) by {
            if before.contains(k) {
                let p = choose|p: int| 0 <= p < before.len() && before[p] == k;
                assert(after[p] == k);
                let q = choose|q: int| 0 <= q < rest.len() && rest[q] == k;
                assert(order[q] == k);
            }
            if keep {
                assert(after[before.len() as int] == top);
                assert(order[order.len() - 1] == top);
            }
            if after.contains(k) {
                let p = choose|p: int| 0 <= p < after.len() && after[p] == k;
                if p < before.len() {
                    assert(before[p] == k);
                }
            }
            if order.contains(k) {
                let q = choose|q: int| 0 <= q < order.len() && order[q] == k;
                if q < rest.len() {
                    assert(rest[q] == k);
                }
            }
        }
    }
}

/// The same positions can be listed in the order of reports in one way only.
proof fn lemma_listed_once(groups: Seq<Group>, a: Seq<usize>, b: Seq<usize>)
    requires
        in_report_order(groups, a),
        in_report_order(groups, b),
        forall|k: usize| #[trigger] a.contains(k) <==> b.contains(k),
    ensures
        a == b,
    decreases a.len(),
{
    if a.len() == 0 {
        if b.len() > 0 {
            assert(b.contains(b[0]));
            assert(a.contains(b[0]));
        }
        assert(a =~= b);
    } else {
        let x = a.last();
        assert(a.contains(a[a.len() - 1]));
        assert(b.contains(x));
        let p = choose|p: int| 0 <= p < b.len() && b[p] == x;
        let y = b.last();
        assert(b.contains(b[b.len() - 1]));
        assert(a.contains(y));
        let q = choose|q: int| 0 <= q < a.len() && a[q] == y;
        if x != y {
            assert(listed_before(groups, b[p] as int, b[b.len() - 1] as int));
            assert(listed_before(groups, a[q] as int, a[a.len() - 1] as int));
        }
        let ra = a.drop_last();
        let rb = b.drop_last();
        assert forall|k: usize| #[trigger] ra.contains(k) <==> rb.contains(k) by {
            if ra.contains(k) {
                let i = choose|i: int| 0 <= i < ra.len() && ra[i] == k;
                assert(a[i] == k);
                assert(listed_before(groups, a[i] as int, a[a.len() - 1] as int));
                assert(a.contains(k));
                assert(b.contains(k));
                let j = choose|j: int| 0 <= j < b.len() && b[j] == k;
                assert(rb[j] == k);
            }
            if rb.contains(k) {
                let i = choose|i: int| 0 <= i < rb.len() && rb[i] == k;
                assert(b[i] == k);
                assert(listed_before(groups, b[i] as int, b[b.len() - 1] as int));
                assert(b.contains(k));
                assert(a.contains(k));
                let j = choose|j: int| 0 <= j < a.len() && a[j] == k;
                assert(ra[j] == k);
            }
        }
        lemma_listed_once(groups, ra, rb);
        assert(a =~= ra.push(x));
        assert(b =~= rb.push(y));
    }
}

/// A run leaves the groups of other scenarios as they are and where they are;
/// what it adds belongs to its own.
proof fn lemma_run_leaves_others(
    groups: Seq<(Key, Seq<u128>)>,
    n: usize,
    n3: usize,
    records: Seq<(Actor, Seq<char>, u128)>,
)
    ensures
        with_run(groups, n, n3, records).len() >= groups.len(),
        forall|i: int|
            0 <= i < groups.len() ==> (#[trigger] with_run(groups, n, n3, records)[i]).0
                == groups[i].0,
        forall|i: int|
            0 <= i < groups.len() && (groups[i].0.0 != n || groups[i].0.1 != n3) ==> (
            #[trigger] with_run(groups, n, n3, records)[i]) == groups[i],
        forall|i: int|
            groups.len() <= i < with_run(groups, n, n3, records).len() ==> (
            #[trigger] with_run(groups, n, n3, records)[i]).0.0 == n && with_run(
                groups,
                n,
                n3,
                records,
            )[i].0.1 == n3,
    decreases records.len(),
{
    if records.len() > 0 {
        lemma_run_leaves_others(groups, n, n3, records.drop_last());
        lemma_position(
            with_run(groups, n, n3, records.drop_last()),
            key_of(n, n3, records.last()),
        );
    }
}

/// The rows of other scenarios are those of their groups, in the order listed.
proof fn lemma_rows_of_others(
    summarizer: Summarizer,
    order: Seq<usize>,
    rows: Seq<OperationSummary>,
    n: usize,
    n3: usize,
)
    requires
        rows.len() == order.len(),
        forall|i: int|
            0 <= i < rows.len() ==> summarizes(
                #[trigger] rows[i],
                summarizer.groups@[order[i] as int],
                summarizer.runs_of(
                    summarizer.groups@[order[i] as int].n,
                    summarizer.groups@[order[i] as int].n3,
                ),
            ),
    ensures
        rows_of_others(rows, n, n3).len() == others_in(summarizer.groups@, order, n, n3).len(),
        forall|i: int|
            0 <= i < rows_of_others(rows, n, n3).len() ==> row_says(
                #[trigger] rows_of_others(rows, n, n3)[i],
                summarizer.groups@[others_in(summarizer.groups@, order, n, n3)[i] as int]@,
                summarizer.runs_of(
                    summarizer.groups@[others_in(summarizer.groups@, order, n, n3)[i] as int].n,
                    summarizer.groups@[others_in(summarizer.groups@, order, n, n3)[i] as int].n3,
                ),
            ),
    decreases rows.len(),
{
    if rows.len() > 0 {
        let last = rows.len() - 1;
        assert(summarizes(
            rows[last],
            summarizer.groups@[order[last] as int],
            summarizer.runs_of(
                summarizer.groups@[order[last] as int].n,
                summarizer.groups@[order[last] as int].n3,
            ),
        ));
        assert forall|i: int| 0 <= i < rows.drop_last().len() implies summarizes(
            #[trigger] rows.drop_last()[i],
            summarizer.groups@[order.drop_last()[i] as int],
            summarizer.runs_of(
                summarizer.groups@[order.drop_last()[i] as int].n,
                summarizer.groups@[order.drop_last()[i] as int].n3,
            ),
        ) by {
            assert(rows.drop_last()[i] == rows[i]);
        }
        lemma_rows_of_others(summarizer, order.drop_last(), rows.drop_last(), n, n3);
    }
}

/// Whether a row says this of a group's key and measurements.
spec fn row_says(row: RowView, group: (Key, Seq<u128>), runs: nat) -> bool {
    &&& row.0 == group.0
    &&& row.1 == runs
    &&& row.2 == group.1
    &&& group.1.contains(row.3)
    &&& group.1.contains(row.4)
    &&& forall|i: int| 0 <= i < group.1.len() ==> row.3 <= (#[trigger] group.1[i]) <= row.4
}

/// A run of one scenario leaves the rows of every other scenario as they were
/// and in the order in which they were, and no operation that had a row loses
/// it.
pub proof fn runs_leave_other_rows_alone(
    before: Summarizer,
    n: usize,
    n3: usize,
    records: Seq<(Actor, Seq<char>, u128)>,
    after: Summarizer,
    rows: Seq<OperationSummary>,
    new_rows: Seq<OperationSummary>,
)
    requires
        before.adds_run(n, n3, records, after),
        before.tells(rows),
        after.tells(new_rows),
    ensures
        rows_of_others(new_rows, n, n3) == rows_of_others(rows, n, n3),
        forall|i: int|
            0 <= i < rows.len() ==> exists|j: int|
                0 <= j < new_rows.len() && row_view(#[trigger] new_rows[j]).0 == row_view(
                    #[trigger] rows[i],
                ).0,
{
    let old_groups = before.groups@;
    let groups = after.groups@;
    let order = choose|order: Seq<usize>| #[trigger]
        report_order(old_groups, order) && rows.len() == order.len() && forall|i: int|
            0 <= i < rows.len() ==> summarizes(
                #[trigger] rows[i],
                old_groups[order[i] as int],
                before.runs_of(old_groups[order[i] as int].n, old_groups[order[i] as int].n3),
            );
    let new_order = choose|order: Seq<usize>| #[trigger]
        report_order(groups, order) && new_rows.len() == order.len() && forall|i: int|
            0 <= i < new_rows.len() ==> summarizes(
                #[trigger] new_rows[i],
                groups[order[i] as int],
                after.runs_of(groups[order[i] as int].n, groups[order[i] as int].n3),
            );
    let views = group_views(old_groups);
    lemma_run_leaves_others(views, n, n3, records);
    assert(group_views(groups).len() == groups.len());
    assert forall|k: int| 0 <= k < old_groups.len() implies (#[trigger] groups[k])@.0
        == old_groups[k]@.0 by {
        assert(group_views(groups)[k] == groups[k]@);
        assert(views[k] == old_groups[k]@);
    }
    assert forall|k: int|
        0 <= k < old_groups.len() && (old_groups[k].n != n || old_groups[k].n3 != n3) implies (
    #[trigger] groups[k])@ == old_groups[k]@ by {
        assert(group_views(groups)[k] == groups[k]@);
        assert(views[k] == old_groups[k]@);
    }
    assert forall|k: int| old_groups.len() <= k < groups.len() implies (#[trigger] groups[k]).n == n
        && groups[k].n3 == n3 by {
        assert(group_views(groups)[k] == groups[k]@);
    }
    lemma_others_in(old_groups, order, n, n3);
    lemma_others_in(groups, new_order, n, n3);
    let a = others_in(old_groups, order, n, n3);
    let b = others_in(groups, new_order, n, n3);
    assert forall|k: usize| #[trigger] a.contains(k) <==> b.contains(k) by {
        if a.contains(k) {
            let p = choose|p: int| 0 <= p < order.len() && order[p] == k;
            assert(order[p] < old_groups.len());
            assert(groups[k as int]@.0 == old_groups[k as int]@.0);
            assert(new_order.contains(k));
        }
        if b.contains(k) {
            let p = choose|p: int| 0 <= p < new_order.len() && new_order[p] == k;
            assert(new_order[p] < groups.len());
            assert(k < old_groups.len());
            assert(groups[k as int]@.0 == old_groups[k as int]@.0);
            assert(order.contains(k));
        }
    }
    assert(in_report_order(old_groups, b)) by {
        assert forall|i: int, j: int| 0 <= i < j < b.len() implies listed_before(
            old_groups,
            (#[trigger] b[i]) as int,
            (#[trigger] b[j]) as int,
        ) by {
            assert(b.contains(b[i]) && b.contains(b[j]));
            assert(a.contains(b[i]) && a.contains(b[j]));
            lemma_position_in(order, old_groups.len(), b[i]);
            lemma_position_in(order, old_groups.len(), b[j]);
            assert(groups[b[i] as int]@.0 == old_groups[b[i] as int]@.0);
            assert(groups[b[j] as int]@.0 == old_groups[b[j] as int]@.0);
            assert(listed_before(groups, b[i] as int, b[j] as int));
        }
    }
    lemma_listed_once(old_groups, a, b);
    lemma_rows_of_others(before, order, rows, n, n3);
    lemma_rows_of_others(after, new_order, new_rows, n, n3);
    let x = rows_of_others(rows, n, n3);
    let y = rows_of_others(new_rows, n, n3);
    assert forall|i: int| 0 <= i < x.len() implies x[i] == y[i] by {
        assert(a.contains(a[i]));
        lemma_position_in(order, old_groups.len(), a[i]);
        let k = a[i] as int;
        assert(groups[k]@ == old_groups[k]@);
        assert(after.runs_of(groups[k].n, groups[k].n3) == before.runs_of(
            groups[k].n,
            groups[k].n3,
        ));
        lemma_same_row(
            x[i],
            y[i],
            old_groups[k]@,
            before.runs_of(old_groups[k].n, old_groups[k].n3),
        );
    }
    assert(x =~= y);
    assert forall|i: int| 0 <= i < rows.len() implies exists|j: int|
        0 <= j < new_rows.len() && row_view(#[trigger] new_rows[j]).0 == row_view(
            #[trigger] rows[i],
        ).0 by {
        assert(order[i] < old_groups.len());
        let k = order[i];
        assert(new_order.contains(k));
        let j = choose|j: int| 0 <= j < new_order.len() && new_order[j] == k;
        assert(groups[k as int]@.0 == old_groups[k as int]@.0);
        assert(summarizes(
            new_rows[j],
            groups[k as int],
            after.runs_of(groups[k as int].n, groups[k as int].n3),
        ));
        assert(row_view(new_rows[j]).0 == row_view(rows[i]).0);
    }
}

proof fn lemma_position_in(order: Seq<usize>, len: nat, k: usize)
    requires
        order.contains(k),
        forall|i: int| 0 <= i < order.len() ==> (#[trigger] order[i]) < len,
    ensures
        k < len,
{
    let p = choose|p: int| 0 <= p < order.len() && order[p] == k;
    assert(order[p] < len);
}

/// Two rows that say the same of a group are the same.
proof fn lemma_same_row(a: RowView, b: RowView, group: (Key, Seq<u128>), runs: nat)
    requires
        row_says(a, group, runs),
        row_says(b, group, runs),
    ensures
        a == b,
{
    let i = choose|i: int| 0 <= i < group.1.len() && group.1[i] == a.3;
    let j = choose|j: int| 0 <= j < group.1.len() && group.1[j] == b.3;
    let k = choose|k: int| 0 <= k < group.1.len() && group.1[k] == a.4;
    let l = choose|l: int| 0 <= l < group.1.len() && group.1[l] == b.4;
    assert(group.1[i] == a.3 && group.1[j] == b.3 && group.1[k] == a.4 && group.1[l] == b.4);
}

/// There is only one order in which reports can list the groups.
pub proof fn report_order_is_unique(groups: Seq<Group>, a: Seq<usize>, b: Seq<usize>)
    requires
        report_order(groups, a),
        report_order(groups, b),
    ensures
        a == b,
{
    assert forall|k: usize| #[trigger] a.contains(k) <==> b.contains(k) by {
        if a.contains(k) {
            lemma_position_in(a, groups.len(), k);
        }
        if b.contains(k) {
            lemma_position_in(b, groups.len(), k);
        }
    }
    lemma_listed_once(groups, a, b);
}

/// A line tells a timing exactly when, without the white space around it, it
/// is `BENCH`, a comma, the phase, a comma, and the number, with or without
/// white space around that.
pub proof fn bench_lines_are_these(line: Seq<char>, phase: Seq<char>, micros: u128)
    ensures
        bench_line(line) == Some((phase, micros)) <==> free_of(phase, ',') && exists|
            rest: Seq<char>,
        |
            trim(line) == #[trigger] ("BENCH,"@ + phase + ","@ + rest) && decimal_value(trim(rest))
                == Some(micros as nat),
{
    reveal_strlit("BENCH,");
    reveal_strlit("BENCH");
    reveal_strlit(",");
    let t = trim(line);
    lemma_find(t, ',', 0);
    let first = find(t, ',', 0);
    if bench_line(line) == Some((phase, micros)) {
        assert(t.take(first).len() == "BENCH"@.len());
        assert(first == 5);
        let tail = t.skip(first + 1);
        lemma_find(tail, ',', 0);
        let second = find(tail, ',', 0);
        let rest = tail.skip(second + 1);
        assert(phase == tail.take(second));
        assert forall|i: int| 0 <= i < phase.len() implies (#[trigger] phase[i]) != ',' by {
            assert(tail[i] != ',');
        }
        assert(tail =~= phase + ","@ + rest);
        assert forall|i: int| 0 <= i < 5 implies t[i] == "BENCH"@[i] by {
            assert(t[i] == t.take(first)[i]);
        }
        assert(t =~= "BENCH,"@ + phase + ","@ + rest);
        assert(t == "BENCH,"@ + phase + ","@ + rest);
    }
    if free_of(phase, ',') && exists|rest: Seq<char>|
        t == #[trigger] ("BENCH,"@ + phase + ","@ + rest) && decimal_value(trim(rest)) == Some(
            micros as nat,
        ) {
        let rest = choose|rest: Seq<char>|
            t == #[trigger] ("BENCH,"@ + phase + ","@ + rest) && decimal_value(trim(rest)) == Some(
                micros as nat,
            );
        assert(t[5] == ',');
        assert(t[0] == 'B' && t[1] == 'E' && t[2] == 'N' && t[3] == 'C' && t[4] == 'H');
        assert(first == 5);
        assert(t.take(5) =~= "BENCH"@);
        let tail = t.skip(6);
        assert(tail =~= phase + ","@ + rest);
        lemma_find(tail, ',', 0);
        assert(tail[phase.len() as int] == ',');
        assert forall|i: int| 0 <= i < phase.len() implies tail[i] != ',' by {
            assert(tail[i] == phase[i]);
        }
        assert(find(tail, ',', 0) == phase.len());
        assert(tail.take(phase.len() as int) =~= phase);
        assert(tail.skip((phase.len() + 1) as int) =~= rest);
    }
}

/// A record's view is what the record says.
pub proof fn record_views_say_it_all(records: Seq<BenchRecord>, i: int)
    requires
        0 <= i < records.len(),
    ensures
        record_views(records).len() == records.len(),
        record_views(records)[i].0 == records[i].actor,
        record_views(records)[i].1 == records[i].phase@,
        record_views(records)[i].2 == records[i].micros,
{
}

/// The records of an output are, in order, one per line that tells a timing,
/// each with exactly the phase and the microseconds of that line.
pub proof fn one_record_per_bench_line(actor: Actor, ls: Seq<Seq<char>>) -> (positions: Seq<int>)
    ensures
        forall|i: int, j: int| 0 <= i < j < positions.len() ==> positions[i] < positions[j],
        forall|i: int| #[trigger]
            positions.contains(i) <==> 0 <= i < ls.len() && bench_line(ls[i]) is Some,
        records_in(actor, ls).len() == positions.len(),
        forall|j: int|
            0 <= j < positions.len() ==> {
                &&& 0 <= #[trigger] positions[j] < ls.len()
                &&& records_in(actor, ls)[j].0 == actor
                &&& bench_line(ls[positions[j]]) == Some(
                    (records_in(actor, ls)[j].1, records_in(actor, ls)[j].2),
                )
            },
    decreases ls.len(),
{
    if ls.len() == 0 {
        Seq::empty()
    } else {
        let rest = ls.drop_last();
        let before = one_record_per_bench_line(actor, rest);
        let last = ls.len() - 1;
        let positions = if bench_line(ls.last()) is Some {
            before.push(last)
        } else {
            before
        };
        assert forall|j: int| 0 <= j < before.len() implies 0 <= #[trigger] before[j] < last by {
            assert(before.contains(before[j]));
        }
        assert forall|i: int| #[trigger]
            positions.contains(i) <==> 0 <= i < ls.len() && bench_line(ls[i]) is Some by {
            if before.contains(i) {
                let p = choose|p: int| 0 <= p < before.len() && before[p] == i;
                assert(positions[p] == i);
                assert(rest[i] == ls[i]);
            }
            if 0 <= i < last {
                assert(rest[i] == ls[i]);
            }
            if bench_line(ls.last()) is Some {
                assert(positions[before.len() as int] == last);
            }
            if positions.contains(i) {
                let p = choose|p: int| 0 <= p < positions.len() && positions[p] == i;
                if p < before.len() {
                    assert(before[p] == i);
                }
            }
        }
        assert forall|j: int| 0 <= j < positions.len() implies {
            &&& 0 <= #[trigger] positions[j] < ls.len()
            &&& records_in(actor, ls)[j].0 == actor
            &&& bench_line(ls[positions[j]]) == Some(
                (records_in(actor, ls)[j].1, records_in(actor, ls)[j].2),
            )
        } by {
            if j < before.len() {
                assert(positions[j] == before[j]);
                assert(rest[before[j]] == ls[before[j]]);
            }
        }
        positions
    }
}

proof fn lemma_records_of_joined_lines(actor: Actor, a: Seq<Seq<char>>, b: Seq<Seq<char>>)
    ensures
        records_in(actor, a + b) == records_in(actor, a) + records_in(actor, b),
    decreases b.len(),
{
    if b.len() == 0 {
        assert(a + b =~= a);
        assert(records_in(actor, a) + records_in(actor, b) =~= records_in(actor, a));
    } else {
        lemma_records_of_joined_lines(actor, a, b.drop_last());
        assert((a + b).drop_last() =~= a + b.drop_last());
        assert((a + b).last() == b.last());
        assert(records_in(actor, a + b) =~= records_in(actor, a) + records_in(actor, b));
    }
}

/// The records of two outputs put together are those of the one and then those
/// of the other, where the first ends in a line feed.
pub proof fn records_of_joined_outputs(actor: Actor, a: Seq<char>, b: Seq<char>)
    requires
        a.len() > 0 ==> a.last() == '\n',
    ensures
        records_in(actor, lines(a + b)) == records_in(actor, lines(a)) + records_in(
            actor,
            lines(b),
        ),
{
    lines_of_joined_texts(a, b);
    lemma_records_of_joined_lines(actor, lines(a), lines(b));
}

/// Every timing that an actor tells on a line of its own is collected as it
/// was told.
pub proof fn told_timings_are_collected(actor: Actor, phase: Seq<char>, micros: u128)
    requires
        free_of(phase, ','),
        free_of(phase, '\n'),
    ensures
        records_in(actor, lines(bench_text(phase, micros) + seq!['\n'])) == seq![
            (actor, phase, micros),
        ],
{
    reveal_strlit("BENCH,");
    reveal_strlit(",");
    let text = bench_text(phase, micros);
    let number = decimal(micros as nat);
    decimals_are_digits(micros as nat);
    bench_line_round_trip(phase, micros);
    assert forall|i: int| 0 <= i < text.len() implies (#[trigger] text[i]) != '\n' by {
        if i < 6 {
            assert(text[i] == "BENCH,"@[i]);
        } else if i < 6 + phase.len() {
            assert(text[i] == phase[i - 6]);
        } else if i == 6 + phase.len() {
            assert(text[i] == ',');
        } else {
            assert(text[i] == number[i - 7 - phase.len()]);
        }
    }
    assert(text.last() == number.last());
    let none = Seq::<char>::empty();
    lines_end_at_line_feeds(text, none);
    assert(text + seq!['\n'] + none =~= text + seq!['\n']);
    let ls = seq![text];
    assert(ls + lines(none) =~= ls);
    assert(ls.drop_last() =~= Seq::<Seq<char>>::empty());
    assert(records_in(actor, ls.drop_last()) =~= Seq::<(Actor, Seq<char>, u128)>::empty());
    assert(records_in(actor, ls) =~= seq![(actor, phase, micros)]);
}

/// Under a key stand the measurements of its group; a key without a group has
/// none.
pub proof fn samples_are_those_of_the_group(groups: Seq<(Key, Seq<u128>)>, key: Key)
    requires
        distinct_keys(groups),
    ensures
        forall|i: int|
            0 <= i < groups.len() && (#[trigger] groups[i]).0 == key ==> samples_of(groups, key)
                == groups[i].1,
        (forall|i: int| 0 <= i < groups.len() ==> (#[trigger] groups[i]).0 != key) ==> samples_of(
            groups,
            key,
        ).len() == 0,
{
    lemma_position(groups, key);
    let at = position_of(groups, key);
    assert forall|i: int| 0 <= i < groups.len() && (#[trigger] groups[i]).0 == key implies samples_of(
        groups,
        key,
    ) == groups[i].1 by {
        if at < i {
            assert(groups[at].0 != groups[i].0);
        }
    }
}

/// One more record of a run joins the measurements of its scenario, of the
/// role that its actor plays and of its phase, and no others.
pub proof fn each_record_joins_its_group(
    groups: Seq<(Key, Seq<u128>)>,
    n: usize,
    n3: usize,
    records: Seq<(Actor, Seq<char>, u128)>,
    actor: Actor,
    phase: Seq<char>,
    micros: u128,
    key: Key,
)
    ensures
        with_run(groups, n, n3, Seq::empty()) == groups,
        ({
            let role = match actor {
                Actor::Signer(_) => Role::Signer,
                Actor::Combiner => Role::Combiner,
                Actor::Tracer(_) => Role::Tracer,
            };
            samples_of(with_run(groups, n, n3, records.push((actor, phase, micros))), key) == (
            if key == (n, n3, role, phase) {
                samples_of(with_run(groups, n, n3, records), key).push(micros)
            } else {
                samples_of(with_run(groups, n, n3, records), key)
            })
        }),
{
    let longer = records.push((actor, phase, micros));
    assert(longer.drop_last() =~= records);
    lemma_pooled_samples(
        with_run(groups, n, n3, records),
        key_of(n, n3, (actor, phase, micros)),
        micros,
        key,
    );
}

/// A scenario's count of runs is the one kept for it; where none is kept, it
/// is zero.
pub proof fn runs_are_those_counted(counts: Seq<RunCount>, n: usize, n3: usize)
    requires
        counted_once(counts),
    ensures
        forall|i: int|
            0 <= i < counts.len() && (#[trigger] counts[i]).n == n && counts[i].n3 == n3 ==> runs_in(
                counts,
                n,
                n3,
            ) == counts[i].count,
        (forall|i: int|
            0 <= i < counts.len() ==> (#[trigger] counts[i]).n != n || counts[i].n3 != n3)
            ==> runs_in(counts, n, n3) == 0,
{
    assert forall|i: int|
        0 <= i < counts.len() && (#[trigger] counts[i]).n == n && counts[i].n3 == n3 implies runs_in(
        counts,
        n,
        n3,
    ) == counts[i].count by {
        lemma_runs_exact(counts, i);
    }
    if forall|i: int|
        0 <= i < counts.len() ==> (#[trigger] counts[i]).n != n || counts[i].n3 != n3 {
        lemma_runs_none(counts, n, n3);
    }
}

/// The summary has one row per group, and each tells all of its group: the
/// scenario and its runs, the role, the operation, and every measurement, of
/// which it names the number, the smallest and the largest. Rows go by
/// signers, by tracers, by role - signers, combiner, tracers - and then by
/// when the operation was first seen.
pub proof fn rows_tell_everything_in_order(
    summarizer: Summarizer,
    rows: Seq<OperationSummary>,
) -> (order: Seq<usize>)
    requires
        summarizer.tells(rows),
    ensures
        rows.len() == summarizer.groups@.len(),
        order.len() == rows.len(),
        forall|k: usize| k < summarizer.groups@.len() ==> #[trigger] order.contains(k),
        forall|i: int|
            0 <= i < rows.len() ==> {
                &&& (#[trigger] order[i]) < summarizer.groups@.len()
                &&& ({
                    let group = summarizer.groups@[order[i] as int];
                    &&& rows[i].n == group.n
                    &&& rows[i].n3 == group.n3
                    &&& rows[i].role == group.role
                    &&& rows[i].operation@ == group.operation@
                    &&& rows[i].runs == runs_in(summarizer.runs@, group.n, group.n3)
                    &&& rows[i].values@ == group.values@
                    &&& rows[i].samples == group.values@.len()
                    &&& group.values@.contains(rows[i].min)
                    &&& group.values@.contains(rows[i].max)
                    &&& forall|j: int|
                        0 <= j < group.values@.len() ==> rows[i].min <= (#[trigger] group.values@[j])
                            <= rows[i].max
                })
            },
        forall|i: int, j: int|
            0 <= i < j < rows.len() ==> {
                let a = #[trigger] rows[i];
                let b = #[trigger] rows[j];
                &&& a.n <= b.n
                &&& a.n == b.n ==> a.n3 <= b.n3
                &&& a.n == b.n && a.n3 == b.n3 ==> {
                    &&& b.role == Role::Signer ==> a.role == Role::Signer
                    &&& a.role == Role::Tracer ==> b.role == Role::Tracer
                    &&& a.role == b.role ==> order[i] < order[j]
                }
            },
{
    let order = choose|order: Seq<usize>| #[trigger]
        report_order(summarizer.groups@, order) && rows.len() == order.len() && forall|i: int|
            0 <= i < rows.len() ==> summarizes(
                #[trigger] rows[i],
                summarizer.groups@[order[i] as int],
                summarizer.runs_of(
                    summarizer.groups@[order[i] as int].n,
                    summarizer.groups@[order[i] as int].n3,
                ),
            );
    let groups = summarizer.groups@;
    assert forall|i: int| 0 <= i < rows.len() implies (#[trigger] order[i]) < groups.len()
        && summarizes(
        rows[i],
        groups[order[i] as int],
        runs_in(summarizer.runs@, groups[order[i] as int].n, groups[order[i] as int].n3),
    ) by {
        assert(summarizes(
            rows[i],
            groups[order[i] as int],
            summarizer.runs_of(groups[order[i] as int].n, groups[order[i] as int].n3),
        ));
    }
    assert forall|i: int, j: int| 0 <= i < j < rows.len() implies {
        let a = #[trigger] rows[i];
        let b = #[trigger] rows[j];
        &&& a.n <= b.n
        &&& a.n == b.n ==> a.n3 <= b.n3
        &&& a.n == b.n && a.n3 == b.n3 ==> {
            &&& b.role == Role::Signer ==> a.role == Role::Signer
            &&& a.role == Role::Tracer ==> b.role == Role::Tracer
            &&& a.role == b.role ==> order[i] < order[j]
        }
    } by {
        assert(order[i] < groups.len() && order[j] < groups.len());
        assert(listed_before(groups, order[i] as int, order[j] as int));
    }
    order
}

/// A group's view is what the group says.
pub proof fn group_views_say_it_all(groups: Seq<Group>, i: int)
    requires
        0 <= i < groups.len(),
    ensures
        group_views(groups).len() == groups.len(),
        group_views(groups)[i].0.0 == groups[i].n,
        group_views(groups)[i].0.1 == groups[i].n3,
        group_views(groups)[i].0.2 == groups[i].role,
        group_views(groups)[i].0.3 == groups[i].operation@,
        group_views(groups)[i].1 == groups[i].values@,
{
}

/// A run counts once for its own scenario, and for no other: neither one with
/// another number of signers nor one with another number of tracers.
pub proof fn runs_count_for_their_scenario(
    before: Summarizer,
    n: usize,
    n3: usize,
    records: Seq<(Actor, Seq<char>, u128)>,
    after: Summarizer,
    other_n: usize,
    other_n3: usize,
)
    requires
        before.adds_run(n, n3, records, after),
    ensures
        after.runs_of(n, n3) == before.runs_of(n, n3) + 1,
        other_n != n || other_n3 != n3 ==> after.runs_of(other_n, other_n3) == before.runs_of(
            other_n,
            other_n3,
        ),
{
}

/// After a run, the measurements of every group of its scenario are the
/// earlier ones and those of this run; no other scenario's change.
pub proof fn runs_add_their_measurements(
    before: Summarizer,
    n: usize,
    n3: usize,
    records: Seq<(Actor, Seq<char>, u128)>,
    after: Summarizer,
    key: Key,
)
    requires
        before.adds_run(n, n3, records, after),
    ensures
        records.len() == 0 ==> group_views(after.groups@) == group_views(before.groups@),
        records.len() > 0 ==> {
            let (actor, phase, micros) = records.last();
            let role = match actor {
                Actor::Signer(_) => Role::Signer,
                Actor::Combiner => Role::Combiner,
                Actor::Tracer(_) => Role::Tracer,
            };
            let earlier = samples_of(
                with_run(group_views(before.groups@), n, n3, records.drop_last()),
                key,
            );
            samples_of(group_views(after.groups@), key) == if key == (n, n3, role, phase) {
                earlier.push(micros)
            } else {
                earlier
            }
        },
{
    if records.len() > 0 {
        let (actor, phase, micros) = records.last();
        each_record_joins_its_group(
            group_views(before.groups@),
            n,
            n3,
            records.drop_last(),
            actor,
            phase,
            micros,
            key,
        );
        assert(records.drop_last().push((actor, phase, micros)) =~= records);
    }
}

} // verus!

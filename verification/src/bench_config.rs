//! Command-line configuration of the benchmark suite.
use vstd::prelude::*;
use vstd::string::StringExecFns;

use crate::text::{
    chars_of, decimal, decimal_round_trip, decimal_value, parse_decimal, usize_text,
};

verus! {

/// One `(n_1, n_3)` scenario and how many times to run it.
#[derive(Debug, Clone, Copy, PartialEq, Eq, Structural)]
pub struct Scenario {
    /// Number of signers `n_1`.
    pub n: usize,
    /// Number of tracers `n_3`.
    pub n3: usize,
    /// How many times the scenario is run back to back.
    pub repeats: usize,
}

/// How to call the benchmark.
pub const USAGE: &'static str = "Usage: benchmark [<n> <n3> [<repeats>]]\n\n  <n>        number of signers (n_1), at least 1\n  <n3>       number of tracers (n_3), at least 1\n  <repeats>  how many times to run the scenario (default 1)\n\nWith no arguments, runs the default suite once per scenario.";

/// A scenario that is run once.
pub open spec fn once(n: usize, n3: usize) -> Scenario {
    Scenario { n, n3, repeats: 1 }
}

/// The suite run when no arguments are given.
pub open spec fn default_suite() -> Seq<Scenario> {
    seq![
        once(10, 1),
        once(10, 5),
        once(25, 1),
        once(25, 5),
        once(50, 1),
        once(50, 5),
        once(100, 1),
        once(100, 5),
    ]
}

/// The suite run when no arguments are given, each scenario once.
pub fn default_scenarios() -> (scenarios: Vec<Scenario>)
    ensures
        scenarios@ == default_suite(),
{
    let mut scenarios: Vec<Scenario> = Vec::new();
    scenarios.push(Scenario { n: 10, n3: 1, repeats: 1 });
    scenarios.push(Scenario { n: 10, n3: 5, repeats: 1 });
    scenarios.push(Scenario { n: 25, n3: 1, repeats: 1 });
    scenarios.push(Scenario { n: 25, n3: 5, repeats: 1 });
    scenarios.push(Scenario { n: 50, n3: 1, repeats: 1 });
    scenarios.push(Scenario { n: 50, n3: 5, repeats: 1 });
    scenarios.push(Scenario { n: 100, n3: 1, repeats: 1 });
    scenarios.push(Scenario { n: 100, n3: 5, repeats: 1 });
    scenarios
}

/// The positive number that an argument denotes, if it denotes one that fits.
pub open spec fn positive(value: Seq<char>) -> Option<usize> {
    match decimal_value(value) {
        Some(v) if 1 <= v <= usize::MAX => Some(v as usize),
        _ => None,
    }
}

/// What to say about an argument that denotes no positive number.
pub open spec fn invalid(name: Seq<char>, value: Seq<char>) -> Seq<char> {
    "Invalid "@ + name + ": '"@ + value + "' (expected an integer >= 1)"@
}

fn parse_positive(value: &str, name: &str) -> (res: Result<usize, String>)
    ensures
        match res {
            Ok(v) => positive(value@) == Some(v),
            Err(e) => positive(value@) is None && e@ == invalid(name@, value@),
        },
{
    let chars: Vec<char> = chars_of(value);
    let parsed: Option<u128> = parse_decimal(&chars, 0, chars.len(), usize::MAX as u128);
    proof {
        assert(chars@.subrange(0, chars@.len() as int) =~= value@);
    }
    if let Some(v) = parsed {
        if v >= 1 {
            return Ok(v as usize);
        }
    }
    let mut text: String = String::from_str("Invalid ");
    text.append(name);
    text.append(": '");
    text.append(value);
    text.append("' (expected an integer >= 1)");
    Err(text)
}

/// Whether `res` is what these arguments ask for.
pub open spec fn parses_to(args: Seq<String>, res: Result<Vec<Scenario>, String>) -> bool {
    if args.len() == 0 {
        res matches Ok(scenarios) && scenarios@ == default_suite()
    } else if args.len() == 2 || args.len() == 3 {
        match (positive(args[0]@), positive(args[1]@)) {
            (None, _) => res matches Err(e) && e@ == invalid("n"@, args[0]@),
            (Some(_), None) => res matches Err(e) && e@ == invalid("n3"@, args[1]@),
            (Some(n), Some(n3)) => if args.len() == 2 {
                res matches Ok(scenarios) && scenarios@ == seq![once(n, n3)]
            } else {
                match positive(args[2]@) {
                    None => res matches Err(e) && e@ == invalid("repeats"@, args[2]@),
                    Some(repeats) => res matches Ok(scenarios) && scenarios@ == seq![
                        Scenario { n, n3, repeats },
                    ],
                }
            },
        }
    } else {
        res matches Err(e) && e@ == "Expected 0, 2 or 3 arguments, got "@ + decimal(args.len())
    }
}

/// Parses the arguments after the program name.
///
/// - no arguments: the default suite;
/// - `<n> <n3>`: that scenario, once;
/// - `<n> <n3> <repeats>`: that scenario, `repeats` times.
pub fn parse_args(args: &[String]) -> (res: Result<Vec<Scenario>, String>)
    ensures
        parses_to(args@, res),
{
    if args.len() == 0 {
        return Ok(default_scenarios());
    }
    if args.len() != 2 && args.len() != 3 {
        return Err(
            String::from_str("Expected 0, 2 or 3 arguments, got ").concat(
                usize_text(args.len()).as_str(),
            ),
        );
    }
    let n: usize = match parse_positive(args[0].as_str(), "n") {
        Ok(n) => n,
        Err(e) => {
            return Err(e);
        },
    };
    let n3: usize = match parse_positive(args[1].as_str(), "n3") {
        Ok(n3) => n3,
        Err(e) => {
            return Err(e);
        },
    };
    let mut repeats: usize = 1;
    if args.len() == 3 {
        repeats =
        match parse_positive(args[2].as_str(), "repeats") {
            Ok(repeats) => repeats,
            Err(e) => {
                return Err(e);
            },
        };
    }
    let mut scenarios: Vec<Scenario> = Vec::new();
    scenarios.push(Scenario { n, n3, repeats });
    proof {
        assert(scenarios@ =~= seq![Scenario { n, n3, repeats }]);
    }
    Ok(scenarios)
}

/// Whatever the arguments ask for, there is something to run, and every
/// scenario has a signer, a tracer and a run.
pub proof fn scenarios_are_positive(args: Seq<String>, scenarios: Vec<Scenario>)
    requires
        parses_to(args, Ok(scenarios)),
    ensures
        scenarios@.len() >= 1,
        forall|i: int|
            0 <= i < scenarios@.len() ==> (#[trigger] scenarios@[i]).n >= 1 && scenarios@[i].n3 >= 1
                && scenarios@[i].repeats >= 1,
{
}

/// The default suite crosses four numbers of signers with two numbers of
/// tracers, in ascending order, and runs each scenario once.
pub proof fn default_suite_crosses_signers_and_tracers(a: int, b: int)
    requires
        0 <= a < 4,
        0 <= b < 2,
    ensures
        default_suite().len() == 4 * 2,
        default_suite()[2 * a + b].n == seq![10usize, 25usize, 50usize, 100usize][a],
        default_suite()[2 * a + b].n3 == seq![1usize, 5usize][b],
        default_suite()[2 * a + b].repeats == 1,
{
}

/// A number written in decimal is taken exactly when it is at least one and
/// fits, and what is taken denotes that number.
pub proof fn positive_numbers_are_taken(v: nat, text: Seq<char>)
    ensures
        1 <= v <= usize::MAX ==> positive(decimal(v)) == Some(v as usize),
        v == 0 || v > usize::MAX ==> positive(decimal(v)) is None,
        positive(text) is Some <==> decimal_value(text) is Some && 1 <= decimal_value(text)->0
            <= usize::MAX,
        positive(text) is Some ==> decimal_value(text) == Some(positive(text)->0 as nat),
{
    decimal_round_trip(v);
}

/// Two numbers ask for one scenario that is run once, three for one that is
/// run so often; no arguments ask for the default suite. Whatever is no
/// positive number, and any other count of arguments, is refused.
pub proof fn arguments_ask_for_these_scenarios(
    args: Seq<String>,
    res: Result<Vec<Scenario>, String>,
)
    requires
        parses_to(args, res),
    ensures
        args.len() == 0 ==> res is Ok && res->Ok_0@ == default_suite(),
        args.len() == 1 || args.len() > 3 ==> res is Err,
        args.len() == 2 ==> (res is Ok <==> positive(args[0]@) is Some && positive(
            args[1]@,
        ) is Some),
        args.len() == 3 ==> (res is Ok <==> positive(args[0]@) is Some && positive(args[1]@) is Some
            && positive(args[2]@) is Some),
        (args.len() == 2 || args.len() == 3) && res is Ok ==> {
            &&& res->Ok_0@.len() == 1
            &&& Some(res->Ok_0@[0].n) == positive(args[0]@)
            &&& Some(res->Ok_0@[0].n3) == positive(args[1]@)
            &&& args.len() == 2 ==> res->Ok_0@[0].repeats == 1
            &&& args.len() == 3 ==> Some(res->Ok_0@[0].repeats) == positive(args[2]@)
        },
{
}

/// A refusal names the argument that is at fault and quotes it: the first one
/// that is no positive number. A wrong count of arguments is named as well.
pub proof fn refusals_name_the_argument(args: Seq<String>, res: Result<Vec<Scenario>, String>)
    requires
        parses_to(args, res),
        res is Err,
    ensures
        args.len() == 2 || args.len() == 3 ==> {
            let (name, value) = if positive(args[0]@) is None {
                ("n"@, args[0]@)
            } else if positive(args[1]@) is None {
                ("n3"@, args[1]@)
            } else {
                ("repeats"@, args[2]@)
            };
            (res->Err_0)@ == "Invalid "@ + name + ": '"@ + value
                + "' (expected an integer >= 1)"@
        },
        args.len() != 2 && args.len() != 3 ==> (res->Err_0)@
            == "Expected 0, 2 or 3 arguments, got "@ + decimal(args.len()),
{
}

/// A refusal reads as five parts, of which the second is the argument's name
/// and the fourth its value.
pub proof fn refusals_have_five_parts(name: Seq<char>, value: Seq<char>)
    ensures
        invalid(name, value).take(8) == "Invalid "@,
        invalid(name, value).subrange(8, 8int + name.len()) == name,
        invalid(name, value).subrange(8int + name.len(), 11int + name.len()) == ": '"@,
        invalid(name, value).subrange(11int + name.len(), 11int + name.len() + value.len()) == value,
        invalid(name, value).skip(11int + name.len() + value.len())
            == "' (expected an integer >= 1)"@,
{
    reveal_strlit("Invalid ");
    reveal_strlit(": '");
    let text = invalid(name, value);
    assert(text.take(8) =~= "Invalid "@);
    assert(text.subrange(8, 8int + name.len()) =~= name);
    assert(text.subrange(8int + name.len(), 11int + name.len()) =~= ": '"@);
    assert(text.subrange(11int + name.len(), 11int + name.len() + value.len()) =~= value);
    assert(text.skip(11int + name.len() + value.len()) =~= "' (expected an integer >= 1)"@);
}

} // verus!

//! Builds the command line for the two process kinds.
//!
//! The launcher turns caller-supplied text (root directory, counts, world
//! file, group and agent names) into a complete spawn plan: interpreter
//! path, argument vector, working directory, and the module search path
//! handed to the child through its environment. The shell that owns the OS
//! processes spawns exactly what a plan says.

use vstd::prelude::*;
use crate::decimal::{all_digits, digits_val};
use crate::paths::python_executable;

verus! {

/// Everything a spawn needs: the program to run, its argument vector, its
/// working directory, and the value of the module search path variable
/// (`PYTHONPATH`) exposed to the child.
pub struct CommandPlan {
    pub program: String,
    pub args: Vec<String>,
    pub working_dir: String,
    pub pythonpath: String,
}

/// The argument vector of a simulator spawn: the entry script, then the
/// fixed flags — viewer disabled, agent count, output log name, world file
/// under its directory, round count, and the wait-for-client flag.
pub open spec fn simulator_args(
    root: Seq<char>,
    rounds: Seq<char>,
    agents: Seq<char>,
    world: Seq<char>,
) -> Seq<Seq<char>> {
    seq![
        root + "/src/aegis/main.py"@,
        "-NoKViewer"@,
        agents,
        "-ProcFile"@,
        "replay.txt"@,
        "-WorldFile"@,
        "worlds/"@ + world,
        "-NumRound"@,
        rounds,
        "-WaitForClient"@,
        "true"@,
    ]
}

/// The argument vector of one agent spawn: the agent kind's entry script,
/// then the group name as the sole argument.
pub open spec fn agent_args(root: Seq<char>, group: Seq<char>, agent: Seq<char>) -> Seq<Seq<char>> {
    seq![root + "/src/agents/"@ + agent + "/main.py"@, group]
}

/// The module search path exposed to every child: the source directory
/// under the root.
pub open spec fn source_path(root: Seq<char>) -> Seq<char> {
    root + "/src"@
}

/// Plans the simulator spawn. Round and agent counts are forwarded as the
/// caller wrote them, not validated here.
pub fn simulator_command(
    root_path: &str,
    num_of_rounds: &str,
    num_of_agents: &str,
    world_file: &str,
    is_windows: bool,
) -> (plan: CommandPlan)
    ensures
        plan.program@ == python_executable(root_path@, is_windows),
        plan.args.deep_view() == simulator_args(root_path@, num_of_rounds@, num_of_agents@, world_file@),
        plan.working_dir@ == root_path@,
        plan.pythonpath@ == source_path(root_path@),
{
    let program = crate::paths::get_python_executable_path(root_path, is_windows);
    let mut args: Vec<String> = Vec::new();
    args.push(String::from_str(root_path).concat("/src/aegis/main.py"));
    args.push(String::from_str("-NoKViewer"));
    args.push(String::from_str(num_of_agents));
    args.push(String::from_str("-ProcFile"));
    args.push(String::from_str("replay.txt"));
    args.push(String::from_str("-WorldFile"));
    args.push(String::from_str("worlds/").concat(world_file));
    args.push(String::from_str("-NumRound"));
    args.push(String::from_str(num_of_rounds));
    args.push(String::from_str("-WaitForClient"));
    args.push(String::from_str("true"));
    proof {
        assert(args.deep_view() =~~= simulator_args(
            root_path@,
            num_of_rounds@,
            num_of_agents@,
            world_file@,
        ));
    }
    CommandPlan {
        program,
        args,
        working_dir: String::from_str(root_path),
        pythonpath: String::from_str(root_path).concat("/src"),
    }
}

/// Plans one agent spawn for the given agent kind and group name. Every
/// instance of a batch runs exactly this plan.
pub fn agent_command(root_path: &str, group_name: &str, agent: &str, is_windows: bool) -> (plan:
    CommandPlan)
    ensures
        plan.program@ == python_executable(root_path@, is_windows),
        plan.args.deep_view() == agent_args(root_path@, group_name@, agent@),
        plan.working_dir@ == root_path@,
        plan.pythonpath@ == source_path(root_path@),
{
    let program = crate::paths::get_python_executable_path(root_path, is_windows);
    let mut args: Vec<String> = Vec::new();
    args.push(String::from_str(root_path).concat("/src/agents/").concat(agent).concat("/main.py"));
    args.push(String::from_str(group_name));
    proof {
        assert(args.deep_view() =~~= agent_args(root_path@, group_name@, agent@));
    }
    CommandPlan {
        program,
        args,
        working_dir: String::from_str(root_path),
        pythonpath: String::from_str(root_path).concat("/src"),
    }
}

/// Why an instance count failed to parse.
#[derive(Clone, Copy, Debug, PartialEq, Eq, Structural)]
pub enum CountError {
    Empty,
    InvalidDigit,
    Overflow,
}

/// The digit run of a count: an optional leading `+` sign is accepted, as
/// integer parsing accepts it, and does not belong to the digits.
pub open spec fn count_digits(s: Seq<char>) -> Seq<char> {
    if s.len() > 0 && s[0] == '+' {
        s.drop_first()
    } else {
        s
    }
}

/// What parsing an instance count yields: empty text, a non-digit after
/// the optional sign, and a value beyond `usize` each name their own
/// error; anything else is the denoted number.
pub open spec fn parse_count_spec(s: Seq<char>) -> Result<usize, CountError> {
    if s.len() == 0 {
        Err(CountError::Empty)
    } else if count_digits(s).len() == 0 || !all_digits(count_digits(s)) {
        Err(CountError::InvalidDigit)
    } else if digits_val(count_digits(s)) > usize::MAX {
        Err(CountError::Overflow)
    } else {
        Ok(digits_val(count_digits(s)) as usize)
    }
}

/// Whether `c` is a decimal digit.
fn is_digit_char(c: char) -> (b: bool)
    ensures
        b == crate::decimal::is_digit(c),
{
    c == '0' || c == '1' || c == '2' || c == '3' || c == '4' || c == '5' || c == '6' || c == '7'
        || c == '8' || c == '9'
}

/// The value of a digit character.
fn digit_value(c: char) -> (d: usize)
    requires
        crate::decimal::is_digit(c),
    ensures
        d == crate::decimal::digit_val(c),
{
    if c == '0' {
        0
    } else if c == '1' {
        1
    } else if c == '2' {
        2
    } else if c == '3' {
        3
    } else if c == '4' {
        4
    } else if c == '5' {
        5
    } else if c == '6' {
        6
    } else if c == '7' {
        7
    } else if c == '8' {
        8
    } else {
        9
    }
}

/// Parses the caller-supplied instance count, accepting exactly what
/// `parse_count_spec` accepts and naming the first reason it does not.
pub fn parse_count(s: &str) -> (r: Result<usize, CountError>)
    ensures
        r == parse_count_spec(s@),
{
    let n = s.unicode_len();
    if n == 0 {
        return Err(CountError::Empty);
    }
    let digits: &str = if s.get_char(0) == '+' {
        s.substring_char(1, n)
    } else {
        s
    };
    proof {
        if s@[0] == '+' {
            assert(digits@ =~= count_digits(s@));
        }
    }
    let m = digits.unicode_len();
    if m == 0 {
        return Err(CountError::InvalidDigit);
    }
    let mut i: usize = 0;
    while i < m
        invariant
            i <= m == digits@.len(),
            s@.len() > 0,
            digits@ == count_digits(s@),
            all_digits(digits@.take(i as int)),
        decreases m - i,
    {
        if !is_digit_char(digits.get_char(i)) {
            return Err(CountError::InvalidDigit);
        }
        proof {
            assert(digits@.take(i + 1) =~= digits@.take(i as int).push(digits@[i as int]));
        }
        i = i + 1;
    }
    proof {
        assert(digits@.take(m as int) =~= digits@);
    }
    let mut acc: usize = 0;
    i = 0;
    while i < m
        invariant
            i <= m == digits@.len(),
            s@.len() > 0,
            digits@ == count_digits(s@),
            all_digits(digits@),
            acc == digits_val(digits@.take(i as int)),
        decreases m - i,
    {
        let c = digits.get_char(i);
        let d = digit_value(c);
        proof {
            assert(digits@.take(i + 1) =~= digits@.take(i as int).push(digits@[i as int]));
            crate::decimal::lemma_digits_val_snoc(digits@.take(i as int), digits@[i as int]);
            vstd::arithmetic::div_mod::lemma_fundamental_div_mod((usize::MAX - d) as int, 10);
        }
        if acc > (usize::MAX - d) / 10 {
            proof {
                crate::decimal::lemma_digits_val_prefix_mono(digits@, i + 1, digits@.len() as int);
                assert(digits@.take(digits@.len() as int) =~= digits@);
            }
            return Err(CountError::Overflow);
        }
        acc = acc * 10 + d;
        i = i + 1;
    }
    proof {
        assert(digits@.take(m as int) =~= digits@);
    }
    Ok(acc)
}

/// The text of a count error, phrased as integer parsing phrases it.
pub open spec fn count_error_text(e: CountError) -> Seq<char> {
    match e {
        CountError::Empty => "cannot parse integer from empty string"@,
        CountError::InvalidDigit => "invalid digit found in string"@,
        CountError::Overflow => "number too large to fit in target type"@,
    }
}

/// The error text a failed batch spawn surfaces to the caller.
pub open spec fn count_error_message(e: CountError) -> Seq<char> {
    "Failed to parse num_of_agents_to_spawn: "@ + count_error_text(e)
}

/// Parses the instance count of a batch spawn, surfacing a failure as the
/// descriptive text the caller sees.
pub fn parse_agent_count(num_of_agents_to_spawn: &str) -> (r: Result<usize, String>)
    ensures
        match r {
            Ok(v) => parse_count_spec(num_of_agents_to_spawn@) == Ok::<usize, CountError>(v),
            Err(m) => {
                &&& parse_count_spec(num_of_agents_to_spawn@) is Err
                &&& m@ == count_error_message(parse_count_spec(num_of_agents_to_spawn@)->Err_0)
            },
        },
{
    match parse_count(num_of_agents_to_spawn) {
        Ok(v) => Ok(v),
        Err(e) => {
            let prefix = String::from_str("Failed to parse num_of_agents_to_spawn: ");
            let text: &'static str = match e {
                CountError::Empty => "cannot parse integer from empty string",
                CountError::InvalidDigit => "invalid digit found in string",
                CountError::Overflow => "number too large to fit in target type",
            };
            Err(prefix.concat(text))
        },
    }
}

} // verus!

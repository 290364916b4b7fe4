use aegis_backend::launcher::{
    agent_command, parse_agent_count, parse_count, simulator_command, CountError,
};

#[test]
fn simulator_command_demo_world() {
    let plan = simulator_command("/sim", "5", "2", "demo.world", false);
    assert_eq!(plan.program, "/sim/.venv/bin/python");
    assert_eq!(
        plan.args,
        vec![
            "/sim/src/aegis/main.py",
            "-NoKViewer",
            "2",
            "-ProcFile",
            "replay.txt",
            "-WorldFile",
            "worlds/demo.world",
            "-NumRound",
            "5",
            "-WaitForClient",
            "true",
        ]
    );
    assert_eq!(plan.working_dir, "/sim");
    assert_eq!(plan.pythonpath, "/sim/src");
}

#[test]
fn simulator_command_windows_interpreter() {
    let plan = simulator_command("/sim", "1", "1", "w.world", true);
    assert_eq!(plan.program, "/sim/.venv/Scripts/python");
}

#[test]
fn agent_command_sole_argument_is_group() {
    let plan = agent_command("/sim", "Team A", "example", false);
    assert_eq!(plan.program, "/sim/.venv/bin/python");
    assert_eq!(plan.args, vec!["/sim/src/agents/example/main.py", "Team A"]);
    assert_eq!(plan.working_dir, "/sim");
    assert_eq!(plan.pythonpath, "/sim/src");
}

#[test]
fn count_parses_plain_numbers() {
    assert_eq!(parse_count("0"), Ok(0));
    assert_eq!(parse_count("5"), Ok(5));
    assert_eq!(parse_count("0123"), Ok(123));
}

#[test]
fn count_accepts_a_leading_plus() {
    assert_eq!(parse_count("+5"), Ok(5));
    assert_eq!(parse_count("+0123"), Ok(123));
    assert_eq!(parse_agent_count("+3"), Ok(3));
}

#[test]
fn count_names_each_failure() {
    assert_eq!(parse_count(""), Err(CountError::Empty));
    assert_eq!(parse_count("abc"), Err(CountError::InvalidDigit));
    assert_eq!(parse_count("3x"), Err(CountError::InvalidDigit));
    assert_eq!(parse_count("-2"), Err(CountError::InvalidDigit));
    assert_eq!(parse_count("+"), Err(CountError::InvalidDigit));
    assert_eq!(parse_count("++5"), Err(CountError::InvalidDigit));
    assert_eq!(parse_count("5+"), Err(CountError::InvalidDigit));
    assert_eq!(
        parse_count("999999999999999999999999999999"),
        Err(CountError::Overflow)
    );
}

#[test]
fn agent_count_error_is_descriptive() {
    assert_eq!(parse_agent_count("3"), Ok(3));
    assert_eq!(
        parse_agent_count("abc"),
        Err("Failed to parse num_of_agents_to_spawn: invalid digit found in string".to_string())
    );
    assert_eq!(
        parse_agent_count(""),
        Err("Failed to parse num_of_agents_to_spawn: cannot parse integer from empty string"
            .to_string())
    );
}

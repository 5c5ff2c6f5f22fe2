use zek::pyrunner::capture_outcome;
use zek::pyrunner::PyRunner;

#[test]
fn test_run_script() {
    let runner = PyRunner::new();
    assert!(runner.run_script("print('Hello from test!')").is_ok());
}

#[test]
fn test_run_with_vars() {
    let runner = PyRunner::new();
    let vars = [("x", 10), ("y", 20)];
    assert!(runner
        .run_with_vars("print(f'The sum of {x} and {y} is {x + y}')", &vars)
        .is_ok());
}

#[test]
fn runtime_failure_is_contained() {
    let runner = PyRunner::new();
    let failed = runner.run_script("raise RuntimeError('scripted failure')");
    match failed {
        Err(e) => assert!(!e.message.is_empty()),
        Ok(()) => panic!("a raising script must yield an error result"),
    }
    // The host is still alive and serves the next execution.
    assert!(runner.run_script("print('still alive')").is_ok());
}

#[test]
fn variables_do_not_leak_between_runs() {
    let runner = PyRunner::new();
    let vars = [("x", 1)];
    assert!(runner.run_with_vars("probe = x", &vars).is_ok());
    // A later run without variables must not observe `x`.
    assert!(runner.run_script("probe2 = x").is_err());
}

#[test]
fn namespace_is_discarded_after_each_run() {
    let runner = PyRunner::new();
    let vars = [("x", 10), ("y", 20)];
    assert!(runner.run_with_vars("result = x + y", &vars).is_ok());
    // `result` was bound in the previous run's namespace only.
    assert!(runner.run_script("result").is_err());
}

#[test]
fn syntax_error_is_an_error_result() {
    let runner = PyRunner::new();
    let failed = runner.run_script("this is not valid syntax");
    match failed {
        Err(e) => assert!(!e.message.is_empty()),
        Ok(()) => panic!("invalid syntax must yield an error result"),
    }
    // The shell's next request is still served.
    assert!(runner.run_script("print('next prompt')").is_ok());
}

#[test]
fn system_exit_is_contained() {
    let runner = PyRunner::new();
    // A script asking the interpreter to exit must not take the host down:
    // it is an error result like any other failure.
    let failed = runner.run_script("raise SystemExit(2)");
    match failed {
        Err(e) => assert!(!e.message.is_empty()),
        Ok(()) => panic!("SystemExit must surface as an error result"),
    }
    assert!(runner.run_script("import sys\nsys.exit(3)").is_err());
    assert!(runner.run_script("print('still alive')").is_ok());
}

#[test]
fn capture_outcome_keeps_the_diagnostic() {
    assert!(capture_outcome(Ok(())).is_ok());
    match capture_outcome(Err("boom".to_string())) {
        Err(e) => assert_eq!(e.message, "boom"),
        Ok(()) => panic!("a failure must stay a failure"),
    }
    // A failure that carried no text still gets a nonempty diagnostic.
    match capture_outcome(Err(String::new())) {
        Err(e) => assert_eq!(e.message, "script execution failed"),
        Ok(()) => panic!("a failure must stay a failure"),
    }
}

#[test]
fn failure_without_text_still_carries_a_diagnostic() {
    let runner = PyRunner::new();
    // `raise RuntimeError()` has an empty str(); the bridge substitutes
    // its fixed diagnostic rather than handing back an empty message.
    match runner.run_script("raise RuntimeError()") {
        Err(e) => assert!(!e.message.is_empty()),
        Ok(()) => panic!("a raising script must yield an error result"),
    }
}

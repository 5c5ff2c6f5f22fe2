//! The script execution bridge: runs script text on the process-wide
//! embedded Python interpreter, each run in a fresh namespace, and converts
//! every interpreter-level failure into an ordinary result value, so a
//! failing script can never bring the host process down.
//!
//! Exclusive access to the interpreter is the GIL acquired by
//! `Python::with_gil` for the whole of each run; the namespace dictionaries
//! are created inside that call and dropped before it returns, so no names
//! survive from one run to the next.

use vstd::prelude::*;
use pyo3::types::IntoPyDict;

verus! {

/// The diagnostic carried by a failed script execution. The same text has
/// already been printed on the interpreter's own error channel.
pub struct ScriptError {
    pub message: String,
}

/// Handle for running scripts on the process-wide embedded interpreter.
pub struct PyRunner;

/// Relies on pyo3's `Python::with_gil`, `PyDict::new` and `Python::run`:
/// runs `script` as top-level code in a fresh, empty namespace under the
/// GIL, and hands every Python-level failure back as an `Err`. The failure
/// is shown on the interpreter's error channel with `PyErr::display`, which
/// only writes the traceback to `sys.stderr` — unlike `PyErr::print`, it
/// never takes CPython's exit path, so a script raising `SystemExit` comes
/// back as an error result like any other failure. The returned text is the
/// exception value's `str()`; when the exception has no text, or even that
/// call fails, the text is empty and the caller substitutes its own.
#[verifier::external_body]
fn py_run_fresh(script: &str) -> (r: Result<(), String>) {
    pyo3::Python::with_gil(|py| {
        let globals = pyo3::types::PyDict::new(py);
        match py.run(script, Some(globals), None) {
            Ok(()) => Ok(()),
            Err(e) => {
                e.display(py);
                Err(e.value(py).str().map_or(String::new(), |s| s.to_string_lossy().into_owned()))
            },
        }
    })
}

/// Relies on pyo3's `IntoPyDict` and `Python::run`: as `py_run_fresh`, but
/// the fresh namespace sees `vars` as local integer bindings for this run
/// alone. Failures are shown with `PyErr::display` and returned as the
/// exception value's text (possibly empty), never allowed onto CPython's
/// exit path.
#[verifier::external_body]
fn py_run_fresh_with_vars(script: &str, vars: &[(&str, i32)]) -> (r: Result<(), String>) {
    pyo3::Python::with_gil(|py| {
        let globals = pyo3::types::PyDict::new(py);
        let locals = vars.into_py_dict(py);
        match py.run(script, Some(globals), Some(locals)) {
            Ok(()) => Ok(()),
            Err(e) => {
                e.display(py);
                Err(e.value(py).str().map_or(String::new(), |s| s.to_string_lossy().into_owned()))
            },
        }
    })
}

/// Converts a raw interpreter outcome into the bridge's result type:
/// success is passed through, a failure keeps its diagnostic text word for
/// word, and a failure whose text is empty (the exception carried none) is
/// given a fixed one, so a failure is never silent.
pub fn capture_outcome(raw: Result<(), String>) -> (r: Result<(), ScriptError>)
    ensures
        r is Ok <==> raw is Ok,
        raw is Err ==> r is Err && r->Err_0.message@.len() > 0,
        raw is Err && raw->Err_0@.len() > 0 ==> r->Err_0.message == raw->Err_0,
{
    match raw {
        Ok(()) => Ok(()),
        Err(m) => {
            if m.as_str().is_empty() {
                let fallback: String = "script execution failed".to_owned();
                proof {
                    reveal_strlit("script execution failed");
                }
                Err(ScriptError { message: fallback })
            } else {
                Err(ScriptError { message: m })
            }
        },
    }
}

impl PyRunner {
    /// A fresh handle; the interpreter itself is initialized lazily, on the
    /// first run.
    pub fn new() -> Self {
        PyRunner
    }

    /// Runs `script` in a fresh, empty namespace. Whatever the script does,
    /// the call returns: success, or the failure's diagnostic as a value —
    /// and a failure always carries some diagnostic text.
    pub fn run_script(&self, script: &str) -> (r: Result<(), ScriptError>)
        ensures
            r is Err ==> r->Err_0.message@.len() > 0,
    {
        capture_outcome(py_run_fresh(script))
    }

    /// Runs `script` in a fresh namespace that is pre-populated with the
    /// integer bindings `vars`; the bindings live only for this run. A
    /// failure always carries some diagnostic text.
    pub fn run_with_vars(&self, script: &str, vars: &[(&str, i32)]) -> (r: Result<
        (),
        ScriptError,
    >)
        ensures
            r is Err ==> r->Err_0.message@.len() > 0,
    {
        capture_outcome(py_run_fresh_with_vars(script, vars))
    }
}

} // verus!

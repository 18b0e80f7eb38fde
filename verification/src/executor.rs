//! Turning a parsed command into a launch plan: which files to open with
//! which flags, which program to start with which arguments, and whether to
//! wait for it. Carrying the plan out — opening, spawning, waiting — is file
//! and process work and happens outside this crate.

use vstd::prelude::*;
use crate::parser::ParsedCommand;

verus! {

/// A request to open one file, with the exact flag set the opener must use.
pub struct OpenRequest {
    pub path: String,
    pub read: bool,
    pub write: bool,
    pub create: bool,
    pub append: bool,
    pub truncate: bool,
}

/// Everything the launch of one command needs: the program name, its
/// arguments, at most one file to open for standard input, at most one to
/// open for standard output, and whether to wait for the child. When
/// `output_open` is `None` the child inherits the interpreter's standard
/// output; standard error is always inherited.
pub struct ExecutionPlan {
    pub program: String,
    pub args: Vec<String>,
    pub input_open: Option<OpenRequest>,
    pub output_open: Option<OpenRequest>,
    pub wait: bool,
}

/// Why carrying a plan out failed.
#[derive(Debug)]
pub enum ExecError {
    /// A redirection target could not be opened; nothing was spawned.
    RedirectOpenFailed { path: String, cause: String },
    /// The operating system could not create the child process.
    SpawnFailed { cause: String },
}

impl ExecError {
    /// A human-readable account of the failure.
    pub fn message(&self) -> (r: String)
        ensures
            (match self {
                ExecError::RedirectOpenFailed { path, cause } => r@ == path@ + ": "@ + cause@,
                ExecError::SpawnFailed { cause } => r@ == cause@,
            }),
    {
        match self {
            ExecError::RedirectOpenFailed { path, cause } => path.clone().concat(": ").concat(
                cause.as_str(),
            ),
            ExecError::SpawnFailed { cause } => cause.clone(),
        }
    }
}

/// Builds the launch plan for a parsed command: `arguments[0]` becomes the
/// program, the remaining arguments its argument vector in order; an input
/// target is opened read-only; an output target is opened for writing with
/// creation permitted, appending when `append_mode` is set and truncating
/// otherwise; and the child is waited for exactly when it does not run in
/// the background.
pub fn execution_plan(parsed: &ParsedCommand) -> (plan: ExecutionPlan)
    requires
        parsed@.arguments.len() > 0,
    ensures
        plan.program@ == parsed@.arguments[0],
        plan.args.deep_view() == parsed@.arguments.skip(1),
        (match parsed@.input_target {
            Some(p) => plan.input_open matches Some(o) && o.path@ == p && o.read && !o.write
                && !o.create && !o.append && !o.truncate,
            None => plan.input_open is None,
        }),
        (match parsed@.output_target {
            Some(p) => plan.output_open matches Some(o) && o.path@ == p && !o.read && o.write
                && o.create && o.append == parsed@.append_mode && o.truncate
                == !parsed@.append_mode,
            None => plan.output_open is None,
        }),
        plan.wait == !parsed@.background,
{
    let program = parsed.arguments[0].clone();
    let mut args: Vec<String> = Vec::new();
    let mut i: usize = 1;
    proof {
        assert(args.deep_view() =~= parsed@.arguments.subrange(1, 1));
    }
    while i < parsed.arguments.len()
        invariant
            1 <= i <= parsed.arguments.len(),
            parsed@.arguments.len() == parsed.arguments.len(),
            args.deep_view() == parsed@.arguments.subrange(1, i as int),
        decreases parsed.arguments.len() - i,
    {
        let ghost old_args = args.deep_view();
        args.push(parsed.arguments[i].clone());
        proof {
            assert(parsed@.arguments[i as int] == parsed.arguments@[i as int]@);
            assert(args.deep_view() =~= old_args.push(parsed@.arguments[i as int]));
            assert(args.deep_view() =~= parsed@.arguments.subrange(1, i as int + 1));
        }
        i = i + 1;
    }
    proof {
        assert(parsed@.arguments.subrange(1, parsed.arguments@.len() as int) =~= parsed@.arguments
            .skip(1));
    }
    let input_open = match &parsed.input_target {
        None => None,
        Some(p) => Some(
            OpenRequest {
                path: p.clone(),
                read: true,
                write: false,
                create: false,
                append: false,
                truncate: false,
            },
        ),
    };
    let output_open = match &parsed.output_target {
        None => None,
        Some(p) => Some(
            OpenRequest {
                path: p.clone(),
                read: false,
                write: true,
                create: true,
                append: parsed.append_mode,
                truncate: !parsed.append_mode,
            },
        ),
    };
    ExecutionPlan { program, args, input_open, output_open, wait: !parsed.background }
}

} // verus!

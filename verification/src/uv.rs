use vstd::prelude::*;
use vstd::utf8::{decode_utf8, valid_utf8};
use crate::text::{
    decimal, lemma_nonblank_lines_one_line, lemma_nonblank_lines_split, nonblank_lines,
    nonblank_lines_of, push_decimal, string_push, texts, trim, trimmed,
    utf8_to_string,
};

verus! {

/// The Python version the application's virtual environment is made with.
pub const UV_PYTHON: &'static str = "3.11";

/// The `uv` arguments that create the virtual environment in `venv_dir`.
pub fn venv_create_args(venv_dir: &str) -> (args: Vec<String>)
    ensures
        texts(args@) == seq!["venv"@, "--python"@, UV_PYTHON@, venv_dir@],
{
    let mut args: Vec<String> = Vec::new();
    args.push(String::from_str("venv"));
    args.push(String::from_str("--python"));
    args.push(String::from_str(UV_PYTHON));
    args.push(String::from_str(venv_dir));
    proof {
        assert(texts(args@) =~= seq!["venv"@, "--python"@, UV_PYTHON@, venv_dir@]);
    }
    args
}

/// The `uv` arguments that install the requirements file into the virtual
/// environment whose interpreter is `python`.
pub fn pip_install_args(requirements: &str, python: &str) -> (args: Vec<String>)
    ensures
        texts(args@) == seq!["pip"@, "install"@, "-r"@, requirements@, "--python"@, python@],
{
    let mut args: Vec<String> = Vec::new();
    args.push(String::from_str("pip"));
    args.push(String::from_str("install"));
    args.push(String::from_str("-r"));
    args.push(String::from_str(requirements));
    args.push(String::from_str("--python"));
    args.push(String::from_str(python));
    proof {
        assert(texts(args@) =~= seq!["pip"@, "install"@, "-r"@, requirements@, "--python"@, python@]);
    }
    args
}

/// A step of setting up and starting the server that can fail.
#[derive(Debug, Clone, Copy, PartialEq, Eq)]
pub enum SetupFailure {
    /// The application's data folder could not be created.
    AppDataDir,
    /// `uv venv` failed.
    VenvCreate,
    /// `uv pip install` failed.
    DepsInstall,
    /// The bundled `uv` could not be found.
    UvSidecar,
    /// `uv` could not be started.
    UvSpawn,
    /// `bootstrap.py` is missing from the resources.
    BootstrapMissing,
    /// The server process could not be started.
    ServerLaunch,
}

/// The text before and after the detail in the message for `kind`.
pub open spec fn failure_frame(kind: SetupFailure) -> (Seq<char>, Seq<char>) {
    match kind {
        SetupFailure::AppDataDir => ("Cannot create app data dir: "@, ""@),
        SetupFailure::VenvCreate => ("Could not create Python environment.\n\n"@, ""@),
        SetupFailure::DepsInstall => ("Could not install Python dependencies.\n\n"@, ""@),
        SetupFailure::UvSidecar => (
            "uv sidecar unavailable: "@,
            "\nRun `cargo build` to download it."@,
        ),
        SetupFailure::UvSpawn => ("Failed to spawn uv: "@, ""@),
        SetupFailure::BootstrapMissing => ("bootstrap.py not found:\n"@, ""@),
        SetupFailure::ServerLaunch => ("Could not launch server:\n"@, ""@),
    }
}

/// The message shown when the step `kind` failed; `detail` is the cause.
pub fn setup_failure_message(kind: SetupFailure, detail: &str) -> (msg: String)
    ensures
        msg@ == failure_frame(kind).0 + detail@ + failure_frame(kind).1,
{
    let (before, after) = match kind {
        SetupFailure::AppDataDir => ("Cannot create app data dir: ", ""),
        SetupFailure::VenvCreate => ("Could not create Python environment.\n\n", ""),
        SetupFailure::DepsInstall => ("Could not install Python dependencies.\n\n", ""),
        SetupFailure::UvSidecar => (
            "uv sidecar unavailable: ",
            "\nRun `cargo build` to download it.",
        ),
        SetupFailure::UvSpawn => ("Failed to spawn uv: ", ""),
        SetupFailure::BootstrapMissing => ("bootstrap.py not found:\n", ""),
        SetupFailure::ServerLaunch => ("Could not launch server:\n", ""),
    };
    let mut msg = String::from_str(before);
    msg.append(detail);
    msg.append(after);
    msg
}

/// Where setting up the application's virtual environment stands.
#[derive(Debug, Clone, Copy, PartialEq, Eq)]
pub enum VenvStage {
    /// Looking whether its interpreter already exists.
    CheckPython,
    /// Creating the application's data folder.
    CreateDataDir,
    /// Running `uv venv`.
    CreateVenv,
    /// Running `uv pip install`.
    InstallDeps,
    /// Finished, one way or the other.
    Done,
}

/// A `uv` command of the set-up.
#[derive(Debug, Clone, Copy, PartialEq, Eq)]
pub enum UvTask {
    /// `uv venv` (arguments: `venv_create_args`).
    CreateVenv,
    /// `uv pip install` (arguments: `pip_install_args`).
    InstallDeps,
}

/// What the application reports back while setting up the environment.
pub enum VenvEvent {
    /// Whether the environment's interpreter exists.
    PythonExists(bool),
    /// How creating the data folder went (the cause on failure).
    DataDirCreated(Result<(), String>),
    /// How the `uv` command went (its message on failure).
    UvFinished(Result<(), String>),
}

/// What to do next while setting up the environment.
pub enum VenvAction {
    /// Create the application's data folder.
    CreateDataDir,
    /// Show `status` as progress, then run the `uv` command `task`.
    RunUv { task: UvTask, status: String },
    /// Stop: the environment is ready, or the message why it is not.
    Finish(Result<(), String>),
}

/// The event `event` is the answer to the request made in `stage`.
pub open spec fn venv_event_fits(stage: VenvStage, event: VenvEvent) -> bool {
    match (stage, event) {
        (VenvStage::CheckPython, VenvEvent::PythonExists(_)) => true,
        (VenvStage::CreateDataDir, VenvEvent::DataDirCreated(_)) => true,
        (VenvStage::CreateVenv, VenvEvent::UvFinished(_)) => true,
        (VenvStage::InstallDeps, VenvEvent::UvFinished(_)) => true,
        _ => false,
    }
}

/// Whether `event` answers the request made in `stage`.
pub fn venv_event_fits_stage(stage: &VenvStage, event: &VenvEvent) -> (r: bool)
    ensures
        r == venv_event_fits(*stage, *event),
{
    match (stage, event) {
        (VenvStage::CheckPython, VenvEvent::PythonExists(_)) => true,
        (VenvStage::CreateDataDir, VenvEvent::DataDirCreated(_)) => true,
        (VenvStage::CreateVenv, VenvEvent::UvFinished(_)) => true,
        (VenvStage::InstallDeps, VenvEvent::UvFinished(_)) => true,
        _ => false,
    }
}

/// The failure `kind` with the cause `detail`, as `setup_failure_message`
/// writes it.
pub open spec fn failure_text(kind: SetupFailure, detail: Seq<char>) -> Seq<char> {
    failure_frame(kind).0 + detail + failure_frame(kind).1
}

impl VenvStage {
    /// One step of setting up the virtual environment: an existing
    /// interpreter ends it at once; otherwise the data folder is created,
    /// then `uv venv`, then `uv pip install` are run, each with its progress
    /// line, and the first failure ends it with its message.
    pub fn step(&mut self, event: VenvEvent) -> (action: VenvAction)
        requires
            venv_event_fits(*old(self), event),
        ensures
            match (*old(self), event) {
                (VenvStage::CheckPython, VenvEvent::PythonExists(true)) => {
                    &&& *final(self) == VenvStage::Done
                    &&& action matches VenvAction::Finish(Ok(()))
                },
                (VenvStage::CheckPython, VenvEvent::PythonExists(false)) => {
                    &&& *final(self) == VenvStage::CreateDataDir
                    &&& action matches VenvAction::CreateDataDir
                },
                (VenvStage::CreateDataDir, VenvEvent::DataDirCreated(Ok(()))) => {
                    &&& *final(self) == VenvStage::CreateVenv
                    &&& action matches VenvAction::RunUv { task, status } && task == UvTask::CreateVenv
                        && status@ == "Setting up Python environment (first launch)\u{2026}"@
                },
                (VenvStage::CreateDataDir, VenvEvent::DataDirCreated(Err(e))) => {
                    &&& *final(self) == VenvStage::Done
                    &&& action matches VenvAction::Finish(Err(m)) && m@ == failure_text(
                        SetupFailure::AppDataDir,
                        e@,
                    )
                },
                (VenvStage::CreateVenv, VenvEvent::UvFinished(Ok(()))) => {
                    &&& *final(self) == VenvStage::InstallDeps
                    &&& action matches VenvAction::RunUv { task, status } && task == UvTask::InstallDeps
                        && status@ == "Installing Python dependencies\u{2026}"@
                },
                (VenvStage::CreateVenv, VenvEvent::UvFinished(Err(e))) => {
                    &&& *final(self) == VenvStage::Done
                    &&& action matches VenvAction::Finish(Err(m)) && m@ == failure_text(
                        SetupFailure::VenvCreate,
                        e@,
                    )
                },
                (VenvStage::InstallDeps, VenvEvent::UvFinished(Ok(()))) => {
                    &&& *final(self) == VenvStage::Done
                    &&& action matches VenvAction::Finish(Ok(()))
                },
                (VenvStage::InstallDeps, VenvEvent::UvFinished(Err(e))) => {
                    &&& *final(self) == VenvStage::Done
                    &&& action matches VenvAction::Finish(Err(m)) && m@ == failure_text(
                        SetupFailure::DepsInstall,
                        e@,
                    )
                },
                _ => false,
            },
    {
        match event {
            VenvEvent::PythonExists(exists) => {
                if exists {
                    *self = VenvStage::Done;
                    VenvAction::Finish(Ok(()))
                } else {
                    *self = VenvStage::CreateDataDir;
                    VenvAction::CreateDataDir
                }
            },
            VenvEvent::DataDirCreated(Ok(())) => {
                *self = VenvStage::CreateVenv;
                VenvAction::RunUv {
                    task: UvTask::CreateVenv,
                    status: String::from_str("Setting up Python environment (first launch)\u{2026}"),
                }
            },
            VenvEvent::DataDirCreated(Err(e)) => {
                *self = VenvStage::Done;
                VenvAction::Finish(Err(setup_failure_message(SetupFailure::AppDataDir, e.as_str())))
            },
            VenvEvent::UvFinished(Ok(())) => {
                if matches!(*self, VenvStage::CreateVenv) {
                    *self = VenvStage::InstallDeps;
                    VenvAction::RunUv {
                        task: UvTask::InstallDeps,
                        status: String::from_str("Installing Python dependencies\u{2026}"),
                    }
                } else {
                    *self = VenvStage::Done;
                    VenvAction::Finish(Ok(()))
                }
            },
            VenvEvent::UvFinished(Err(e)) => {
                let kind = if matches!(*self, VenvStage::CreateVenv) {
                    SetupFailure::VenvCreate
                } else {
                    SetupFailure::DepsInstall
                };
                *self = VenvStage::Done;
                VenvAction::Finish(Err(setup_failure_message(kind, e.as_str())))
            },
        }
    }
}

/// What the running `uv` process reports.
pub enum UvEvent {
    /// Bytes it wrote to standard output or standard error.
    Output(Vec<u8>),
    /// It ended, with this exit code (none when killed by a signal).
    Terminated(Option<i32>),
    /// Its event channel closed without a termination report.
    Closed,
    /// Anything else.
    Other,
}

/// What to do after an event of the running `uv` process.
pub enum UvStep {
    /// Keep waiting; show this line as the progress status, if any.
    Continue(Option<String>),
    /// `uv` is done, with this outcome.
    Finished(Result<(), String>),
}

/// A running `uv` command: its first argument and everything it printed.
pub struct UvRun {
    pub command: String,
    pub output: String,
}

/// `code` as Rust's `Debug` writes an optional exit code.
pub open spec fn exit_code_text(code: Option<i32>) -> Seq<char> {
    match code {
        Some(n) => "Some("@ + (if n < 0 {
            "-"@ + decimal((-n) as nat)
        } else {
            decimal(n as nat)
        }) + ")"@,
        None => "None"@,
    }
}

/// The error for a `uv` command that exited with `code`.
pub open spec fn uv_failure_text(command: Seq<char>, code: Option<i32>, output: Seq<char>) -> Seq<char> {
    "uv "@ + command + " failed (exit "@ + exit_code_text(code) + ")\n"@ + trimmed(output)
}

/// The progress line for a piece of output: its last non-blank line, trimmed.
pub open spec fn status_line(text: Seq<char>) -> Option<Seq<char>> {
    let lines = nonblank_lines(text);
    if lines.len() > 0 {
        Some(lines.last())
    } else {
        None
    }
}

/// Law: the progress line of a single line is that line trimmed, or
/// nothing when it is blank; and the progress line of two pieces of output
/// joined by a line break is that of the second piece, or that of the first
/// when the second is blank. So it is the last non-blank line, trimmed.
pub proof fn lemma_status_line_is_last(a: Seq<char>, b: Seq<char>)
    ensures
        !b.contains('\n') ==> status_line(b) == (if trimmed(b).len() > 0 {
            Some(trimmed(b))
        } else {
            None
        }),
        status_line(a + seq!['\n'] + b) == (if status_line(b) is Some {
            status_line(b)
        } else {
            status_line(a)
        }),
{
    if !b.contains('\n') {
        lemma_nonblank_lines_one_line(b);
    }
    lemma_nonblank_lines_split(a, b);
    let la = nonblank_lines(a);
    let lb = nonblank_lines(b);
    if lb.len() > 0 {
        assert((la + lb).last() == lb.last());
    } else {
        assert(la + lb =~= la);
    }
}

fn push_exit_code(s: &mut String, code: Option<i32>)
    ensures
        final(s)@ == old(s)@ + exit_code_text(code),
{
    match code {
        Some(n) => {
            s.append("Some(");
            if n < 0 {
                string_push(s, '-');
                let m: i64 = n as i64;
                push_decimal(s, (-m) as u64);
            } else {
                push_decimal(s, n as u64);
            }
            s.append(")");
            proof {
                reveal_strlit("-");
                assert(final(s)@ =~= old(s)@ + exit_code_text(code));
            }
        },
        None => {
            s.append("None");
        },
    }
}

impl UvRun {
    /// A `uv` run started with `args`, before any output.
    pub fn new(args: &Vec<String>) -> (run: Self)
        ensures
            run.command@ == (if args@.len() > 0 {
                args@[0]@
            } else {
                Seq::empty()
            }),
            run.output@ == Seq::<char>::empty(),
    {
        let command = if args.len() > 0 {
            args[0].clone()
        } else {
            String::new()
        };
        UvRun { command, output: String::new() }
    }

    /// Takes in one event of the `uv` process: output is collected and its
    /// last non-blank line shown as progress (output that is not UTF-8 is
    /// skipped); exit code 0 or a closed channel is success, any other end
    /// is an error that names the command, the exit code and the output.
    pub fn step(&mut self, event: UvEvent) -> (step: UvStep)
        ensures
            final(self).command == old(self).command,
            match event {
                UvEvent::Output(bytes) => if valid_utf8(bytes@) {
                    &&& final(self).output@ == old(self).output@ + decode_utf8(bytes@)
                    &&& step matches UvStep::Continue(line) && match (line, status_line(decode_utf8(bytes@))) {
                        (Some(l), Some(t)) => l@ == t,
                        (None, None) => true,
                        _ => false,
                    }
                } else {
                    &&& final(self).output == old(self).output
                    &&& step matches UvStep::Continue(None)
                },
                UvEvent::Terminated(code) => {
                    &&& final(self).output == old(self).output
                    &&& if code == Some(0i32) {
                        step matches UvStep::Finished(Ok(()))
                    } else {
                        step matches UvStep::Finished(Err(m)) && m@ == uv_failure_text(
                            old(self).command@,
                            code,
                            old(self).output@,
                        )
                    }
                },
                UvEvent::Closed => {
                    &&& final(self).output == old(self).output
                    &&& step matches UvStep::Finished(Ok(()))
                },
                UvEvent::Other => {
                    &&& final(self).output == old(self).output
                    &&& step matches UvStep::Continue(None)
                },
            },
    {
        match event {
            UvEvent::Output(bytes) => {
                match utf8_to_string(bytes.as_slice()) {
                    Some(text) => {
                        self.output.append(text.as_str());
                        let lines = nonblank_lines_of(text.as_str());
                        if lines.len() > 0 {
                            let last = lines[lines.len() - 1].clone();
                            proof {
                                assert(texts(lines@).last() == lines@.last()@);
                            }
                            UvStep::Continue(Some(last))
                        } else {
                            UvStep::Continue(None)
                        }
                    },
                    None => UvStep::Continue(None),
                }
            },
            UvEvent::Terminated(code) => {
                if code == Some(0i32) {
                    UvStep::Finished(Ok(()))
                } else {
                    let mut msg = String::from_str("uv ");
                    msg.append(self.command.as_str());
                    msg.append(" failed (exit ");
                    push_exit_code(&mut msg, code);
                    msg.append(")\n");
                    let out = trim(self.output.as_str());
                    msg.append(out.as_str());
                    UvStep::Finished(Err(msg))
                }
            },
            UvEvent::Closed => UvStep::Finished(Ok(())),
            UvEvent::Other => UvStep::Continue(None),
        }
    }
}

} // verus!

use hermes_webui_desktop::uv::{
    pip_install_args, setup_failure_message, venv_create_args, venv_event_fits_stage,
    SetupFailure, UvEvent, UvRun, UvStep, UvTask, VenvAction, VenvEvent, VenvStage, UV_PYTHON,
};

fn strings(v: &[&str]) -> Vec<String> {
    v.iter().map(|s| s.to_string()).collect()
}

#[test]
fn venv_args() {
    assert_eq!(UV_PYTHON, "3.11");
    assert_eq!(venv_create_args("/data/venv"), strings(&["venv", "--python", "3.11", "/data/venv"]));
}

#[test]
fn pip_args() {
    assert_eq!(
        pip_install_args("/res/requirements.txt", "/data/venv/bin/python"),
        strings(&["pip", "install", "-r", "/res/requirements.txt", "--python", "/data/venv/bin/python"])
    );
}

#[test]
fn failure_messages() {
    assert_eq!(setup_failure_message(SetupFailure::AppDataDir, "denied"), "Cannot create app data dir: denied");
    assert_eq!(
        setup_failure_message(SetupFailure::VenvCreate, "uv venv failed"),
        "Could not create Python environment.\n\nuv venv failed"
    );
    assert_eq!(
        setup_failure_message(SetupFailure::DepsInstall, "x"),
        "Could not install Python dependencies.\n\nx"
    );
    assert_eq!(
        setup_failure_message(SetupFailure::UvSidecar, "not found"),
        "uv sidecar unavailable: not found\nRun `cargo build` to download it."
    );
    assert_eq!(setup_failure_message(SetupFailure::UvSpawn, "e"), "Failed to spawn uv: e");
    assert_eq!(
        setup_failure_message(SetupFailure::BootstrapMissing, "/res/bootstrap.py"),
        "bootstrap.py not found:\n/res/bootstrap.py"
    );
    assert_eq!(setup_failure_message(SetupFailure::ServerLaunch, "e"), "Could not launch server:\ne");
}

fn status(step: UvStep) -> Option<String> {
    match step {
        UvStep::Continue(s) => s,
        UvStep::Finished(_) => panic!("uv run ended early"),
    }
}

fn outcome(step: UvStep) -> Result<(), String> {
    match step {
        UvStep::Finished(r) => r,
        UvStep::Continue(_) => panic!("uv run did not end"),
    }
}

#[test]
fn uv_run_names_first_argument() {
    let run = UvRun::new(&strings(&["pip", "install"]));
    assert_eq!(run.command, "pip");
    assert_eq!(run.output, "");
    assert_eq!(UvRun::new(&vec![]).command, "");
}

#[test]
fn uv_output_shows_last_nonblank_line() {
    let mut run = UvRun::new(&strings(&["venv"]));
    assert_eq!(status(run.step(UvEvent::Output(b"Resolved 3\n  Installing foo  \n\n".to_vec()))), Some("Installing foo".into()));
    assert_eq!(status(run.step(UvEvent::Output(b"   \n".to_vec()))), None);
    assert_eq!(run.output, "Resolved 3\n  Installing foo  \n\n   \n");
}

#[test]
fn uv_output_that_is_not_utf8_is_skipped() {
    let mut run = UvRun::new(&strings(&["venv"]));
    assert_eq!(status(run.step(UvEvent::Output(vec![0xff, b'a']))), None);
    assert_eq!(run.output, "");
    assert_eq!(status(run.step(UvEvent::Output("héllo".as_bytes().to_vec()))), Some("héllo".into()));
}

#[test]
fn uv_exit_zero_is_success() {
    let mut run = UvRun::new(&strings(&["venv"]));
    assert_eq!(outcome(run.step(UvEvent::Terminated(Some(0)))), Ok(()));
}

#[test]
fn uv_closed_channel_is_success() {
    let mut run = UvRun::new(&strings(&["venv"]));
    assert_eq!(outcome(run.step(UvEvent::Closed)), Ok(()));
}

#[test]
fn uv_other_events_are_ignored() {
    let mut run = UvRun::new(&strings(&["venv"]));
    assert_eq!(status(run.step(UvEvent::Other)), None);
}

#[test]
fn uv_failure_reports_code_and_output() {
    let mut run = UvRun::new(&strings(&["venv", "--python", "3.11"]));
    let _ = run.step(UvEvent::Output(b"  error: no python\n".to_vec()));
    assert_eq!(
        outcome(run.step(UvEvent::Terminated(Some(2)))),
        Err("uv venv failed (exit Some(2))\nerror: no python".to_string())
    );
}

#[test]
fn uv_failure_without_code_or_output() {
    let mut run = UvRun::new(&strings(&["pip"]));
    assert_eq!(outcome(run.step(UvEvent::Terminated(None))), Err("uv pip failed (exit None)\n".to_string()));
    let mut run = UvRun::new(&strings(&["pip"]));
    assert_eq!(
        outcome(run.step(UvEvent::Terminated(Some(-1)))),
        Err("uv pip failed (exit Some(-1))\n".to_string())
    );
    let mut run = UvRun::new(&strings(&["pip"]));
    assert_eq!(
        outcome(run.step(UvEvent::Terminated(Some(i32::MIN)))),
        Err(format!("uv pip failed (exit {:?})\n", Some(i32::MIN)))
    );
}

fn run_uv(step: VenvAction) -> (UvTask, String) {
    match step {
        VenvAction::RunUv { task, status } => (task, status),
        _ => panic!("expected a uv command"),
    }
}

fn finish(step: VenvAction) -> Result<(), String> {
    match step {
        VenvAction::Finish(r) => r,
        _ => panic!("expected the end of the set-up"),
    }
}

#[test]
fn venv_setup_stops_when_python_exists() {
    let mut stage = VenvStage::CheckPython;
    assert_eq!(finish(stage.step(VenvEvent::PythonExists(true))), Ok(()));
    assert_eq!(stage, VenvStage::Done);
}

#[test]
fn venv_setup_runs_all_steps() {
    let mut stage = VenvStage::CheckPython;
    assert!(matches!(stage.step(VenvEvent::PythonExists(false)), VenvAction::CreateDataDir));
    let (task, status) = run_uv(stage.step(VenvEvent::DataDirCreated(Ok(()))));
    assert_eq!(task, UvTask::CreateVenv);
    assert_eq!(status, "Setting up Python environment (first launch)…");
    let (task, status) = run_uv(stage.step(VenvEvent::UvFinished(Ok(()))));
    assert_eq!(task, UvTask::InstallDeps);
    assert_eq!(status, "Installing Python dependencies…");
    assert_eq!(finish(stage.step(VenvEvent::UvFinished(Ok(())))), Ok(()));
    assert_eq!(stage, VenvStage::Done);
}

#[test]
fn venv_setup_stops_at_first_failure() {
    let mut stage = VenvStage::CreateDataDir;
    assert_eq!(
        finish(stage.step(VenvEvent::DataDirCreated(Err("denied".into())))),
        Err("Cannot create app data dir: denied".to_string())
    );
    let mut stage = VenvStage::CreateVenv;
    assert_eq!(
        finish(stage.step(VenvEvent::UvFinished(Err("uv venv failed".into())))),
        Err("Could not create Python environment.\n\nuv venv failed".to_string())
    );
    assert_eq!(stage, VenvStage::Done);
    let mut stage = VenvStage::InstallDeps;
    assert_eq!(
        finish(stage.step(VenvEvent::UvFinished(Err("boom".into())))),
        Err("Could not install Python dependencies.\n\nboom".to_string())
    );
}

#[test]
fn venv_events_fit_their_stage() {
    assert!(venv_event_fits_stage(&VenvStage::CheckPython, &VenvEvent::PythonExists(false)));
    assert!(venv_event_fits_stage(&VenvStage::InstallDeps, &VenvEvent::UvFinished(Ok(()))));
    assert!(!venv_event_fits_stage(&VenvStage::CheckPython, &VenvEvent::UvFinished(Ok(()))));
    assert!(!venv_event_fits_stage(&VenvStage::Done, &VenvEvent::PythonExists(true)));
}

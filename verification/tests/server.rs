use hermes_webui_desktop::server::{
    augmented_path, hermes_cli_candidates, server_env, server_python, server_shell_command,
    keep_log_line, pick_hermes_python, server_timeout_message, server_windows_args,
    shebang_interpreter, strip_unc_prefix, venv_python, wait_step, WaitStep, LOG_TAIL_LINES,
    SERVER_POLL_ATTEMPTS, SERVER_POLL_MILLIS,
};
use hermes_webui_desktop::text::{char_is_whitespace, nonblank_lines_of, trim};

#[test]
fn wait_stops_when_server_answers() {
    assert_eq!(wait_step(0, true), WaitStep::Ready);
    assert_eq!(wait_step(119, true), WaitStep::Ready);
}

#[test]
fn wait_retries_then_gives_up_after_sixty_seconds() {
    assert_eq!(wait_step(0, false), WaitStep::SleepThenRetry);
    assert_eq!(wait_step(118, false), WaitStep::SleepThenRetry);
    assert_eq!(wait_step(119, false), WaitStep::SleepThenGiveUp);
    assert_eq!(SERVER_POLL_ATTEMPTS as u64 * SERVER_POLL_MILLIS, 60_000);
}

#[test]
fn venv_python_location() {
    assert_eq!(venv_python(true), vec!["Scripts".to_string(), "python.exe".into()]);
    assert_eq!(venv_python(false), vec!["bin".to_string(), "python".into()]);
}

#[test]
fn unc_prefix_is_stripped() {
    assert_eq!(strip_unc_prefix(r"\\?\C:\Users\me\venv"), r"C:\Users\me\venv");
    assert_eq!(strip_unc_prefix(r"C:\Users\me\venv"), r"C:\Users\me\venv");
    assert_eq!(strip_unc_prefix("/home/me/venv"), "/home/me/venv");
    assert_eq!(strip_unc_prefix(r"\\?"), r"\\?");
}

#[test]
fn server_python_prefers_hermes_interpreter() {
    assert_eq!(server_python(Some("/opt/hermes/bin/python".into()), "/venv/bin/python"), "/opt/hermes/bin/python");
    assert_eq!(server_python(None, r"\\?\C:\venv\Scripts\python.exe"), r"C:\venv\Scripts\python.exe");
}

#[test]
fn path_puts_user_tool_folders_first() {
    assert_eq!(
        augmented_path("/home/u", "/usr/bin:/bin"),
        "/home/u/.local/bin:/home/u/.hermes/bin:/home/u/.cargo/bin:/usr/bin:/bin"
    );
}

#[test]
fn hermes_candidates_in_order() {
    assert_eq!(
        hermes_cli_candidates("/home/u"),
        vec!["/home/u/.local/bin/hermes".to_string(), "/home/u/.hermes/bin/hermes".to_string()]
    );
}

#[test]
fn shebang_names_interpreter() {
    assert_eq!(shebang_interpreter("#!/usr/bin/python3 -u\nimport sys\n"), Some("/usr/bin/python3".into()));
    assert_eq!(shebang_interpreter("#!  /opt/py/bin/python\r\nx"), Some("/opt/py/bin/python".into()));
    assert_eq!(shebang_interpreter("#!/usr/bin/env python3"), Some("/usr/bin/env".into()));
}

#[test]
fn shebang_missing_or_empty() {
    assert_eq!(shebang_interpreter(""), None);
    assert_eq!(shebang_interpreter("#!\n/usr/bin/python"), None);
    assert_eq!(shebang_interpreter("#!   \t\n"), None);
    assert_eq!(shebang_interpreter("print('hi')\n#!/usr/bin/python"), None);
    assert_eq!(shebang_interpreter("\n#!/usr/bin/python"), None);
}

#[test]
fn shell_command_quotes_paths() {
    assert_eq!(
        server_shell_command("/venv/bin/python", "/res/bootstrap.py"),
        "unset PYTHONHOME PYTHONPATH; exec '/venv/bin/python' '/res/bootstrap.py' --foreground"
    );
}

#[test]
fn windows_args_skip_agent_install() {
    assert_eq!(
        server_windows_args("C:\\res\\bootstrap.py"),
        vec!["C:\\res\\bootstrap.py".to_string(), "--foreground".into(), "--skip-agent-install".into()]
    );
}

#[test]
fn server_env_lists_all_variables() {
    let env = server_env(8787, "/venv/bin/python", "/usr/bin");
    let want: Vec<(String, String)> = vec![
        ("HERMES_WEBUI_HOST".into(), "127.0.0.1".into()),
        ("HERMES_WEBUI_PORT".into(), "8787".into()),
        ("HERMES_WEBUI_PYTHON".into(), "/venv/bin/python".into()),
        ("PATH".into(), "/usr/bin".into()),
        ("PYTHONDONTWRITEBYTECODE".into(), "1".into()),
        ("HERMES_DESKTOP".into(), "1".into()),
    ];
    assert_eq!(env, want);
}

#[test]
fn timeout_message_without_output() {
    assert_eq!(server_timeout_message(8787, &vec![]), "Server did not respond on :8787 within 60 s.");
}

#[test]
fn timeout_message_with_output() {
    let log = vec!["starting".to_string(), "Traceback".to_string(), "Error: boom".to_string()];
    assert_eq!(
        server_timeout_message(50123, &log),
        "Server did not respond on :50123 within 60 s.\n\nLast output:\nstarting\nTraceback\nError: boom"
    );
}

#[test]
fn output_lines_are_trimmed_and_blank_ones_dropped() {
    assert_eq!(
        nonblank_lines_of("  first  \n\n\t\r\nsecond\r\nthird"),
        vec!["first".to_string(), "second".into(), "third".into()]
    );
    assert!(nonblank_lines_of("").is_empty());
    assert!(nonblank_lines_of("\n \n").is_empty());
}

#[test]
fn trim_removes_unicode_whitespace() {
    assert_eq!(trim("\u{3000} text \u{a0}\n"), "text");
    assert_eq!(trim("   "), "");
}

fn numbered_lines(n: usize) -> Vec<String> {
    (1..=n).map(|i| format!("line {i}")).collect()
}

#[test]
fn timeout_message_keeps_the_last_twenty_lines() {
    let log = numbered_lines(21);
    let msg = server_timeout_message(8787, &log);
    let want = format!(
        "Server did not respond on :8787 within 60 s.\n\nLast output:\n{}",
        numbered_lines(21)[1..].join("\n")
    );
    assert_eq!(msg, want);
    assert!(!msg.contains("line 1\n"));
    assert!(msg.ends_with("line 21"));
}

#[test]
fn timeout_message_with_exactly_twenty_lines_keeps_all() {
    let log = numbered_lines(20);
    assert!(server_timeout_message(1, &log).contains("Last output:\nline 1\nline 2\n"));
}

#[test]
fn log_buffer_keeps_last_twenty_lines() {
    assert_eq!(LOG_TAIL_LINES, 20);
    let mut buf: Vec<String> = Vec::new();
    for line in numbered_lines(25) {
        keep_log_line(&mut buf, line);
        assert!(buf.len() <= 20);
    }
    assert_eq!(buf, numbered_lines(25)[5..].to_vec());
}

#[test]
fn log_buffer_trims_an_overfull_buffer() {
    let mut buf = numbered_lines(30);
    keep_log_line(&mut buf, "last".to_string());
    assert_eq!(buf.len(), 20);
    assert_eq!(buf[0], "line 12");
    assert_eq!(buf[19], "last");
}

#[test]
fn hermes_python_is_first_existing_interpreter() {
    let probes = vec![
        (None, false),
        (Some("#!/missing/python\n".to_string()), false),
        (Some("no shebang".to_string()), true),
        (Some("#!/opt/hermes/python -u\n".to_string()), true),
        (Some("#!/other/python\n".to_string()), true),
    ];
    assert_eq!(pick_hermes_python(&probes), Some("/opt/hermes/python".to_string()));
}

#[test]
fn hermes_python_none_found() {
    let probes = vec![(None, false), (Some("#!/usr/bin/python\n".to_string()), false)];
    assert_eq!(pick_hermes_python(&probes), None);
    assert_eq!(pick_hermes_python(&vec![]), None);
}

#[test]
fn whitespace_is_what_std_calls_whitespace() {
    for c in (0u32..=0x10FFFF).filter_map(char::from_u32) {
        assert_eq!(char_is_whitespace(c), c.is_whitespace(), "{:?}", c);
    }
}

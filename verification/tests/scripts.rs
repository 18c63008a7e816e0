use hermes_webui_desktop::scripts::{
    append_log_script, escape_quotes, is_server_page, js_escape, navigate_script,
    set_status_script, show_error_script, show_update_script,
};

#[test]
fn js_escape_escapes_backslash_quote_and_newline() {
    assert_eq!(js_escape("a\\b\"c\nd"), "a\\\\b\\\"c\\nd");
    assert_eq!(js_escape("plain text"), "plain text");
    assert_eq!(js_escape(""), "");
}

#[test]
fn js_escape_output_has_no_line_break() {
    let out = js_escape("line one\nline two\n\n");
    assert!(!out.contains('\n'));
    assert_eq!(out, "line one\\nline two\\n\\n");
}

#[test]
fn js_escape_keeps_carriage_return_and_unicode() {
    assert_eq!(js_escape("é\r…"), "é\r…");
}

#[test]
fn escape_quotes_only_touches_quotes() {
    assert_eq!(escape_quotes("1.2\"3\\4"), "1.2\\\"3\\4");
}

#[test]
fn status_script_calls_the_status_function() {
    assert_eq!(
        set_status_script("Starting server…"),
        "window.__hermesSetStatus && window.__hermesSetStatus(\"Starting server…\")"
    );
}

#[test]
fn error_script_escapes_message() {
    assert_eq!(
        show_error_script("bad \"thing\"\nhere"),
        "window.__hermesShowError && window.__hermesShowError(\"bad \\\"thing\\\"\\nhere\")"
    );
}

#[test]
fn log_script_passes_false() {
    assert_eq!(
        append_log_script("Uvicorn running"),
        "window.__hermesAppendLog && window.__hermesAppendLog(\"Uvicorn running\", false)"
    );
}

#[test]
fn update_script_escapes_quotes_only() {
    assert_eq!(
        show_update_script("0.2.0\"x\\"),
        "window.__hermesShowUpdate && window.__hermesShowUpdate(\"0.2.0\\\"x\\\")"
    );
}

#[test]
fn navigate_script_points_at_local_server() {
    assert_eq!(navigate_script(8787), "window.location='http://127.0.0.1:8787'");
    assert_eq!(navigate_script(0), "window.location='http://127.0.0.1:0'");
    assert_eq!(navigate_script(65535), "window.location='http://127.0.0.1:65535'");
}

#[test]
fn server_pages_are_recognised() {
    assert!(is_server_page("http://127.0.0.1:8787/"));
    assert!(is_server_page("http://127.0.0.1"));
    assert!(!is_server_page("http://localhost:8787/"));
    assert!(!is_server_page("tauri://localhost/"));
    assert!(!is_server_page("http://127.0.0"));
}

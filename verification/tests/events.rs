use hermes_webui_desktop::app_events::{take_pending, tray_menu_action, TrayAction};

#[test]
fn tray_menu_entries() {
    assert_eq!(tray_menu_action("open"), TrayAction::ShowWindow);
    assert_eq!(tray_menu_action("quit"), TrayAction::Quit);
    assert_eq!(tray_menu_action("check_update"), TrayAction::CheckUpdate);
    assert_eq!(tray_menu_action("about"), TrayAction::Ignore);
    assert_eq!(tray_menu_action("Open"), TrayAction::Ignore);
}

#[test]
fn pending_update_is_taken_once() {
    let mut pending = Some("0.3.0".to_string());
    assert_eq!(take_pending(&mut pending), Ok("0.3.0".to_string()));
    assert_eq!(pending, None);
    assert_eq!(take_pending(&mut pending), Err("No pending update".to_string()));
}

#[test]
fn no_update_found_is_an_error() {
    let mut pending: Option<u32> = None;
    assert_eq!(take_pending(&mut pending), Err("No pending update".to_string()));
}

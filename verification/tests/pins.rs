use std::path::PathBuf;

use hermes_webui_desktop::pins::{
    add_pin_to_list, list_pins, pins_from_load, remove_pin_from_list, Pin, PinsLoadError,
    PinsState,
};

fn pin(url: &str, label: &str) -> Pin {
    Pin { url: url.into(), label: label.into() }
}

#[test]
fn add_pin_appends() {
    let mut pins = vec![];
    add_pin_to_list(&mut pins, "http://localhost:1111".into(), "Hub".into());
    assert_eq!(pins.len(), 1);
    assert_eq!(pins[0].label, "Hub");
}

#[test]
fn add_pin_deduplicates_by_url() {
    let mut pins = vec![];
    add_pin_to_list(&mut pins, "http://localhost:1111".into(), "Hub".into());
    add_pin_to_list(&mut pins, "http://localhost:1111".into(), "Hub2".into());
    assert_eq!(pins.len(), 1);
}

#[test]
fn remove_pin_removes_by_url() {
    let mut pins = vec![
        Pin { url: "http://localhost:1111".into(), label: "Hub".into() },
        Pin { url: "http://localhost:7373".into(), label: "Proto".into() },
    ];
    remove_pin_from_list(&mut pins, "http://localhost:1111");
    assert_eq!(pins.len(), 1);
    assert_eq!(pins[0].url, "http://localhost:7373");
}

#[test]
fn add_pin_keeps_first_label_of_an_address() {
    let mut pins = vec![pin("http://localhost:1111", "Hub")];
    add_pin_to_list(&mut pins, "http://localhost:1111".into(), "Other".into());
    assert_eq!(pins, vec![pin("http://localhost:1111", "Hub")]);
}

#[test]
fn add_pin_appends_at_the_end() {
    let mut pins = vec![pin("http://localhost:1111", "Hub")];
    add_pin_to_list(&mut pins, "http://localhost:7373".into(), "Proto".into());
    assert_eq!(
        pins,
        vec![pin("http://localhost:1111", "Hub"), pin("http://localhost:7373", "Proto")]
    );
}

#[test]
fn remove_pin_keeps_order_of_the_others() {
    let mut pins = vec![
        pin("http://a", "A"),
        pin("http://b", "B"),
        pin("http://c", "C"),
        pin("http://b", "B2"),
    ];
    remove_pin_from_list(&mut pins, "http://b");
    assert_eq!(pins, vec![pin("http://a", "A"), pin("http://c", "C")]);
}

#[test]
fn remove_pin_of_unknown_address_changes_nothing() {
    let mut pins = vec![pin("http://a", "A")];
    remove_pin_from_list(&mut pins, "http://z");
    assert_eq!(pins, vec![pin("http://a", "A")]);
}

#[test]
fn remove_pin_twice_is_remove_once() {
    let mut once = vec![pin("http://a", "A"), pin("http://b", "B")];
    remove_pin_from_list(&mut once, "http://a");
    let mut twice = once.clone();
    remove_pin_from_list(&mut twice, "http://a");
    assert_eq!(once, twice);
}

#[test]
fn remove_undoes_a_fresh_add() {
    let original = vec![pin("http://a", "A"), pin("http://b", "B")];
    let mut pins = original.clone();
    add_pin_to_list(&mut pins, "http://new".into(), "New".into());
    assert_eq!(pins.len(), 3);
    remove_pin_from_list(&mut pins, "http://new");
    assert_eq!(pins, original);
}

#[test]
fn added_addresses_stay_unique() {
    let mut pins = vec![];
    for (u, l) in [("http://a", "1"), ("http://b", "2"), ("http://a", "3"), ("http://b", "4")] {
        add_pin_to_list(&mut pins, u.into(), l.into());
    }
    assert_eq!(pins, vec![pin("http://a", "1"), pin("http://b", "2")]);
}

#[test]
fn load_of_missing_file_is_empty() {
    assert!(pins_from_load(Err(PinsLoadError::Unreadable)).is_empty());
}

#[test]
fn load_of_corrupt_file_is_empty() {
    assert!(pins_from_load(Err(PinsLoadError::Corrupt)).is_empty());
}

#[test]
fn load_keeps_what_was_read() {
    let read = vec![pin("http://localhost:1111", "Hub")];
    assert_eq!(pins_from_load(Ok(read.clone())), read);
}

#[test]
fn state_load_keeps_path_and_pins() {
    let path = PathBuf::from("/tmp/app/pins.json");
    let state = PinsState::load(path.clone(), Ok(vec![pin("http://a", "A")]));
    assert_eq!(state.path, path);
    assert_eq!(list_pins(&state), vec![pin("http://a", "A")]);
    let empty = PinsState::load(path, Err(PinsLoadError::Corrupt));
    assert!(list_pins(&empty).is_empty());
}

#[test]
fn list_pins_is_a_copy() {
    let mut state = PinsState::load(PathBuf::from("pins.json"), Ok(vec![pin("http://a", "A")]));
    let listed = list_pins(&state);
    add_pin_to_list(&mut state.pins, "http://b".into(), "B".into());
    assert_eq!(listed, vec![pin("http://a", "A")]);
    assert_eq!(list_pins(&state).len(), 2);
}

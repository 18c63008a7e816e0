use hermes_webui_desktop::label::sanitize_label;
use hermes_webui_desktop::pin_url::{parse_pin_url, pin_url_from_parse, url_error_message, UrlError};
use hermes_webui_desktop::pin_window::{choose_pin_window, PinWindow};
use url::{ParseError, Url};

#[test]
fn label_of_local_address() {
    assert_eq!(sanitize_label("http://localhost:1111"), "http---localhost-1111");
}

#[test]
fn label_is_lower_case() {
    assert_eq!(sanitize_label("HTTP://Example.COM/Path"), "http---example-com-path");
}

#[test]
fn label_is_cut_to_32_characters() {
    let label = sanitize_label("http://a-very-long-host-name.example.com:8080/some/path");
    assert_eq!(label, "http---a-very-long-host-name-exa");
    assert_eq!(label.chars().count(), 32);
}

#[test]
fn label_cut_may_end_with_a_dash() {
    let url = format!("{}/b", "a".repeat(31));
    assert_eq!(sanitize_label(&url), format!("{}-", "a".repeat(31)));
}

#[test]
fn label_trims_dashes() {
    assert_eq!(sanitize_label("--abc--"), "abc");
    assert_eq!(sanitize_label("://x/"), "x");
}

#[test]
fn label_of_symbols_only_is_empty() {
    assert_eq!(sanitize_label("!!!"), "");
    assert_eq!(sanitize_label(""), "");
}

#[test]
fn label_keeps_unicode_letters() {
    assert_eq!(sanitize_label("Ärger/ÜBER"), "ärger-über");
}

#[test]
fn label_replaces_punctuation() {
    assert_eq!(sanitize_label("http://127.0.0.1:7373/a-b_c?d=e"), "http---127-0-0-1-7373-a-b-c-d-e");
}

#[test]
fn pin_url_parses_valid_address() {
    let url = parse_pin_url("http://localhost:1111").unwrap();
    assert_eq!(url.as_str(), "http://localhost:1111/");
    assert_eq!(url.port(), Some(1111));
}

#[test]
fn pin_url_rejects_relative_address() {
    assert_eq!(
        parse_pin_url("not a url").unwrap_err(),
        "Invalid URL: relative URL without a base"
    );
}

#[test]
fn pin_url_rejects_bad_port() {
    assert_eq!(parse_pin_url("http://localhost:99999").unwrap_err(), "Invalid URL: invalid port number");
}

#[test]
fn pin_url_from_parse_formats_the_error() {
    assert_eq!(pin_url_from_parse(Err(UrlError::EmptyHost)).unwrap_err(), "Invalid URL: empty host");
    assert_eq!(
        pin_url_from_parse(Err(UrlError::Other("odd".to_string()))).unwrap_err(),
        "Invalid URL: odd"
    );
    let ok = Url::parse("http://localhost:7373").unwrap();
    assert_eq!(pin_url_from_parse(Ok(ok.clone())).unwrap(), ok);
}

#[test]
fn url_error_messages_match_the_parser() {
    let pairs = [
        (UrlError::EmptyHost, ParseError::EmptyHost),
        (UrlError::IdnaError, ParseError::IdnaError),
        (UrlError::InvalidPort, ParseError::InvalidPort),
        (UrlError::InvalidIpv4Address, ParseError::InvalidIpv4Address),
        (UrlError::InvalidIpv6Address, ParseError::InvalidIpv6Address),
        (UrlError::InvalidDomainCharacter, ParseError::InvalidDomainCharacter),
        (UrlError::RelativeUrlWithoutBase, ParseError::RelativeUrlWithoutBase),
        (UrlError::RelativeUrlWithCannotBeABaseBase, ParseError::RelativeUrlWithCannotBeABaseBase),
        (UrlError::SetHostOnCannotBeABaseUrl, ParseError::SetHostOnCannotBeABaseUrl),
        (UrlError::Overflow, ParseError::Overflow),
    ];
    for (ours, theirs) in pairs {
        assert_eq!(url_error_message(&ours), theirs.to_string());
    }
}

#[test]
fn pin_url_rejects_empty_host() {
    assert_eq!(parse_pin_url("http://").unwrap_err(), "Invalid URL: empty host");
}

#[test]
fn label_examples_of_the_original() {
    assert_eq!(sanitize_label("//Hub::ABCDEFGHIJKLMNOPQRSTUVWXYZ0123456789"), "hub--abcdefghijklmnopqrstuvwxyz0");
    assert_eq!(sanitize_label("http://localhost:1111/abcdefghi/x"), "http---localhost-1111-abcdefghi-");
    assert_eq!(sanitize_label("http://Café.fr"), "http---café-fr");
}

#[test]
fn ascii_label_is_its_own_label() {
    for url in ["http://localhost:1111", "HTTP://Example.COM/Path", "--abc--"] {
        let label = sanitize_label(url);
        assert!(!label.ends_with('-'));
        assert_eq!(sanitize_label(&label), label);
    }
}

#[test]
fn ascii_label_ignores_case() {
    let url = "http://LocalHost:1111/Some/Path";
    assert_eq!(sanitize_label(&url.to_ascii_uppercase()), sanitize_label(url));
    assert_eq!(sanitize_label(&url.to_ascii_lowercase()), sanitize_label(url));
}

#[test]
fn ascii_label_shape() {
    let label = sanitize_label("HTTP://Some.Very-Long.Host.Name.Example.COM:8080/a/b/c?d=e");
    assert!(label.chars().count() <= 32);
    assert!(label.bytes().all(|b| b.is_ascii_lowercase() || b.is_ascii_digit() || b == b'-'));
    assert!(!label.starts_with('-'));
}

fn windows(list: &[(&str, &str)]) -> Vec<(String, String)> {
    list.iter().map(|(l, u)| (l.to_string(), u.to_string())).collect()
}

#[test]
fn pin_window_opens_with_its_label_when_free() {
    match choose_pin_window("http://localhost:1111", &vec![]) {
        PinWindow::Open(l) => assert_eq!(l, "http---localhost-1111"),
        PinWindow::Focus(_) => panic!("nothing was open"),
    }
}

#[test]
fn pin_window_focuses_the_window_of_the_same_address() {
    let open = windows(&[("main-x", "http://other"), ("http---localhost-1111", "http://localhost:1111")]);
    match choose_pin_window("http://localhost:1111", &open) {
        PinWindow::Focus(l) => assert_eq!(l, "http---localhost-1111"),
        PinWindow::Open(_) => panic!("the window is open"),
    }
}

#[test]
fn pin_window_for_another_address_with_the_same_label_is_new() {
    let open = windows(&[("http---localhost-1111", "http://localhost:1111")]);
    match choose_pin_window("http://localhost/1111", &open) {
        PinWindow::Open(l) => assert_eq!(l, "http---localhost-1111-"),
        PinWindow::Focus(_) => panic!("another address must not reuse the window"),
    }
    let open = windows(&[
        ("http---localhost-1111", "http://localhost:1111"),
        ("http---localhost-1111-", "http://localhost/1111"),
        ("abc", "http://abc"),
    ]);
    match choose_pin_window("http://localhost/1111/", &open) {
        PinWindow::Open(l) => assert_eq!(l, "http---localhost-1111--"),
        PinWindow::Focus(_) => panic!("another address must not reuse the window"),
    }
}

//! Verified core of the Hermes WebUI desktop shell: the pinned-links list,
//! window labels, the script snippets handed to the webview, and the
//! decisions taken while the Python server is set up and started.

pub mod pins;
pub mod label;
pub mod pin_window;
pub mod text;
pub mod pin_url;
pub mod scripts;
pub mod server;
pub mod uv;
pub mod app_events;

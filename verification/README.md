# hermes_webui_desktop

The verified core of the Hermes WebUI desktop shell (a Tauri application that
boots a local Python server and shows its web UI).

- `src/` — the library, verified with Verus:
  - `pins` — the pinned-links list (add without duplicate addresses, remove
    by address, load with a missing or corrupt file counting as empty) and its
    laws;
  - `label` — the window label of a pinned address (letters, digits and
    dashes, trimmed, at most 32 characters, lower case) and its laws;
  - `pin_window` — which window shows a pin: an open window is reused only
    for the very address it shows;
  - `pin_url` — parsing a pin's address with the `url` crate;
  - `scripts` — the JavaScript snippets evaluated in the main window, with
    string escaping and its round-trip law;
  - `server` — starting the Python server: interpreter choice, `#!` parsing,
    environment, command line, polling, the last 20 output lines kept for
    the timeout message;
  - `uv` — setting up the virtual environment (a step function over its
    stages) and driving `uv` (arguments, messages, and a step function over
    the events of the running process);
  - `app_events` — tray menu dispatch and the pending update;
  - `text` — text helpers and the trusted wrappers around `std`.
- `app/` — the Tauri application around the library: windows, tray, updater,
  file and process I/O.
- `tests/` — tests of the library.

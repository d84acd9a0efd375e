# unpeel_ui

The verified core of the Unpeel cross-platform clients: the decisions the
desktop and mobile launchers make, with their contracts proved.

## Layout

- `src/` — the library, every item verified:
  - `panes`, `durable`, `ids` — the split-tree pane model, its operations,
    the durable layout (encode, decode, v1 migration, reconcile) and
    canonical ids; `durable` proves that decoding what was encoded gives the
    persisted groups back.
  - `dictation`, `app_lock`, `composer`, `turns`, `pty_resize` — state
    machines: the dictation session and its reflection pass, the app lock,
    the composer's drafts and follow-up queue, turn state from the
    session-event stream, the debounced remote terminal resize.
  - `terminal_poll`, `connect` — the steps of the terminal output poll loop
    and the choice between the Direct route and the relay.
  - `discovery` — the mDNS query builder, DNS response parser and host
    candidates.
  - `find`, `drop_targets` — terminal find and the drop/drag maps.
  - `notifier`, `push_events`, `gallery`, `organize`, `sessions`,
    `activity`, `palette`, `pairing` — notification policy and events,
    share payloads, the organize sheets' decisions, the sidebar.
  - `i18n`, `text`, `json` — the message catalog, string helpers, and JSON
    string quoting through `serde_json`.
- `tests/` — tests of the compiled library.
- `app/` — the platform edge: JSON through serde, the UDP socket of an
  mDNS browse, the environment, the iOS bridge's C strings.

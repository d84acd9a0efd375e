//! Verified core of the Unpeel cross-platform UI: the pane split tree, the
//! dictation and app-lock state machines, the mDNS discovery parser, the
//! terminal find, the composer, notifications and the message catalog.
pub mod text;
pub mod json;
pub mod i18n;
pub mod notifier;
pub mod drop_targets;
pub mod dictation;
pub mod app_lock;
pub mod discovery;
pub mod find;
pub mod composer;
pub mod activity;
pub mod sessions;
pub mod organize;
pub mod gallery;
pub mod push_events;
pub mod pairing;
pub mod palette;
pub mod turns;
pub mod pty_resize;
pub mod terminal_poll;
pub mod connect;
pub mod ids;
pub mod panes;
pub mod durable;

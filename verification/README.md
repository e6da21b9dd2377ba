# Zaprust

A small native interface over the engines that get traffic past DPI: `winws` on Windows
and `nfqws` on Linux. It fetches the strategies of Flowseal and the engine of bol-van,
finds a strategy that works, installs it as a service and keeps it up to date.

## Layout

- `src/` decides. Everything in it is verified with Verus: reading batch files, rewriting
  arguments, firewall rules and the scripts that set them up, the systemd unit and the
  Windows service, the auto-selection, updates, the log, the settings and what the window
  shows. Each function states what it returns in `ensures`; the laws that span several
  functions are public `proof` functions beside them.
  `platform/linux/firewall.rs` holds a model of a firewall, over which the scripts of the
  capture rules are shown to undo each other.
- `app/` acts. It runs commands, reads and writes files, asks the network and draws the
  window, and hands plain values to the library.
- `tests/` runs the library on concrete values.

## What is trusted

The contracts of `String::push`, of the case conversions, of `char::is_alphabetic` and of
`from_utf8_lossy` in `src/text.rs`, of the `zip` calls in `src/archive.rs` and of the `image` call in
`src/icon.rs` are believed, not proved. Each says in its comment what it claims.

## How a decision reaches the system

Work that alternates with the outside is a state machine of the library, driven by `app/`:
`autoselect::Selection` for the auto-selection, `platform::linux::runtime::next_stage` for
bringing the engine up, `upgrade::apply_next` for replacing the core, and `script::advance`
for scripts of commands.

# ble_repl

A shell for Bluetooth Low Energy peripherals. The library (`src/`) holds what
the shell decides and remembers, with its contracts proved by Verus:

* `text`: character-level helpers (string equality, decimal numbers, blank lines);
* `controllers`: the peripherals of a scan, the controller's errors, and
  `controllers::btleplug`, the controller's state (scan list, connected
  peripheral, notifications) and how scans, connections and disconnections change it;
* `repl::cli`: the grammar of the shell's commands;
* `repl`: what a line read by the shell amounts to, and what the shell does for each command;
* `repl::commands`: the lookups that commands make in the scan list;
* `btl_support`: the records of the Bluetooth support daemon.

`app/` is the program around it: the line editor, the btleplug calls to the
adapter, the notification thread, and the daemon.

Invoked under the name `tokenizer`, the program runs the support daemon in
place of the shell.

`Cargo.toml` names `libdbus-sys` with its `vendored` feature although no code
calls it: btleplug reaches D-Bus through it on Linux, and the feature builds
the D-Bus library from source, so btleplug builds on machines that lack a
system D-Bus.

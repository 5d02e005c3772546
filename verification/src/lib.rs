//! A Bluetooth Low Energy command shell: the scan list and connection state
//! of a BLE controller, the grammar of the shell's commands, and the
//! decisions that the shell takes for each command.

pub mod text;
pub mod repl;
pub mod controllers;
pub mod btl_support;

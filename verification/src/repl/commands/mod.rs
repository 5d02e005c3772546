//! What the shell's commands compute before they call on the controller.

pub mod connect;
pub mod scan;

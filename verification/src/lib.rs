//! Status bar logic for the `stele` Wayland bar: Sway IPC framing, the Sway
//! workspace tree, XDG icon lookup and the bar's module layout.

pub mod ipc;
pub mod text;
pub mod image_type;
pub mod table;
pub mod themes;
pub mod xdg;
pub mod tree;
pub mod bar;
pub mod clock;

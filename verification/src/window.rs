//! Window metadata as the desktop shell reports it.

use vstd::prelude::*;

verus! {

/// Placement and state of one window.
#[derive(Clone, Copy, Debug, PartialEq, Eq, Structural)]
pub struct WindowGeom {
    pub x: i32,
    pub y: i32,
    pub width: i32,
    pub height: i32,
    pub minimized: bool,
}

/// What is known about one captured window: its geometry, the process
/// that owns it, and the identifying strings the shell reported. An
/// empty string means the identifier is absent.
#[derive(Debug)]
pub struct MetaWindow {
    pub geom: WindowGeom,
    pub pid: i32,
    pub stable_seq: u32,
    pub window_class: String,
    pub gtk_app_id: String,
    pub sandboxed_app_id: String,
}

} // verus!

//! Data the desktop-shell control channel exchanges: window geometry
//! commands and extension state, as plain values.

use vstd::prelude::*;

verus! {

/// Placement and state of one window, as the shell's scripting side
/// reports it.
#[derive(Clone, Copy, Debug, PartialEq, Eq, Structural)]
pub struct WindowGeom {
    pub x: u32,
    pub y: u32,
    pub width: u32,
    pub height: u32,
    pub minimized: bool,
}

/// A window as the shell's scripting side reports it.
#[derive(Debug)]
pub struct MetaWindow {
    pub window_class: String,
    pub geom: WindowGeom,
    pub pid: i32,
    pub stable_seq: u32,
    pub gtk_app_id: Option<String>,
}

/// The values that fill the move-window command sent to the shell.
#[derive(Debug)]
pub struct SetGeomTemplate {
    pub window_class: String,
    pub x: u32,
    pub y: u32,
    pub width: u32,
    pub height: u32,
    pub minimized: bool,
}

impl SetGeomTemplate {
    /// Pairs a window class with the geometry it is to receive.
    pub fn from_geom(window_class: String, g: WindowGeom) -> (r: Self)
        ensures
            r.window_class@ == window_class@,
            r.x == g.x,
            r.y == g.y,
            r.width == g.width,
            r.height == g.height,
            r.minimized == g.minimized,
    {
        SetGeomTemplate {
            window_class,
            x: g.x,
            y: g.y,
            width: g.width,
            height: g.height,
            minimized: g.minimized,
        }
    }
}

/// The lifecycle state of a shell extension.
#[derive(Debug, Copy, Clone, PartialEq, Eq, Structural)]
pub enum ExtensionState {
    Enabled,
    Disabled,
    Error,
    OutOfDate,
    Downloading,
    Initialized,
    Uninstalled,
}

/// How a shell extension is installed.
#[derive(Debug, Copy, Clone, PartialEq, Eq, Structural)]
pub enum ExtensionType {
    System,
    PerUser,
}

/// The extension state a numeric state code stands for, if any.
pub open spec fn extension_state_of_code(v: int) -> Option<ExtensionState> {
    if v == 1 {
        Some(ExtensionState::Enabled)
    } else if v == 2 {
        Some(ExtensionState::Disabled)
    } else if v == 3 {
        Some(ExtensionState::Error)
    } else if v == 4 {
        Some(ExtensionState::OutOfDate)
    } else if v == 5 {
        Some(ExtensionState::Downloading)
    } else if v == 6 {
        Some(ExtensionState::Initialized)
    } else if v == 99 {
        Some(ExtensionState::Uninstalled)
    } else {
        None
    }
}

/// The extension type a numeric type code stands for, if any.
pub open spec fn extension_type_of_code(v: int) -> Option<ExtensionType> {
    if v == 1 {
        Some(ExtensionType::System)
    } else if v == 2 {
        Some(ExtensionType::PerUser)
    } else {
        None
    }
}

impl ExtensionState {
    /// Decodes the shell's numeric extension-state code.
    pub fn from_code(v: i32) -> (r: Option<ExtensionState>)
        ensures
            r == extension_state_of_code(v as int),
    {
        match v {
            1 => Some(ExtensionState::Enabled),
            2 => Some(ExtensionState::Disabled),
            3 => Some(ExtensionState::Error),
            4 => Some(ExtensionState::OutOfDate),
            5 => Some(ExtensionState::Downloading),
            6 => Some(ExtensionState::Initialized),
            99 => Some(ExtensionState::Uninstalled),
            _ => None,
        }
    }
}

impl ExtensionType {
    /// Decodes the shell's numeric extension-type code.
    pub fn from_code(v: i32) -> (r: Option<ExtensionType>)
        ensures
            r == extension_type_of_code(v as int),
    {
        match v {
            1 => Some(ExtensionType::System),
            2 => Some(ExtensionType::PerUser),
            _ => None,
        }
    }
}

} // verus!

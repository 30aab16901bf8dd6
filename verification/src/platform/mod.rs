//! What the camera backends report, and the decisions of each platform's
//! backend.
use vstd::prelude::*;

pub mod linux;
pub mod macos;
pub mod unsupported;

verus! {

/// Whether a camera is present and which applications use it.
#[derive(Debug)]
pub struct CameraAvailability {
    pub id: String,
    pub connected: bool,
    pub in_use: bool,
    pub in_use_by: Vec<String>,
}

/// The kernel driver behind a camera.
#[derive(Debug)]
pub struct CameraDriver {
    pub name: String,
    pub version: String,
    pub bus_info: String,
}

/// Where a camera faces.
#[derive(Debug, Clone, Copy, PartialEq, Eq, Structural)]
pub enum CameraPosition {
    Front,
    Back,
    Unspecified,
}

/// One entry of a menu control: its label or its integer value.
#[derive(Debug)]
pub struct CameraControlMenuItem {
    pub index: u32,
    pub name: Option<String>,
    pub value: Option<i64>,
}

} // verus!

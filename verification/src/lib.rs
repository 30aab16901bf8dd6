//! Camux lets one webcam feed several applications at once: it finds the
//! connected cameras, previews one, and routes its MJPEG stream to a virtual
//! camera that other applications read.
//!
//! This crate holds the decisions behind that, each with its contract:
//! which device nodes are real cameras and how they are listed, how settings
//! are validated and what the launch-at-login entries say, how the virtual
//! camera's state is reported, which capture mode is chosen, which bytes form
//! a complete frame, how frames reach the preview, and which capture sessions
//! stay alive and feed the virtual camera.
pub mod cli;
pub mod platform;
pub mod settings;
pub mod streaming;
pub mod text;

//! The rules of a small WebRTC camera: what its signaling messages look like, how the
//! signaling server passes them on, which viewers the camera serves, and how captured
//! frames become media samples.
//!
//! Nothing here touches a socket, a device or a clock. Each piece takes what came in as
//! plain values and answers with what is to be done, so that the program around it only
//! has to carry that out.

pub mod camera_peer;
pub mod capture;
pub mod frame;
pub mod handles;
pub mod media;
pub mod page;
pub mod signaling_server;
pub mod table;
pub mod utils;
pub mod viewers;
pub mod wire;

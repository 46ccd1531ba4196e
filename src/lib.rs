//! An intake protocol for branch sales reports: a client names its branch in
//! one frame and sends a Base64 report in the next; the server ensures the
//! branch's directory, stores the decoded report and acknowledges each step
//! with `OK`.
//!
//! - [`frame`] reads the branch code and the Base64 text out of the frames.
//! - [`codec`] decodes Base64 through the `base64` crate.
//! - [`session`] is the protocol of one connection as a state machine.
//! - [`trace`] states what holds of whole sessions.
pub mod codec;
pub mod frame;
pub mod session;
pub mod trace;

pub use codec::decode_from_base64;

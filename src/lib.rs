//! A one-shot request/response bridge over a duplex text socket.
//!
//! `bridge` decides, event by event, how a single pending request on the
//! initiating side is sent and settled; `session` decides, frame by frame,
//! what a responder does on one accepted connection; `clock` supplies the
//! local time that the responder stamps on its replies.
pub mod bridge;
pub mod clock;
pub mod session;

//! A transport agent's protocol engine: the wire codec for control messages,
//! the acquisition state machine that answers them, and input framing.
pub mod message;
pub mod parse;
pub mod location;
pub mod acquire;
pub mod framing;

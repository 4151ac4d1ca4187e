//! The wire protocol: frames, requests' opcodes, responses, and the bounded reading of payloads.

pub mod codec;
pub mod cursor;
pub mod frame;
pub mod response;

pub use codec::read_frame;
pub use frame::{Frame, Opcode, ProtocolLimits, StatusCode, PROTOCOL_VERSION};
pub use response::Response;

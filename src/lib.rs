//! Infrared remote-control reception: edge timing capture, a pulse-distance
//! frame decoder, a remote button table, and a debounced indicator.

pub mod decoder;
pub mod frame;
pub mod indicator;
pub mod receiver;
pub mod remote;
pub mod sampling;
pub mod timing;

pub use decoder::{
    CommandWord, DecodeError, Decoder, DecoderState, Output, BIT_MARK_MAX, BIT_MARK_MIN,
    FRAME_BITS, HEADER_MARK_MAX, HEADER_MARK_MIN, HEADER_SPACE_MAX, HEADER_SPACE_MIN,
    MAX_FRAME_UNITS, ONE_SPACE_MAX, ONE_SPACE_MIN, REPEAT_SPACE_MAX, REPEAT_SPACE_MIN,
    ZERO_SPACE_MAX, ZERO_SPACE_MIN,
};
pub use indicator::{idle, Action, ClearHandle, Indicator};
pub use receiver::{Received, Receiver};
pub use remote::{decode_button, RemoteButton, REMOTE_ADDRESS};
pub use timing::{EdgeClock, PeriodicSampler, Pulse, MICROS_PER_UNIT};

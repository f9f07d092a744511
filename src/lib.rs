//! Wire codec of a game server's network protocol: variable-length integers, fixed and
//! length-prefixed fields, the inventory slot with its conditional layout, and the packet
//! identity table that routes each frame to its decoder by direction, phase and code.

pub mod dispatch;
pub mod error;
pub mod fields;
pub mod item;
pub mod packet;
pub mod slot;
pub mod varint;

//! Encoding and decoding of batched, timestamped MIDI packet lists in the
//! binary layout used by the system's MIDI services.
//!
//! A [`PacketBuffer`] builds a packet list by appending packets; it can be
//! viewed at any time as a [`PacketList`], whose [`PacketListIterator`]
//! yields each [`Packet`] in the order it was appended.
pub mod layout;
pub mod packets;
pub mod text;
pub mod laws;
pub mod status;

pub use crate::layout::{MAX_PACKET_DATA_LENGTH, PACKET_HEADER_SIZE, PACKET_LIST_HEADER_SIZE};
pub use crate::packets::{Packet, PacketBuffer, PacketList, PacketListIterator, Timestamp};
pub use crate::status::{result_from_status, unit_result_from_status, OSStatus};

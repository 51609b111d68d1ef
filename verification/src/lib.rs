//! A peer-to-peer chat node: the binary wire format of its packets and the
//! rules by which a node answers them.
//!
//! The wire format is made of two capabilities, [`Encode`] and [`Decode`],
//! with implementations for booleans, the fixed-width integers, the
//! variable-length integers [`Var`], texts, sequences and the records of the
//! packets. The session [`App`] takes the datagrams that arrive and says
//! which datagrams to send in answer; it does no input or output of its own.

pub mod codec;
pub mod endian;
pub mod fixed;
pub mod laws;
pub mod packet;
pub mod pronouns;
pub mod room;
pub mod sequence;
pub mod session;
pub mod text;
pub mod var;
pub mod varint;

pub use codec::{Decode, DecodeError, Encode, RoundTrip};
pub use packet::{Message, PacketKind, RoomInfo, RoomList, UserInfo};
pub use pronouns::{make_presets, PronounTable, Pronouns};
pub use room::{Room, RoomTable};
pub use session::{App, Datagram, Diagnostic, Handled};
pub use var::Var;

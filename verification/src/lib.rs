//! A verified RTPS message receiver: it reads packets, interprets the
//! submessages in them, and hands data and acknowledgements on to the local
//! readers and to the rest of the participant.
pub mod channel;
pub mod codec;
pub mod delivery_laws;
pub mod effect;
pub mod elements;
pub mod encoding;
pub mod guid;
pub mod header;
pub mod laws;
pub mod message;
pub mod message_receiver;
pub mod model;
pub mod order;
pub mod packet;
pub mod reader;
pub mod reading_laws;
pub mod submessages;
pub mod wire;

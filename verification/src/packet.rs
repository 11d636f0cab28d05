//! Packets, as they come off the network.
use vstd::prelude::*;

use crate::elements::ReadError;
use crate::header;
use crate::header::RTPS_MESSAGE_HEADER_SIZE;
use crate::message;

verus! {

/// `bytes::Bytes`, a buffer of octets.
#[verifier::external_type_specification]
#[verifier::external_body]
pub struct ExBytes(bytes::Bytes);

/// The octets that a buffer holds.
pub uninterp spec fn octets_of(buffer: bytes::Bytes) -> Seq<u8>;

/// `<bytes::Bytes as Deref>::deref` gives the octets in the buffer as a slice.
pub assume_specification[ <bytes::Bytes as core::ops::Deref>::deref ](
    buffer: &bytes::Bytes,
) -> (s: &[u8])
    ensures
        s@ == octets_of(*buffer),
;

/// What has become of a packet.
#[derive(Clone, Copy, Debug, PartialEq, Eq, Structural)]
pub enum PacketOutcome {
    /// It was a ping, which is not answered.
    Ping,
    /// It was too short to be a message.
    TooShort,
    /// It could not be read as a message.
    Malformed(ReadError),
    /// It was a message, and has been handled.
    Handled,
}

/// Whether a packet is a ping: it is too short for a message, starts with the
/// protocol's name, and has the word DDSPING at its tenth octet.
pub open spec fn is_ping(s: Seq<u8>) -> bool {
    &&& 16 <= s.len() < RTPS_MESSAGE_HEADER_SIZE
    &&& header::has_rtps_name(s)
    &&& s.subrange(9, 16) == seq![0x44u8, 0x44u8, 0x53u8, 0x50u8, 0x49u8, 0x4eu8, 0x47u8]
}

/// What becomes of the packet `s`.
pub open spec fn outcome_of(s: Seq<u8>) -> PacketOutcome {
    if is_ping(s) {
        PacketOutcome::Ping
    } else if s.len() < RTPS_MESSAGE_HEADER_SIZE {
        PacketOutcome::TooShort
    } else {
        match message::message_of(s) {
            Err(e) => PacketOutcome::Malformed(e),
            Ok(_) => PacketOutcome::Handled,
        }
    }
}

/// Tests [`is_ping`].
pub fn packet_is_ping(s: &[u8]) -> (r: bool)
    ensures
        r == is_ping(s@),
{
    if s.len() < 16 || s.len() >= RTPS_MESSAGE_HEADER_SIZE || !header::starts_with_rtps_name(s) {
        return false;
    }
    let ghost word = s@.subrange(9, 16);
    assert(forall|i: int| 0 <= i < 7 ==> #[trigger] word[i] == s@[9 + i]);
    if s[9] == 0x44 && s[10] == 0x44 && s[11] == 0x53 && s[12] == 0x50 && s[13] == 0x49 && s[14]
        == 0x4e && s[15] == 0x47 {
        assert(word =~= seq![0x44u8, 0x44u8, 0x53u8, 0x50u8, 0x49u8, 0x4eu8, 0x47u8]);
        true
    } else {
        assert(word[0] == s@[9] && word[1] == s@[10] && word[2] == s@[11] && word[3] == s@[12]
            && word[4] == s@[13] && word[5] == s@[14] && word[6] == s@[15]);
        false
    }
}

} // verus!

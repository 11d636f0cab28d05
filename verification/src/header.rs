//! The header that every message starts with.
use vstd::prelude::*;

use crate::elements::ProtocolVersion;
use crate::elements::ReadError;
use crate::elements::VendorId;
use crate::guid;
use crate::guid::GuidPrefix;

verus! {

/// How many octets a message header takes.
pub const RTPS_MESSAGE_HEADER_SIZE: usize = 20;

/// The protocol version and vendor of the sender, and who it is. On the wire
/// these follow the protocol's name.
#[derive(Clone, Copy, Debug, PartialEq, Eq)]
pub struct Header {
    pub protocol_version: ProtocolVersion,
    pub vendor_id: VendorId,
    pub guid_prefix: GuidPrefix,
}

/// Whether `s` starts with the protocol's name.
pub open spec fn has_rtps_name(s: Seq<u8>) -> bool {
    &&& s.len() >= 4
    &&& s.subrange(0, 4) == seq![0x52u8, 0x54u8, 0x50u8, 0x53u8]
}

/// Tests [`has_rtps_name`].
pub fn starts_with_rtps_name(s: &[u8]) -> (r: bool)
    ensures
        r == has_rtps_name(s@),
{
    if s.len() >= 4 && s[0] == 0x52 && s[1] == 0x54 && s[2] == 0x50 && s[3] == 0x53 {
        assert(s@.subrange(0, 4) =~= seq![0x52u8, 0x54u8, 0x50u8, 0x53u8]);
        true
    } else {
        assert(s@.len() >= 4 ==> {
            let t = s@.subrange(0, 4);
            t[0] == s@[0] && t[1] == s@[1] && t[2] == s@[2] && t[3] == s@[3]
        });
        false
    }
}

/// The header that `s` starts with.
pub open spec fn header_of(s: Seq<u8>) -> Result<Header, ReadError> {
    if s.len() < RTPS_MESSAGE_HEADER_SIZE {
        Err(ReadError::UnexpectedEnd)
    } else if !has_rtps_name(s) {
        Err(ReadError::NotRtps)
    } else {
        Ok(
            Header {
                protocol_version: ProtocolVersion { major: s[4], minor: s[5] },
                vendor_id: VendorId { vendor_id: [s[6], s[7]] },
                guid_prefix: guid::guid_prefix_at(s, 8),
            },
        )
    }
}

impl Header {
    /// The header of messages that this library's participant `guid_prefix`
    /// writes.
    pub fn new(guid_prefix: GuidPrefix) -> (r: Header)
        ensures
            r == (Header {
                protocol_version: ProtocolVersion::this_implementation(),
                vendor_id: VendorId::this_implementation(),
                guid_prefix,
            }),
    {
        Header {
            protocol_version: ProtocolVersion::this_implementation(),
            vendor_id: VendorId::this_implementation(),
            guid_prefix,
        }
    }

    /// The octets of the header.
    pub open spec fn octets(self) -> Seq<u8> {
        seq![0x52u8, 0x54u8, 0x50u8, 0x53u8] + seq![
            self.protocol_version.major,
            self.protocol_version.minor,
        ] + self.vendor_id.vendor_id@ + self.guid_prefix.bytes@
    }

    pub fn read_from_buffer(buffer: &[u8]) -> (r: Result<Header, ReadError>)
        ensures
            r == header_of(buffer@),
    {
        if buffer.len() < RTPS_MESSAGE_HEADER_SIZE {
            return Err(ReadError::UnexpectedEnd);
        }
        if !starts_with_rtps_name(buffer) {
            return Err(ReadError::NotRtps);
        }
        Ok(
            Header {
                protocol_version: ProtocolVersion { major: buffer[4], minor: buffer[5] },
                vendor_id: VendorId { vendor_id: [buffer[6], buffer[7]] },
                guid_prefix: guid::read_guid_prefix(buffer, 8),
            },
        )
    }

    pub fn write_to_vec(&self) -> (r: Vec<u8>)
        ensures
            r@ == self.octets(),
    {
        let mut r: Vec<u8> = Vec::new();
        r.push(0x52);
        r.push(0x54);
        r.push(0x50);
        r.push(0x53);
        r.push(self.protocol_version.major);
        r.push(self.protocol_version.minor);
        r.push(self.vendor_id.vendor_id[0]);
        r.push(self.vendor_id.vendor_id[1]);
        let mut i: usize = 0;
        while i < 12
            invariant
                i <= 12,
                r@.len() == 8 + i,
                r@.take(8) =~= self.octets().take(8),
                forall|j: int| 0 <= j < i ==> r@[8 + j] == self.guid_prefix.bytes@[j],
            decreases 12 - i,
        {
            let ghost before = r@;
            r.push(self.guid_prefix.bytes[i]);
            assert(r@.take(8) =~= before.take(8));
            i = i + 1;
        }
        assert forall|j: int| 0 <= j < 8 implies r@[j] == self.octets()[j] by {
            assert(r@.take(8)[j] == self.octets().take(8)[j]);
        }
        assert(r@ =~= self.octets());
        r
    }
}

/// Reading a header that was written gives it back, whatever follows it.
pub proof fn lemma_header_round_trip(header: Header, rest: Seq<u8>)
    ensures
        header_of(header.octets() + rest) == Ok::<Header, ReadError>(header),
{
    let s = header.octets() + rest;
    assert(s.subrange(0, 4) =~= seq![0x52u8, 0x54u8, 0x50u8, 0x53u8]);
    assert(header_of(s)->Ok_0.vendor_id.vendor_id =~= header.vendor_id.vendor_id);
    assert(header_of(s)->Ok_0.guid_prefix.bytes =~= header.guid_prefix.bytes);
}

} // verus!

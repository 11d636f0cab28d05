//! Identifiers of participants and of the endpoints in them.
use vstd::prelude::*;

use crate::wire;

verus! {

/// Identifies a participant: the first twelve octets of a [`GUID`].
#[derive(Clone, Copy, Debug, Eq)]
pub struct GuidPrefix {
    pub bytes: [u8; 12],
}

impl PartialEq for GuidPrefix {
    fn eq(&self, other: &GuidPrefix) -> (r: bool) {
        let mut i: usize = 0;
        while i < 12
            invariant
                i <= 12,
                forall|j: int| 0 <= j < i ==> self.bytes@[j] == other.bytes@[j],
            decreases 12 - i,
        {
            if self.bytes[i] != other.bytes[i] {
                return false;
            }
            i = i + 1;
        }
        assert(self.bytes =~= other.bytes);
        true
    }
}

impl vstd::std_specs::cmp::PartialEqSpecImpl for GuidPrefix {
    open spec fn obeys_eq_spec() -> bool {
        true
    }

    open spec fn eq_spec(&self, other: &GuidPrefix) -> bool {
        *self == *other
    }
}

impl GuidPrefix {
    pub fn new(prefix: &[u8; 12]) -> (r: GuidPrefix)
        ensures
            r.bytes == *prefix,
    {
        GuidPrefix { bytes: *prefix }
    }

    /// The prefix that names no participant: all octets are zero.
    #[verifier::allow_in_spec]
    pub fn unknown() -> GuidPrefix
        returns
            (GuidPrefix { bytes: [0u8, 0u8, 0u8, 0u8, 0u8, 0u8, 0u8, 0u8, 0u8, 0u8, 0u8, 0u8] }),
    {
        GuidPrefix { bytes: [0, 0, 0, 0, 0, 0, 0, 0, 0, 0, 0, 0] }
    }
}

impl Default for GuidPrefix {
    fn default() -> (r: GuidPrefix)
        ensures
            r == GuidPrefix::unknown(),
    {
        GuidPrefix::unknown()
    }
}

/// The prefix whose twelve octets start at `i`.
pub open spec fn guid_prefix_at(s: Seq<u8>, i: int) -> GuidPrefix {
    GuidPrefix {
        bytes: [
            s[i],
            s[i + 1],
            s[i + 2],
            s[i + 3],
            s[i + 4],
            s[i + 5],
            s[i + 6],
            s[i + 7],
            s[i + 8],
            s[i + 9],
            s[i + 10],
            s[i + 11],
        ],
    }
}

/// Reads [`guid_prefix_at`].
pub fn read_guid_prefix(s: &[u8], i: usize) -> (r: GuidPrefix)
    requires
        i + 12 <= s.len(),
    ensures
        r == guid_prefix_at(s@, i as int),
{
    GuidPrefix {
        bytes: [
            s[i],
            s[i + 1],
            s[i + 2],
            s[i + 3],
            s[i + 4],
            s[i + 5],
            s[i + 6],
            s[i + 7],
            s[i + 8],
            s[i + 9],
            s[i + 10],
            s[i + 11],
        ],
    }
}

/// The last octet of an [`EntityId`], which says what the endpoint is.
pub struct EntityKind;

impl EntityKind {
    pub const WRITER_WITH_KEY_USER_DEFINED: u8 = 0x02;

    pub const READER_WITH_KEY_USER_DEFINED: u8 = 0x07;
}

/// Identifies an endpoint within its participant: three octets of entity key
/// followed by one of entity kind, held as one number with the first octet on
/// top, so that the numbers are ordered as the octets are.
#[derive(Clone, Copy, Debug, PartialEq, Eq, Structural)]
pub struct EntityId {
    pub value: u32,
}

impl EntityId {
    /// The identifier that names no endpoint.
    #[verifier::allow_in_spec]
    pub fn unknown() -> EntityId
        returns
            (EntityId { value: 0 }),
    {
        EntityId { value: 0 }
    }

    /// The built-in endpoint that announces a participant.
    #[verifier::allow_in_spec]
    pub fn spdp_builtin_participant_writer() -> EntityId
        returns
            (EntityId { value: 0x0001_00c2 }),
    {
        EntityId { value: 0x0001_00c2 }
    }

    /// The built-in endpoint that listens for participant announcements.
    #[verifier::allow_in_spec]
    pub fn spdp_builtin_participant_reader() -> EntityId
        returns
            (EntityId { value: 0x0001_00c7 }),
    {
        EntityId { value: 0x0001_00c7 }
    }

    pub fn create_custom_entity_id(entity_key: [u8; 3], entity_kind: u8) -> (r: EntityId)
        ensures
            r == entity_id_at(entity_key@.push(entity_kind), 0),
            r.value == 0x100_0000 * entity_key@[0] + 0x1_0000 * entity_key@[1] + 0x100
                * entity_key@[2] + entity_kind,
    {
        let a: u32 = entity_key[0] as u32;
        let b: u32 = entity_key[1] as u32;
        let c: u32 = entity_key[2] as u32;
        EntityId { value: 0x100_0000 * a + 0x1_0000 * b + 0x100 * c + entity_kind as u32 }
    }
}

/// The entity identifier whose four octets start at `i`. The byte order of a
/// submessage does not apply to it.
pub open spec fn entity_id_at(s: Seq<u8>, i: int) -> EntityId {
    EntityId { value: wire::u32_at(s, i, false) }
}

/// Reads [`entity_id_at`].
pub fn read_entity_id(s: &[u8], i: usize) -> (r: EntityId)
    requires
        i + 4 <= s.len(),
    ensures
        r == entity_id_at(s@, i as int),
{
    EntityId { value: wire::read_u32(s, i, false) }
}

/// Identifies an endpoint in the whole domain.
#[derive(Clone, Copy, Debug, PartialEq, Eq)]
pub struct GUID {
    pub prefix: GuidPrefix,
    pub entity_id: EntityId,
}

impl GUID {
    pub fn new_with_prefix_and_id(prefix: GuidPrefix, entity_id: EntityId) -> (r: GUID)
        ensures
            r == (GUID { prefix, entity_id }),
    {
        GUID { prefix, entity_id }
    }

    /// The identifier that names no endpoint of no participant.
    #[verifier::allow_in_spec]
    pub fn unknown() -> GUID
        returns
            (GUID { prefix: GuidPrefix::unknown(), entity_id: EntityId::unknown() }),
    {
        GUID { prefix: GuidPrefix::unknown(), entity_id: EntityId::unknown() }
    }
}

impl Default for GUID {
    fn default() -> (r: GUID)
        ensures
            r == GUID::unknown(),
    {
        GUID::unknown()
    }
}

} // verus!

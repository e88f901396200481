//! Identities of machines, message types and actors, as far as the network
//! needs them.
use crate::wire::{le_u16, le_u32, read_u16_le, read_u32_le, u16_le, u32_le, write_u16_le, write_u32_le};
use vstd::prelude::*;
use vstd::slice::slice_subrange;

verus! {

/// Index of a machine in the fixed network of peers.
#[derive(Clone, Copy, Debug, PartialEq, Eq, Structural)]
pub struct MachineID(pub u8);

/// The machine id that addresses every machine of the network at once.
pub const BROADCAST_MACHINE: u8 = 255;

/// The machine id that addresses every machine of the network at once.
pub fn broadcast_machine_id() -> (id: MachineID)
    ensures
        id == MachineID(BROADCAST_MACHINE),
{
    MachineID(BROADCAST_MACHINE)
}

/// Index of a message or actor type. Zero is never the type of a message: on
/// the wire it marks a turn boundary.
#[derive(Clone, Copy, Debug, PartialEq, Eq, Structural)]
pub struct ShortTypeId(pub u16);

impl ShortTypeId {
    /// The index as a plain number.
    pub open spec fn index(self) -> int {
        self.0 as int
    }

    /// The index, to select a slot of a table of inboxes.
    pub fn as_usize(&self) -> (i: usize)
        ensures
            i == self.index(),
    {
        self.0 as usize
    }
}

/// Bytes an actor id takes on the wire.
pub const RAW_ID_BYTES: usize = 8;

/// Identity of one actor instance: which instance, of which type, on which
/// machine, in which incarnation.
#[derive(Clone, Copy, Debug, PartialEq, Eq, Structural)]
pub struct RawID {
    pub instance_id: u32,
    pub type_id: ShortTypeId,
    pub machine: MachineID,
    pub version: u8,
}

impl RawID {
    /// The eight bytes of an id on the wire: instance (four bytes, least
    /// significant first), type (two bytes, least significant first),
    /// machine, version.
    pub open spec fn wire(self) -> Seq<u8> {
        u32_le(self.instance_id) + u16_le(self.type_id.0) + seq![self.machine.0, self.version]
    }

    /// The id that the first eight bytes of `bytes` stand for.
    pub open spec fn from_wire(bytes: Seq<u8>) -> RawID
        recommends
            bytes.len() >= 8,
    {
        RawID {
            instance_id: le_u32(bytes) as u32,
            type_id: ShortTypeId(le_u16(bytes.subrange(4, 6)) as u16),
            machine: MachineID(bytes[6]),
            version: bytes[7],
        }
    }

    /// An id survives the wire: reading back the bytes of an id gives that id,
    /// whatever follows them.
    pub proof fn lemma_wire_round_trip(self, rest: Seq<u8>)
        ensures
            self.wire().len() == 8,
            RawID::from_wire(self.wire() + rest) == self,
    {
        let bytes = self.wire() + rest;
        assert(bytes.subrange(4, 6) =~= u16_le(self.type_id.0));
    }

    /// Appends the wire form of the id to `buf`.
    pub fn write_to(&self, buf: &mut Vec<u8>)
        ensures
            final(buf)@ == old(buf)@ + self.wire(),
    {
        write_u32_le(buf, self.instance_id);
        write_u16_le(buf, self.type_id.0);
        buf.push(self.machine.0);
        buf.push(self.version);
        assert(buf@ =~= old(buf)@ + self.wire());
    }

    /// Reads an id from the first eight bytes of `bytes`.
    pub fn read_from(bytes: &[u8]) -> (id: RawID)
        requires
            bytes@.len() >= 8,
        ensures
            id == RawID::from_wire(bytes@),
    {
        let instance_id: u32 = read_u32_le(bytes);
        let type_id: u16 = read_u16_le(slice_subrange(bytes, 4, 6));
        RawID {
            instance_id,
            type_id: ShortTypeId(type_id),
            machine: MachineID(bytes[6]),
            version: bytes[7],
        }
    }
}

/// A message on its way to an actor: the recipient and the encoded message
/// behind it.
#[derive(Clone, Debug)]
pub struct Packet {
    pub recipient_id: RawID,
    pub message: Vec<u8>,
}

impl Packet {
    /// The bytes of the packet on the wire: the recipient, then the message.
    pub open spec fn wire(self) -> Seq<u8> {
        self.recipient_id.wire() + self.message@
    }
}

} // verus!

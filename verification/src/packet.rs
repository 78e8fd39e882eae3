//! Packets of the remote serial protocol. The codec itself is the crate
//! `gdb_protocol`; a [`Packet`] holds what the codec's packet holds.
use crate::hex::digit_value;
use vstd::prelude::*;

verus! {

/// What a packet is: a notification (`%`) or an ordinary packet (`$`).
#[derive(Clone, Copy, Debug, PartialEq, Eq, Structural)]
pub enum Kind {
    Notification,
    Packet,
}

/// A packet as it came over the wire or as it will go out: the payload and
/// the two checksum characters that came or go with it.
#[derive(Debug, PartialEq, Eq)]
pub struct Packet {
    pub kind: Kind,
    pub data: Vec<u8>,
    pub checksum: [u8; 2],
}

/// What a packet holds.
pub struct PacketView {
    pub kind: Kind,
    pub data: Seq<u8>,
    pub checksum: Seq<u8>,
}

impl View for Packet {
    type V = PacketView;

    open spec fn view(&self) -> PacketView {
        PacketView { kind: self.kind, data: self.data@, checksum: self.checksum@ }
    }
}

/// The sum of the bytes of `data`, modulo 256.
pub open spec fn checksum_of(data: Seq<u8>) -> nat
    decreases data.len(),
{
    if data.len() == 0 {
        0
    } else {
        ((checksum_of(data.drop_last()) + data.last()) % 256) as nat
    }
}

/// The upper-case hexadecimal digit of a value below sixteen.
pub open spec fn upper_digit(value: nat) -> u8 {
    if value < 10 {
        (0x30 + value) as u8
    } else {
        (0x41 + value - 10) as u8
    }
}

/// The two checksum characters of a payload: its checksum as two
/// upper-case hexadecimal digits.
pub open spec fn checksum_digits(data: Seq<u8>) -> Seq<u8> {
    seq![upper_digit(checksum_of(data) / 16), upper_digit(checksum_of(data) % 16)]
}

/// The number that two checksum characters declare: two hexadecimal digits
/// in either case, or a plus sign and one digit; nothing else is a number.
pub open spec fn declared_checksum(checksum: Seq<u8>) -> Option<nat> {
    if checksum.len() != 2 {
        None
    } else if checksum[0] == 0x2b {
        match digit_value(checksum[1]) {
            Some(low) => Some(low as nat),
            None => None,
        }
    } else {
        match (digit_value(checksum[0]), digit_value(checksum[1])) {
            (Some(high), Some(low)) => Some((16 * high + low) as nat),
            _ => None,
        }
    }
}

/// The ordinary packet that carries `data`, with the checksum characters
/// that belong to it.
pub open spec fn packet_of(data: Seq<u8>) -> PacketView {
    PacketView { kind: Kind::Packet, data, checksum: checksum_digits(data) }
}

/// Whether the checksum characters of a packet belong to its payload.
pub open spec fn is_valid(packet: PacketView) -> bool {
    declared_checksum(packet.checksum) == Some(checksum_of(packet.data))
}

/// The bytes that the codec puts on the wire for a packet. The codec does
/// not promise one form among those that the protocol allows.
pub uninterp spec fn wire_form(notification: bool, data: Seq<u8>, checksum: Seq<u8>) -> Seq<u8>;

/// `gdb_protocol::packet::UncheckedPacket::is_valid`: whether the checksum
/// characters, read as a hexadecimal number, are the sum of the payload's
/// bytes modulo 256. The codec reads the characters with
/// `u8::from_str_radix`, which takes digits in either case and a plus sign
/// before them, and nothing else.
#[verifier::external_body]
fn codec_is_valid(packet: &Packet) -> (r: bool)
    ensures
        r == (declared_checksum(packet.checksum@) == Some(checksum_of(packet.data@))),
{
    let unchecked = gdb_protocol::packet::UncheckedPacket {
        kind: match packet.kind {
            Kind::Notification => gdb_protocol::packet::Kind::Notification,
            Kind::Packet => gdb_protocol::packet::Kind::Packet,
        },
        data: packet.data.clone(),
        checksum: packet.checksum,
    };
    unchecked.is_valid()
}

/// `gdb_protocol::packet::CheckedPacket::from_data`: a packet of the given
/// kind and payload, with the checksum characters that belong to the
/// payload.
#[verifier::external_body]
fn codec_from_data(kind: Kind, data: Vec<u8>) -> (packet: Packet)
    ensures
        packet.kind == kind,
        packet.data@ == data@,
        packet.checksum@ == checksum_digits(data@),
{
    let codec_kind = match kind {
        Kind::Notification => gdb_protocol::packet::Kind::Notification,
        Kind::Packet => gdb_protocol::packet::Kind::Packet,
    };
    let made = gdb_protocol::packet::CheckedPacket::from_data(codec_kind, data);
    Packet { kind, data: made.data.clone(), checksum: made.checksum }
}

/// `gdb_protocol::packet::UncheckedPacket::encode` into a vector: the bytes
/// that go on the wire for the packet.
#[verifier::external_body]
fn codec_encode(packet: &Packet) -> (bytes: Vec<u8>)
    ensures
        bytes@ == wire_form(packet.kind is Notification, packet.data@, packet.checksum@),
{
    let unchecked = gdb_protocol::packet::UncheckedPacket {
        kind: match packet.kind {
            Kind::Notification => gdb_protocol::packet::Kind::Notification,
            Kind::Packet => gdb_protocol::packet::Kind::Packet,
        },
        data: packet.data.clone(),
        checksum: packet.checksum,
    };
    let mut bytes = Vec::new();
    let _ = unchecked.encode(&mut bytes);
    bytes
}

impl Packet {
    /// Whether the checksum characters of the packet belong to its payload.
    pub open spec fn valid(&self) -> bool {
        is_valid(self@)
    }

    /// Whether the checksum characters of the packet belong to its payload.
    pub fn is_valid(&self) -> (r: bool)
        ensures
            r == self.valid(),
    {
        codec_is_valid(self)
    }

    /// The packet of kind `kind` that carries `data`.
    pub fn from_data(kind: Kind, data: Vec<u8>) -> (packet: Packet)
        ensures
            packet.kind == kind,
            packet.data@ == data@,
            packet.checksum@ == checksum_digits(data@),
            packet.valid(),
    {
        proof {
            lemma_own_checksum_is_valid(data@);
        }
        codec_from_data(kind, data)
    }

    /// The bytes that go on the wire for the packet.
    pub fn encode(&self) -> (bytes: Vec<u8>)
        ensures
            bytes@ == wire_form(self.kind is Notification, self.data@, self.checksum@),
    {
        codec_encode(self)
    }
}

/// The checksum of a payload is below 256.
pub proof fn lemma_checksum_is_a_byte(data: Seq<u8>)
    ensures
        checksum_of(data) < 256,
    decreases data.len(),
{
    if data.len() > 0 {
        lemma_checksum_is_a_byte(data.drop_last());
    }
}

/// The checksum characters that belong to a payload declare its checksum:
/// a packet made from a payload is valid.
pub proof fn lemma_own_checksum_is_valid(data: Seq<u8>)
    ensures
        declared_checksum(checksum_digits(data)) == Some(checksum_of(data)),
{
    lemma_checksum_is_a_byte(data);
}

} // verus!

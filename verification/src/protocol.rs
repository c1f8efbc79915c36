//! Framing of the camera command protocol: the command and reply headers and
//! the payloads of register reads and writes, as they go into USB control
//! transfers.

use vstd::prelude::*;

use crate::codec::{le16, u16_from_le, u16_to_le};

verus! {

broadcast use vstd::array::group_array_axioms;

/// Camera command header (8 bytes) used for register read/write.
#[derive(Debug, Clone, Copy)]
pub struct CamCmdHeader {
    /// 0x47, 0x4d ('G', 'M')
    pub magic: [u8; 2],
    /// Payload length in u16 words
    pub len: u16,
    /// Command opcode (0x02=read, 0x03=write, 0x95=cmos)
    pub cmd: u16,
    /// Sequence tag
    pub tag: u16,
}

/// The eight bytes of a header: the two magic bytes, then length, command
/// and tag as little-endian 16-bit words.
pub open spec fn header_bytes(magic: [u8; 2], len: u16, cmd: u16, tag: u16) -> Seq<u8> {
    seq![
        magic[0],
        magic[1],
        (len % 256) as u8,
        (len / 256) as u8,
        (cmd % 256) as u8,
        (cmd / 256) as u8,
        (tag % 256) as u8,
        (tag / 256) as u8,
    ]
}

/// The length word of a command header for a payload of `payload_len_bytes`
/// bytes: the payload in 16-bit words, truncated to 16 bits.
pub open spec fn payload_words(payload_len_bytes: usize) -> u16 {
    (payload_len_bytes / 2) as u16
}

impl CamCmdHeader {
    pub const SIZE: usize = 8;

    pub fn new(cmd: u16, tag: u16, payload_len_bytes: usize) -> (r: Self)
        ensures
            r.magic[0] == 0x47,
            r.magic[1] == 0x4d,
            r.len == payload_words(payload_len_bytes),
            r.cmd == cmd,
            r.tag == tag,
    {
        CamCmdHeader { magic: [0x47, 0x4d], len: (payload_len_bytes / 2) as u16, cmd, tag }
    }

    pub fn to_bytes(&self) -> (r: [u8; 8])
        ensures
            r@ == header_bytes(self.magic, self.len, self.cmd, self.tag),
    {
        let (l0, l1) = u16_to_le(self.len);
        let (c0, c1) = u16_to_le(self.cmd);
        let (t0, t1) = u16_to_le(self.tag);
        let r = [self.magic[0], self.magic[1], l0, l1, c0, c1, t0, t1];
        assert(r@ =~= header_bytes(self.magic, self.len, self.cmd, self.tag));
        r
    }

    pub fn from_bytes(data: &[u8]) -> (r: Option<Self>)
        ensures
            r is Some <==> data@.len() >= 8,
            r matches Some(h) ==> {
                &&& h.magic[0] == data@[0]
                &&& h.magic[1] == data@[1]
                &&& h.len == le16(data@[2], data@[3])
                &&& h.cmd == le16(data@[4], data@[5])
                &&& h.tag == le16(data@[6], data@[7])
            },
    {
        if data.len() < 8 {
            return None;
        }
        Some(
            CamCmdHeader {
                magic: [data[0], data[1]],
                len: u16_from_le(data[2], data[3]),
                cmd: u16_from_le(data[4], data[5]),
                tag: u16_from_le(data[6], data[7]),
            },
        )
    }
}

/// Reading a serialized header gives back its fields.
pub proof fn lemma_header_bytes_roundtrip(magic: [u8; 2], len: u16, cmd: u16, tag: u16)
    ensures
        ({
            let b = header_bytes(magic, len, cmd, tag);
            &&& b.len() == 8
            &&& b[0] == magic[0]
            &&& b[1] == magic[1]
            &&& le16(b[2], b[3]) == len
            &&& le16(b[4], b[5]) == cmd
            &&& le16(b[6], b[7]) == tag
        }),
{
}

/// Reply header returned by the camera.
#[derive(Debug, Clone, Copy)]
pub struct CamReplyHeader {
    /// Expected: 0x52, 0x42 ('R', 'B')
    pub magic: [u8; 2],
    pub len: u16,
    pub cmd: u16,
    pub tag: u16,
}

impl CamReplyHeader {
    pub fn from_bytes(data: &[u8]) -> (r: Option<Self>)
        ensures
            r is Some <==> data@.len() >= 8,
            r matches Some(h) ==> {
                &&& h.magic[0] == data@[0]
                &&& h.magic[1] == data@[1]
                &&& h.len == le16(data@[2], data@[3])
                &&& h.cmd == le16(data@[4], data@[5])
                &&& h.tag == le16(data@[6], data@[7])
            },
    {
        if data.len() < 8 {
            return None;
        }
        Some(
            CamReplyHeader {
                magic: [data[0], data[1]],
                len: u16_from_le(data[2], data[3]),
                cmd: u16_from_le(data[4], data[5]),
                tag: u16_from_le(data[6], data[7]),
            },
        )
    }

    /// The reply acknowledges ("RB") the command `expected_cmd` with the tag
    /// `expected_tag`.
    pub fn is_valid(&self, expected_cmd: u16, expected_tag: u16) -> (r: bool)
        ensures
            r == (self.magic[0] == 0x52 && self.magic[1] == 0x42 && self.cmd == expected_cmd
                && self.tag == expected_tag),
    {
        self.magic[0] == 0x52 && self.magic[1] == 0x42 && self.cmd == expected_cmd && self.tag
            == expected_tag
    }
}

/// The little-endian bytes of a 16-bit word.
pub open spec fn le_bytes(v: u16) -> Seq<u8> {
    seq![(v % 256) as u8, (v / 256) as u8]
}

/// Build a camera read-register command payload.
pub fn read_register_cmd(reg: u16) -> (r: [u8; 2])
    ensures
        r@ == le_bytes(reg),
{
    let (a, b) = u16_to_le(reg);
    let r = [a, b];
    assert(r@ =~= le_bytes(reg));
    r
}

/// Build a camera write-register command payload.
pub fn write_register_cmd(reg: u16, value: u16) -> (r: [u8; 4])
    ensures
        r@ == le_bytes(reg) + le_bytes(value),
{
    let (a, b) = u16_to_le(reg);
    let (c, d) = u16_to_le(value);
    let r = [a, b, c, d];
    assert(r@ =~= le_bytes(reg) + le_bytes(value));
    r
}

/// The register word of a CMOS read: the address with the top bit clear.
pub open spec fn cmos_read_addr(reg: u16) -> u16 {
    (reg % 32768) as u16
}

/// The register word of a CMOS write: the address with the top bit set.
pub open spec fn cmos_write_addr(reg: u16) -> u16 {
    (reg % 32768 + 32768) as u16
}

/// Build a CMOS read command payload: a count of one, the address with the
/// top bit clear, and a zero value.
pub fn read_cmos_cmd(reg: u16) -> (r: [u8; 6])
    ensures
        r@ == le_bytes(1) + le_bytes(cmos_read_addr(reg)) + le_bytes(0),
{
    let addr = reg & 0x7fffu16;
    assert(reg & 0x7fffu16 == reg % 32768) by (bit_vector);
    let (a, b) = u16_to_le(addr);
    let r = [1u8, 0u8, a, b, 0u8, 0u8];
    assert(r@ =~= le_bytes(1) + le_bytes(cmos_read_addr(reg)) + le_bytes(0));
    r
}

/// Build a CMOS write command payload: a count of one, the address with the
/// top bit set, and the value.
pub fn write_cmos_cmd(reg: u16, value: u16) -> (r: [u8; 6])
    ensures
        r@ == le_bytes(1) + le_bytes(cmos_write_addr(reg)) + le_bytes(value),
{
    let addr = reg | 0x8000u16;
    assert(reg | 0x8000u16 == reg % 32768 + 32768) by (bit_vector);
    let (a, b) = u16_to_le(addr);
    let (c, d) = u16_to_le(value);
    let r = [1u8, 0u8, a, b, c, d];
    assert(r@ =~= le_bytes(1) + le_bytes(cmos_write_addr(reg)) + le_bytes(value));
    r
}

/// The bytes of a command packet: the header for the payload, then the
/// payload.
pub open spec fn cmd_packet(cmd: u16, tag: u16, payload: Seq<u8>) -> Seq<u8> {
    header_bytes([0x47u8, 0x4du8], payload_words(payload.len() as usize), cmd, tag) + payload
}

/// Assemble a full command packet (header + payload). The payload is made of
/// whole 16-bit words.
pub fn assemble_cmd_packet(cmd: u16, tag: u16, payload: &[u8]) -> (r: Vec<u8>)
    requires
        payload@.len() % 2 == 0,
    ensures
        r@ == cmd_packet(cmd, tag, payload@),
        r@.len() == 8 + payload@.len(),
{
    let hdr = CamCmdHeader::new(cmd, tag, payload.len());
    let hb = hdr.to_bytes();
    let mut packet: Vec<u8> = Vec::new();
    let mut i: usize = 0;
    while i < 8
        invariant
            i <= 8,
            packet@ == hb@.take(i as int),
        decreases 8 - i,
    {
        packet.push(hb[i]);
        i = i + 1;
        assert(packet@ =~= hb@.take(i as int));
    }
    let mut j: usize = 0;
    while j < payload.len()
        invariant
            j <= payload@.len(),
            packet@ == hb@ + payload@.take(j as int),
        decreases payload@.len() - j,
    {
        packet.push(payload[j]);
        j = j + 1;
        assert(packet@ =~= hb@ + payload@.take(j as int));
    }
    assert(payload@.take(payload@.len() as int) =~= payload@);
    assert(hdr.magic@ =~= [0x47u8, 0x4du8]@);
    assert(packet@ =~= cmd_packet(cmd, tag, payload@));
    packet
}

} // verus!

verus! {

/// A command packet reads back as what it was made of: the magic `"GM"`,
/// the payload length in words, the command and the tag, then the payload.
pub proof fn lemma_cmd_packet_layout(cmd: u16, tag: u16, payload: Seq<u8>)
    requires
        payload.len() < 0x20000,
    ensures
        ({
            let p = cmd_packet(cmd, tag, payload);
            &&& p.len() == 8 + payload.len()
            &&& p[0] == 0x47 && p[1] == 0x4d
            &&& le16(p[2], p[3]) == payload.len() / 2
            &&& le16(p[4], p[5]) == cmd
            &&& le16(p[6], p[7]) == tag
            &&& p.skip(8) == payload
        }),
{
    let p = cmd_packet(cmd, tag, payload);
    lemma_header_bytes_roundtrip([0x47u8, 0x4du8], payload_words(payload.len() as usize), cmd, tag);
    assert(p.skip(8) =~= payload);
}

} // verus!

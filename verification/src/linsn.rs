//! The Linsn wire codec: pixels, MAC addresses, the 32-byte packet header
//! with its byte-sum checksum, and Ethernet II framing.

use vstd::arithmetic::div_mod::{lemma_fundamental_div_mod, lemma_mod_multiples_basic};
use vstd::prelude::*;

verus! {

broadcast use vstd::array::group_array_axioms;

/// Size of the Linsn packet header in bytes.
pub const HEADER_SIZE: usize = 0x20;

/// Bytes of an Ethernet II header: two MACs and the ethertype.
pub const ETHERNET_HEADER_SIZE: usize = 14;

/// Ethertype of packets travelling towards the LED controller.
pub const ETHERNET_TYPE_SENDER: u16 = 0xAA55;

/// Payload bytes carried by one sender packet.
pub const PAYLOAD_SIZE_SENDER: usize = 1440;

/// Ethertype of packets travelling back from the LED controller
/// (declared for wire compatibility; this crate never parses them).
pub const ETHERNET_TYPE_RECEIVER: u16 = 0xAA56;

/// Payload bytes carried by one receiver packet.
pub const PAYLOAD_SIZE_RECEIVER: usize = 1450;

/// Width in pixels of the fixed frame geometry the device accepts.
pub const LINSN_FRAME_WIDTH: u32 = 1024;

/// Height in pixels of the fixed frame geometry the device accepts.
pub const LINSN_FRAME_HEIGHT: u32 = 512;

/// An 8-bit-per-channel RGB pixel.
#[derive(Debug, Clone, Copy, PartialEq, Eq, Structural)]
pub struct Pixel {
    pub r: u8,
    pub g: u8,
    pub b: u8,
}

impl Pixel {
    pub fn new(r: u8, g: u8, b: u8) -> (p: Pixel)
        ensures
            p == (Pixel { r, g, b }),
    {
        Pixel { r, g, b }
    }
}

/// A 48-bit Ethernet MAC address, most significant octet first.
#[derive(Debug, Clone, Copy, PartialEq, Eq, Structural)]
pub struct MacAddr(pub u8, pub u8, pub u8, pub u8, pub u8, pub u8);

impl MacAddr {
    /// The six octets in wire order.
    pub open spec fn bytes(self) -> Seq<u8> {
        seq![self.0, self.1, self.2, self.3, self.4, self.5]
    }

    /// The all-ones broadcast address.
    pub fn broadcast() -> (m: MacAddr)
        ensures
            m == (MacAddr(0xff, 0xff, 0xff, 0xff, 0xff, 0xff)),
    {
        MacAddr(0xff, 0xff, 0xff, 0xff, 0xff, 0xff)
    }

    /// The all-zero address; Linsn controllers accept it as a destination.
    pub fn zero() -> (m: MacAddr)
        ensures
            m == (MacAddr(0, 0, 0, 0, 0, 0)),
    {
        MacAddr(0, 0, 0, 0, 0, 0)
    }
}

/// The commands a Linsn header can carry.
#[derive(Debug, Clone, Copy, PartialEq, Eq, Structural)]
pub enum LinsnCommand {
    NONE,
    CONFIG,
    ANNOUNCE,
}

impl LinsnCommand {
    /// The command byte as it appears at offset 8 of the header.
    pub open spec fn spec_byte(self) -> u8 {
        match self {
            LinsnCommand::NONE => 0x00,
            LinsnCommand::CONFIG => 0x61,
            LinsnCommand::ANNOUNCE => 0x96,
        }
    }

    pub fn byte(self) -> (b: u8)
        ensures
            b == self.spec_byte(),
    {
        match self {
            LinsnCommand::NONE => 0x00,
            LinsnCommand::CONFIG => 0x61,
            LinsnCommand::ANNOUNCE => 0x96,
        }
    }
}

/// Reordering of an RGB triple as it is laid out on the wire.
/// The Linsn device expects `BRG` order for payload bytes.
#[derive(Debug, Clone, Copy, PartialEq, Eq, Structural)]
pub enum ColorFormat {
    RGB,
    GBR,
    BRG,
    BGR,
}

/// The three wire bytes of one pixel under the given channel ordering.
pub open spec fn spec_pixel_to_bytes(format: ColorFormat, pixel: Pixel) -> Seq<u8> {
    match format {
        ColorFormat::GBR => seq![pixel.g, pixel.b, pixel.r],
        ColorFormat::RGB => seq![pixel.r, pixel.g, pixel.b],
        ColorFormat::BRG => seq![pixel.b, pixel.r, pixel.g],
        ColorFormat::BGR => seq![pixel.b, pixel.g, pixel.r],
    }
}

/// Reorders a pixel's channels for the wire.
pub fn pixel_to_bytes(format: ColorFormat, pixel: &Pixel) -> (bytes: [u8; 3])
    ensures
        bytes@ == spec_pixel_to_bytes(format, *pixel),
{
    let bytes = match format {
        ColorFormat::GBR => [pixel.g, pixel.b, pixel.r],
        ColorFormat::RGB => [pixel.r, pixel.g, pixel.b],
        ColorFormat::BRG => [pixel.b, pixel.r, pixel.g],
        ColorFormat::BGR => [pixel.b, pixel.g, pixel.r],
    };
    proof {
        assert(bytes@ =~= spec_pixel_to_bytes(format, *pixel));
    }
    bytes
}

/// Reorders wide channel values for the wire, keeping only the low byte of each.
pub fn rgb_to_bytes(format: ColorFormat, red: u16, green: u16, blue: u16) -> (bytes: [u8; 3])
    ensures
        bytes@ == spec_pixel_to_bytes(
            format,
            Pixel { r: (red & 0xFF) as u8, g: (green & 0xFF) as u8, b: (blue & 0xFF) as u8 },
        ),
{
    assert(red & 0xFF < 256 && green & 0xFF < 256 && blue & 0xFF < 256) by (bit_vector);
    let r = (red & 0xFF) as u8;
    let g = (green & 0xFF) as u8;
    let b = (blue & 0xFF) as u8;

    let bytes = match format {
        ColorFormat::GBR => [g, b, r],
        ColorFormat::RGB => [r, g, b],
        ColorFormat::BRG => [b, r, g],
        ColorFormat::BGR => [b, g, r],
    };
    proof {
        assert(bytes@ =~= spec_pixel_to_bytes(
            format,
            Pixel { r: (red & 0xFF) as u8, g: (green & 0xFF) as u8, b: (blue & 0xFF) as u8 },
        ));
    }
    bytes
}

/// A sequence of `n` zero bytes.
pub open spec fn zero_bytes(n: int) -> Seq<u8> {
    Seq::new(n as nat, |i: int| 0u8)
}

/// Sum of a byte sequence, as an unbounded integer.
pub open spec fn byte_sum(s: Seq<u8>) -> int
    decreases s.len(),
{
    if s.len() == 0 {
        0
    } else {
        byte_sum(s.drop_last()) + s.last()
    }
}

pub proof fn lemma_byte_sum_nonneg(s: Seq<u8>)
    ensures
        0 <= byte_sum(s),
    decreases s.len(),
{
    if s.len() > 0 {
        lemma_byte_sum_nonneg(s.drop_last());
    }
}

pub proof fn lemma_byte_sum_singleton(x: u8)
    ensures
        byte_sum(seq![x]) == x,
{
    reveal_with_fuel(byte_sum, 2);
    assert(seq![x].drop_last() =~= Seq::<u8>::empty());
    assert(byte_sum(seq![x]) == byte_sum(Seq::<u8>::empty()) + x);
}

pub proof fn lemma_byte_sum_concat(a: Seq<u8>, b: Seq<u8>)
    ensures
        byte_sum(a + b) == byte_sum(a) + byte_sum(b),
    decreases b.len(),
{
    if b.len() == 0 {
        assert(a + b =~= a);
    } else {
        lemma_byte_sum_concat(a, b.drop_last());
        assert((a + b).drop_last() =~= a + b.drop_last());
    }
}

pub proof fn lemma_byte_sum_take_step(s: Seq<u8>, i: int)
    requires
        0 <= i < s.len(),
    ensures
        byte_sum(s.take(i + 1)) == byte_sum(s.take(i)) + s[i],
{
    assert(s.take(i + 1).drop_last() =~= s.take(i));
    assert(s.take(i + 1).last() == s[i]);
}

pub proof fn lemma_byte_sum_zero(n: int)
    requires
        0 <= n,
    ensures
        byte_sum(zero_bytes(n)) == 0,
    decreases n,
{
    if n > 0 {
        assert(zero_bytes(n).drop_last() =~= zero_bytes(n - 1));
        lemma_byte_sum_zero(n - 1);
    }
}

/// Byte sum of everything a header checksum covers: the four `unknown`
/// bytes, the command byte, and the 22 bytes of command data.
pub open spec fn header_byte_sum(unknown: Seq<u8>, cmd: u8, cmd_data: Seq<u8>) -> int {
    byte_sum(unknown) + cmd + byte_sum(cmd_data)
}

/// The low byte of the two's complement of the covered byte sum:
/// `(0x100 - sum mod 0x100) mod 0x100`.
pub open spec fn spec_checksum(unknown: Seq<u8>, cmd: u8, cmd_data: Seq<u8>) -> u8 {
    (((0x100 - header_byte_sum(unknown, cmd, cmd_data) % 0x100) % 0x100) as u8)
}

/// The four bytes of a `u32` in little-endian order.
pub open spec fn u32_le_bytes(x: u32) -> Seq<u8> {
    seq![
        (x & 0xFF) as u8,
        ((x >> 8) & 0xFF) as u8,
        ((x >> 16) & 0xFF) as u8,
        ((x >> 24) & 0xFF) as u8,
    ]
}

/// A `u32` recombined from four little-endian bytes.
pub open spec fn u32_from_le_bytes(b0: u8, b1: u8, b2: u8, b3: u8) -> u32 {
    (b0 as u32) | ((b1 as u32) << 8) | ((b2 as u32) << 16) | ((b3 as u32) << 24)
}

pub proof fn lemma_u32_le_round_trip(x: u32)
    ensures
        u32_from_le_bytes(
            u32_le_bytes(x)[0],
            u32_le_bytes(x)[1],
            u32_le_bytes(x)[2],
            u32_le_bytes(x)[3],
        ) == x,
{
    assert((((x & 0xFF) as u8) as u32) | ((((x >> 8) & 0xFF) as u8) as u32) << 8 | ((((x >> 16)
        & 0xFF) as u8) as u32) << 16 | ((((x >> 24) & 0xFF) as u8) as u32) << 24 == x)
        by (bit_vector);
}

/// The 32-byte Linsn packet header.
#[derive(Debug, Clone, Copy)]
pub struct LinsnHeader {
    pub package_id: u32,
    pub unknown: [u8; 4],
    pub cmd: u8,
    pub cmd_data: [u8; 22],
    pub checksum: u8,
}

impl LinsnHeader {
    /// The 32-byte wire serialisation: little-endian `package_id`, the four
    /// `unknown` bytes, the command byte, 22 bytes of command data, and the
    /// checksum.
    pub open spec fn spec_bytes(self) -> Seq<u8> {
        u32_le_bytes(self.package_id) + self.unknown@ + seq![self.cmd] + self.cmd_data@
            + seq![self.checksum]
    }

    /// A well-formed header carries the checksum of its own covered bytes.
    pub open spec fn wf(self) -> bool {
        self.checksum == spec_checksum(self.unknown@, self.cmd, self.cmd_data@)
    }

    /// Builds a header with zeroed `unknown` bytes and a freshly computed
    /// checksum.
    pub fn new(package_id: u32, cmd: u8, cmd_data: [u8; 22]) -> (h: LinsnHeader)
        ensures
            h.package_id == package_id,
            h.unknown@ == zero_bytes(4),
            h.cmd == cmd,
            h.cmd_data == cmd_data,
            h.wf(),
    {
        let unknown = [0u8; 4];
        proof {
            assert(unknown@ =~= zero_bytes(4));
        }
        LinsnHeader {
            package_id,
            unknown,
            cmd,
            cmd_data,
            checksum: LinsnHeader::calculate_checksum(unknown, cmd, cmd_data),
        }
    }

    /// Sums the covered bytes in 32-bit arithmetic and returns the low byte
    /// of the two's complement of the sum.
    pub fn calculate_checksum(unknown: [u8; 4], cmd: u8, cmd_data: [u8; 22]) -> (c: u8)
        ensures
            c == spec_checksum(unknown@, cmd, cmd_data@),
    {
        let mut checksum: u32 = 0;
        for i in 0..4
            invariant
                checksum == byte_sum(unknown@.take(i as int)),
                checksum <= 255 * i,
        {
            proof {
                lemma_byte_sum_take_step(unknown@, i as int);
            }
            checksum = checksum + unknown[i] as u32;
        }
        proof {
            assert(unknown@.take(4) =~= unknown@);
        }
        checksum = checksum + cmd as u32;
        let ghost base: int = byte_sum(unknown@) + cmd;
        for i in 0..22
            invariant
                checksum == base + byte_sum(cmd_data@.take(i as int)),
                checksum <= 255 * 5 + 255 * i,
                base == byte_sum(unknown@) + cmd,
        {
            proof {
                lemma_byte_sum_take_step(cmd_data@, i as int);
            }
            checksum = checksum + cmd_data[i] as u32;
        }
        proof {
            assert(cmd_data@.take(22) =~= cmd_data@);
        }
        let low = checksum % 0x100;
        let c = (0x100 - low) % 0x100;
        c as u8
    }

    /// Serialises the header to its 32 wire bytes.
    pub fn to_bytes(self) -> (bytes: Vec<u8>)
        ensures
            bytes@ == self.spec_bytes(),
            bytes@.len() == 32,
    {
        let pid = self.package_id;
        assert(pid & 0xFF < 256 && (pid >> 8) & 0xFF < 256 && (pid >> 16) & 0xFF < 256 && (pid
            >> 24) & 0xFF < 256) by (bit_vector);
        let mut bytes: Vec<u8> = Vec::new();
        bytes.push((pid & 0xFF) as u8);
        bytes.push(((pid >> 8) & 0xFF) as u8);
        bytes.push(((pid >> 16) & 0xFF) as u8);
        bytes.push(((pid >> 24) & 0xFF) as u8);
        for i in 0..4
            invariant
                bytes@ == u32_le_bytes(self.package_id) + self.unknown@.take(i as int),
        {
            bytes.push(self.unknown[i]);
            proof {
                assert(self.unknown@.take(i + 1) =~= self.unknown@.take(i as int).push(
                    self.unknown@[i as int],
                ));
                assert(bytes@ =~= u32_le_bytes(self.package_id) + self.unknown@.take(i + 1));
            }
        }
        bytes.push(self.cmd);
        let ghost prefix = u32_le_bytes(self.package_id) + self.unknown@ + seq![self.cmd];
        proof {
            assert(self.unknown@.take(4) =~= self.unknown@);
            assert(bytes@ =~= prefix);
        }
        for i in 0..22
            invariant
                bytes@ == prefix + self.cmd_data@.take(i as int),
                prefix == u32_le_bytes(self.package_id) + self.unknown@ + seq![self.cmd],
        {
            bytes.push(self.cmd_data[i]);
            proof {
                assert(self.cmd_data@.take(i + 1) =~= self.cmd_data@.take(i as int).push(
                    self.cmd_data@[i as int],
                ));
                assert(bytes@ =~= prefix + self.cmd_data@.take(i + 1));
            }
        }
        bytes.push(self.checksum);
        proof {
            assert(self.cmd_data@.take(22) =~= self.cmd_data@);
            assert(bytes@ =~= self.spec_bytes());
        }
        bytes
    }

    /// The `NONE` header: zero command data and, consequently, a zero
    /// checksum.
    pub fn empty(package_id: u32) -> (h: LinsnHeader)
        ensures
            h.package_id == package_id,
            h.unknown@ == zero_bytes(4),
            h.cmd == LinsnCommand::NONE.spec_byte(),
            h.cmd_data@ == zero_bytes(22),
            h.checksum == 0,
            h.wf(),
    {
        let h = LinsnHeader {
            package_id,
            unknown: [0u8; 4],
            cmd: LinsnCommand::NONE.byte(),
            cmd_data: [0u8; 22],
            checksum: 0,
        };
        proof {
            assert(h.unknown@ =~= zero_bytes(4));
            assert(h.cmd_data@ =~= zero_bytes(22));
            lemma_byte_sum_zero(4);
            lemma_byte_sum_zero(22);
        }
        h
    }

    /// The announce header: command `0x96` whose data carries a fixed
    /// 16-byte signature followed by the sender's MAC.
    pub fn identify(package_id: u32, sender_mac: MacAddr) -> (h: LinsnHeader)
        ensures
            h.package_id == package_id,
            h.unknown@ == zero_bytes(4),
            h.cmd == LinsnCommand::ANNOUNCE.spec_byte(),
            h.cmd_data@ == announce_data(sender_mac),
            h.wf(),
    {
        let cmd_data: [u8; 22] = [
            0x00,
            0x00,
            0x00,
            0x85,
            0x1f,
            0xff,
            0xff,
            0xff,
            0xff,
            0x00,
            0x00,
            0x00,
            0x00,
            0x00,
            0x00,
            0x00,
            sender_mac.0,
            sender_mac.1,
            sender_mac.2,
            sender_mac.3,
            sender_mac.4,
            sender_mac.5,
        ];
        proof {
            assert(cmd_data@ =~= announce_data(sender_mac));
        }
        LinsnHeader::new(package_id, LinsnCommand::ANNOUNCE.byte(), cmd_data)
    }

    /// The header of a frame's first packet: an announce with package id 0.
    pub fn chunk_start(sender_mac: MacAddr) -> (h: LinsnHeader)
        ensures
            h.package_id == 0,
            h.unknown@ == zero_bytes(4),
            h.cmd == LinsnCommand::ANNOUNCE.spec_byte(),
            h.cmd_data@ == announce_data(sender_mac),
            h.wf(),
    {
        LinsnHeader::identify(0, sender_mac)
    }

    /// Parses 32 wire bytes back into a header; rejects any other length.
    pub fn from_bytes(bytes: &Vec<u8>) -> (r: Option<LinsnHeader>)
        ensures
            r is Some <==> bytes@.len() == 32,
            match r {
                Some(h) => parses_to(bytes@, h),
                None => bytes@.len() != 32,
            },
    {
        if bytes.len() != 32 {
            return None;
        }
        let package_id = (bytes[0] as u32) | ((bytes[1] as u32) << 8) | ((bytes[2] as u32) << 16)
            | ((bytes[3] as u32) << 24);
        let unknown: [u8; 4] = [bytes[4], bytes[5], bytes[6], bytes[7]];
        let cmd_data: [u8; 22] = [
            bytes[9],
            bytes[10],
            bytes[11],
            bytes[12],
            bytes[13],
            bytes[14],
            bytes[15],
            bytes[16],
            bytes[17],
            bytes[18],
            bytes[19],
            bytes[20],
            bytes[21],
            bytes[22],
            bytes[23],
            bytes[24],
            bytes[25],
            bytes[26],
            bytes[27],
            bytes[28],
            bytes[29],
            bytes[30],
        ];
        let h = LinsnHeader { package_id, unknown, cmd: bytes[8], cmd_data, checksum: bytes[31] };
        proof {
            assert(h.unknown@ =~= bytes@.subrange(4, 8));
            assert(h.cmd_data@ =~= bytes@.subrange(9, 31));
        }
        Some(h)
    }
}

/// Appends all of `data` to `out`.
pub fn append_bytes(out: &mut Vec<u8>, data: &Vec<u8>)
    ensures
        final(out)@ == old(out)@ + data@,
{
    let n = data.len();
    for i in 0..n
        invariant
            n == data@.len(),
            out@ == old(out)@ + data@.take(i as int),
    {
        out.push(data[i]);
        proof {
            assert(data@.take(i + 1) =~= data@.take(i as int).push(data@[i as int]));
            assert(out@ =~= old(out)@ + data@.take(i + 1));
        }
    }
    proof {
        assert(data@.take(n as int) =~= data@);
    }
}

/// The two bytes of a `u16` in big-endian (network) order.
pub open spec fn u16_be_bytes(x: u16) -> Seq<u8> {
    seq![((x >> 8) & 0xFF) as u8, (x & 0xFF) as u8]
}

/// An Ethernet II frame towards the controller: destination MAC, source
/// MAC, the sender ethertype in network order, then the payload.
pub open spec fn spec_ethernet_frame(src: MacAddr, dst: MacAddr, payload: Seq<u8>) -> Seq<u8> {
    dst.bytes() + src.bytes() + u16_be_bytes(ETHERNET_TYPE_SENDER) + payload
}

/// The source MAC defaults to broadcast when unspecified.
pub open spec fn mac_or_broadcast(m: Option<MacAddr>) -> MacAddr {
    match m {
        Some(mac) => mac,
        None => MacAddr(0xff, 0xff, 0xff, 0xff, 0xff, 0xff),
    }
}

/// The destination MAC defaults to the all-zero MAC when unspecified.
pub open spec fn mac_or_zero(m: Option<MacAddr>) -> MacAddr {
    match m {
        Some(mac) => mac,
        None => MacAddr(0, 0, 0, 0, 0, 0),
    }
}

/// One packet towards the controller: a header and 1440 payload bytes.
#[derive(Debug, Clone)]
pub struct LinsnSenderPacket {
    pub header: LinsnHeader,
    pub payload: Vec<u8>,
}

/// One packet from the controller: a header and 1450 payload bytes
/// (declared for wire compatibility; this crate never builds or parses one).
#[derive(Debug, Clone)]
pub struct LinsnReceiverPacket {
    pub header: LinsnHeader,
    pub payload: Vec<u8>,
}

impl LinsnSenderPacket {
    /// A sender packet carries exactly 1440 payload bytes.
    pub open spec fn wf(self) -> bool {
        self.payload@.len() == PAYLOAD_SIZE_SENDER
    }

    /// Header bytes followed by payload bytes.
    pub open spec fn spec_bytes(self) -> Seq<u8> {
        self.header.spec_bytes() + self.payload@
    }

    /// Serialises the packet: 32 header bytes, then the payload.
    pub fn to_bytes(&self) -> (bytes: Vec<u8>)
        ensures
            bytes@ == self.spec_bytes(),
    {
        let mut bytes = self.header.to_bytes();
        append_bytes(&mut bytes, &self.payload);
        bytes
    }

    /// Wraps the packet in an Ethernet II frame with the sender ethertype.
    /// An absent source MAC falls back to broadcast, an absent destination
    /// to the all-zero MAC the controllers accept.
    pub fn as_ethernet(&self, src: Option<MacAddr>, dst: Option<MacAddr>) -> (frame: Vec<u8>)
        requires
            self.wf(),
        ensures
            frame@ == spec_ethernet_frame(mac_or_broadcast(src), mac_or_zero(dst), self.spec_bytes()),
            frame@.len() == ETHERNET_HEADER_SIZE + HEADER_SIZE + PAYLOAD_SIZE_SENDER,
    {
        let src_mac = match src {
            Some(mac) => mac,
            None => MacAddr::broadcast(),
        };
        let dst_mac = match dst {
            Some(mac) => mac,
            None => MacAddr::zero(),
        };
        let ethertype = ETHERNET_TYPE_SENDER;
        assert((ethertype >> 8) & 0xFF < 256 && ethertype & 0xFF < 256) by (bit_vector);
        let mut frame: Vec<u8> = Vec::new();
        frame.push(dst_mac.0);
        frame.push(dst_mac.1);
        frame.push(dst_mac.2);
        frame.push(dst_mac.3);
        frame.push(dst_mac.4);
        frame.push(dst_mac.5);
        frame.push(src_mac.0);
        frame.push(src_mac.1);
        frame.push(src_mac.2);
        frame.push(src_mac.3);
        frame.push(src_mac.4);
        frame.push(src_mac.5);
        frame.push(((ethertype >> 8) & 0xFF) as u8);
        frame.push((ethertype & 0xFF) as u8);
        proof {
            assert(frame@ =~= dst_mac.bytes() + src_mac.bytes() + u16_be_bytes(
                ETHERNET_TYPE_SENDER,
            ));
        }
        let body = self.to_bytes();
        append_bytes(&mut frame, &body);
        proof {
            assert(frame@ =~= spec_ethernet_frame(src_mac, dst_mac, self.spec_bytes()));
        }
        frame
    }
}

/// The 22 bytes of announce command data: a fixed signature, then the MAC.
pub open spec fn announce_data(mac: MacAddr) -> Seq<u8> {
    seq![
        0x00u8,
        0x00,
        0x00,
        0x85,
        0x1f,
        0xff,
        0xff,
        0xff,
        0xff,
        0x00,
        0x00,
        0x00,
        0x00,
        0x00,
        0x00,
        0x00,
    ] + mac.bytes()
}

/// `h` is the header whose wire serialisation is `s`.
pub open spec fn parses_to(s: Seq<u8>, h: LinsnHeader) -> bool {
    &&& s.len() == 32
    &&& h.package_id == u32_from_le_bytes(s[0], s[1], s[2], s[3])
    &&& h.unknown@ == s.subrange(4, 8)
    &&& h.cmd == s[8]
    &&& h.cmd_data@ == s.subrange(9, 31)
    &&& h.checksum == s[31]
}

/// Round trip: every header parses back out of its own serialisation.
pub proof fn lemma_serialize_parses_back(h: LinsnHeader)
    ensures
        parses_to(h.spec_bytes(), h),
{
    let s = h.spec_bytes();
    assert(s.len() == 32);
    assert(s.subrange(4, 8) =~= h.unknown@);
    assert(s.subrange(9, 31) =~= h.cmd_data@);
    lemma_u32_le_round_trip(h.package_id);
}

/// A serialisation determines its header: parsing is injective on one input.
pub proof fn lemma_parse_unique(s: Seq<u8>, h1: LinsnHeader, h2: LinsnHeader)
    requires
        parses_to(s, h1),
        parses_to(s, h2),
    ensures
        h1 == h2,
{
    assert(h1.unknown =~= h2.unknown);
    assert(h1.cmd_data =~= h2.cmd_data);
}

/// In a well-formed header the 28 serialised bytes that follow the four
/// `package_id` bytes sum to 0 modulo 0x100: the checksum cancels the
/// covered byte sum.
pub proof fn lemma_wellformed_header_sum(h: LinsnHeader)
    requires
        h.wf(),
    ensures
        byte_sum(h.spec_bytes().skip(4)) % 0x100 == 0,
{
    let covered = h.unknown@ + seq![h.cmd] + h.cmd_data@;
    let tail = h.spec_bytes().skip(4);
    assert(tail =~= covered + seq![h.checksum]);
    lemma_byte_sum_concat(covered, seq![h.checksum]);
    lemma_byte_sum_concat(h.unknown@ + seq![h.cmd], h.cmd_data@);
    lemma_byte_sum_concat(h.unknown@, seq![h.cmd]);
    lemma_byte_sum_singleton(h.cmd);
    lemma_byte_sum_singleton(h.checksum);
    let sum = header_byte_sum(h.unknown@, h.cmd, h.cmd_data@);
    assert(byte_sum(covered) == sum);
    lemma_byte_sum_nonneg(h.unknown@);
    lemma_byte_sum_nonneg(h.cmd_data@);
    lemma_fundamental_div_mod(sum, 0x100);
    let q = sum / 0x100;
    let m = sum % 0x100;
    if m == 0 {
        assert(h.checksum == 0);
        assert(byte_sum(tail) == 0x100 * q);
        lemma_mod_multiples_basic(q, 0x100);
    } else {
        assert(h.checksum == 0x100 - m);
        assert(byte_sum(tail) == 0x100 * (q + 1));
        lemma_mod_multiples_basic(q + 1, 0x100);
    }
}

} // verus!

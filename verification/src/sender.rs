//! Chunking a frame of pixels into the burst of Ethernet packets that
//! carries it: 480 BRG-serialised pixels per packet, an announce header on
//! the first packet and empty headers with running package ids on the rest.

use crate::linsn::{
    announce_data, spec_checksum, spec_ethernet_frame, spec_pixel_to_bytes, u32_le_bytes,
    zero_bytes, ColorFormat, LinsnCommand, LinsnHeader, LinsnSenderPacket, MacAddr, Pixel,
    pixel_to_bytes, ETHERNET_HEADER_SIZE, HEADER_SIZE, LINSN_FRAME_HEIGHT, LINSN_FRAME_WIDTH,
    PAYLOAD_SIZE_SENDER,
};
use vstd::prelude::*;

verus! {

/// Wire bytes per pixel.
pub const BYTES_PER_PIXEL: usize = 3;

/// Pixels carried by one packet.
pub const CHUNK_SIZE: usize = PAYLOAD_SIZE_SENDER / BYTES_PER_PIXEL;

/// Upper bound on the packets of one send burst; a full 1024x512 frame
/// needs 1093.
pub const MAX_CHUNKS: usize = 1100;

/// Number of packets needed for `len` pixels: one per started chunk of 480.
pub open spec fn spec_chunk_count(len: int) -> int {
    (len + 479) / 480
}

/// The three wire bytes of the pixel at `idx`, or zero padding past the end
/// of the frame.
pub open spec fn pixel_bytes_at(image: Seq<Pixel>, idx: int) -> Seq<u8> {
    if 0 <= idx < image.len() {
        spec_pixel_to_bytes(ColorFormat::BRG, image[idx])
    } else {
        seq![0u8, 0u8, 0u8]
    }
}

/// The first `j` pixels of chunk `c`, serialised.
pub open spec fn payload_prefix(image: Seq<Pixel>, c: int, j: int) -> Seq<u8>
    decreases j,
{
    if j <= 0 {
        Seq::empty()
    } else {
        payload_prefix(image, c, j - 1) + pixel_bytes_at(image, c * 480 + (j - 1))
    }
}

/// The 1440 payload bytes of chunk `c`: 480 pixels in BRG order,
/// zero-padded past the end of the frame.
pub open spec fn chunk_payload(image: Seq<Pixel>, c: int) -> Seq<u8> {
    payload_prefix(image, c, 480)
}

/// The 32 header bytes of chunk `c`: the announce header (package id 0,
/// command 0x96, signature and source MAC) on the first chunk, the empty
/// header with package id `c` on every other.
pub open spec fn chunk_header_bytes(c: int, src_mac: MacAddr) -> Seq<u8> {
    if c == 0 {
        u32_le_bytes(0) + zero_bytes(4) + seq![LinsnCommand::ANNOUNCE.spec_byte()]
            + announce_data(src_mac) + seq![
            spec_checksum(zero_bytes(4), LinsnCommand::ANNOUNCE.spec_byte(), announce_data(src_mac)),
        ]
    } else {
        u32_le_bytes(c as u32) + zero_bytes(4) + seq![LinsnCommand::NONE.spec_byte()] + zero_bytes(
            22,
        ) + seq![0u8]
    }
}

/// The full Ethernet frame that carries chunk `c` of the image.
pub open spec fn spec_chunk_packet(image: Seq<Pixel>, c: int, src: MacAddr, dst: MacAddr) -> Seq<
    u8,
> {
    spec_ethernet_frame(src, dst, chunk_header_bytes(c, src) + chunk_payload(image, c))
}

/// Number of packets needed for `len` pixels.
pub fn chunk_count(len: usize) -> (n: usize)
    ensures
        n == spec_chunk_count(len as int),
{
    if len == 0 {
        0
    } else {
        proof {
            vstd::arithmetic::div_mod::lemma_div_plus_one(len - 1, 480);
        }
        (len - 1) / CHUNK_SIZE + 1
    }
}

/// Serialises chunk `c` of the image into its 1440 payload bytes.
pub fn build_payload(image: &Vec<Pixel>, c: usize) -> (payload: Vec<u8>)
    requires
        c * 480 + 480 <= usize::MAX,
    ensures
        payload@ == chunk_payload(image@, c as int),
        payload@.len() == PAYLOAD_SIZE_SENDER,
{
    let mut payload: Vec<u8> = Vec::new();
    let base = c * CHUNK_SIZE;
    for j in 0..CHUNK_SIZE
        invariant
            base == c * 480,
            base + 480 <= usize::MAX,
            payload@ == payload_prefix(image@, c as int, j as int),
            payload@.len() == 3 * j,
    {
        let idx = base + j;
        if idx < image.len() {
            let bytes = pixel_to_bytes(ColorFormat::BRG, &image[idx]);
            payload.push(bytes[0]);
            payload.push(bytes[1]);
            payload.push(bytes[2]);
            proof {
                assert(payload@ =~= payload_prefix(image@, c as int, j as int) + pixel_bytes_at(
                    image@,
                    c * 480 + j,
                ));
            }
        } else {
            payload.push(0);
            payload.push(0);
            payload.push(0);
            proof {
                assert(payload@ =~= payload_prefix(image@, c as int, j as int) + pixel_bytes_at(
                    image@,
                    c * 480 + j,
                ));
            }
        }
    }
    payload
}

/// Builds the whole burst for one frame: `ceil(len / 480)` Ethernet frames
/// of 1486 bytes each, in package-id order, the first carrying the
/// announce header.
pub fn build_frame_packets(image: &Vec<Pixel>, src_mac: MacAddr, dst_mac: MacAddr) -> (packets:
    Vec<Vec<u8>>)
    requires
        image@.len() + 480 <= usize::MAX,
        spec_chunk_count(image@.len() as int) <= u32::MAX,
    ensures
        packets@.len() == spec_chunk_count(image@.len() as int),
        forall|c: int|
            0 <= c < packets@.len() ==> packets@[c]@ == spec_chunk_packet(
                image@,
                c,
                src_mac,
                dst_mac,
            ),
        forall|c: int|
            0 <= c < packets@.len() ==> packets@[c]@.len() == ETHERNET_HEADER_SIZE + HEADER_SIZE
                + PAYLOAD_SIZE_SENDER,
{
    let n = chunk_count(image.len());
    let mut packets: Vec<Vec<u8>> = Vec::new();
    for c in 0..n
        invariant
            n == spec_chunk_count(image@.len() as int),
            n <= u32::MAX,
            image@.len() + 480 <= usize::MAX,
            packets@.len() == c,
            forall|i: int|
                0 <= i < c as int ==> packets@[i]@ == spec_chunk_packet(
                    image@,
                    i,
                    src_mac,
                    dst_mac,
                ),
            forall|i: int|
                0 <= i < c as int ==> packets@[i]@.len() == ETHERNET_HEADER_SIZE + HEADER_SIZE
                    + PAYLOAD_SIZE_SENDER,
    {
        let header = if c == 0 {
            LinsnHeader::chunk_start(src_mac)
        } else {
            LinsnHeader::empty(c as u32)
        };
        proof {
            assert(header.spec_bytes() =~= chunk_header_bytes(c as int, src_mac));
            assert(c * 480 + 480 <= (n - 1) * 480 + 480 <= image@.len() + 480) by (nonlinear_arith)
                requires
                    0 <= c < n,
                    n == (image@.len() + 479) / 480,
            ;
        }
        let payload = build_payload(image, c);
        let packet = LinsnSenderPacket { header, payload };
        let frame = packet.as_ethernet(Some(src_mac), Some(dst_mac));
        proof {
            assert(frame@ =~= spec_chunk_packet(image@, c as int, src_mac, dst_mac));
        }
        packets.push(frame);
    }
    packets
}

pub proof fn lemma_payload_prefix_len(image: Seq<Pixel>, c: int, j: int)
    requires
        0 <= j,
    ensures
        payload_prefix(image, c, j).len() == 3 * j,
    decreases j,
{
    if j > 0 {
        lemma_payload_prefix_len(image, c, j - 1);
    }
}

proof fn lemma_prefix_pixel(image: Seq<Pixel>, c: int, j: int, m: int)
    requires
        0 <= j < m,
    ensures
        payload_prefix(image, c, m).subrange(3 * j, 3 * j + 3) == pixel_bytes_at(
            image,
            c * 480 + j,
        ),
    decreases m,
{
    lemma_payload_prefix_len(image, c, m - 1);
    if j == m - 1 {
        assert(payload_prefix(image, c, m).subrange(3 * j, 3 * j + 3) =~= pixel_bytes_at(
            image,
            c * 480 + j,
        ));
    } else {
        lemma_prefix_pixel(image, c, j, m - 1);
        assert(payload_prefix(image, c, m).subrange(3 * j, 3 * j + 3) =~= payload_prefix(
            image,
            c,
            m - 1,
        ).subrange(3 * j, 3 * j + 3));
    }
}

/// Within its packet, pixel `c * 480 + j` of the frame occupies payload
/// bytes `3j` to `3j + 2`, in BRG order — or three zero bytes of padding
/// past the end of the frame.
pub proof fn lemma_chunk_payload_pixel(image: Seq<Pixel>, c: int, j: int)
    requires
        0 <= j < 480,
    ensures
        chunk_payload(image, c).subrange(3 * j, 3 * j + 3) == pixel_bytes_at(image, c * 480 + j),
{
    lemma_prefix_pixel(image, c, j, 480);
}

/// On the wire, pixel `c * 480 + j` of the frame stands in packet `c` at
/// byte offset `46 + 3j`: right after the 14 Ethernet bytes and the
/// 32-byte header.
pub proof fn lemma_packet_pixel_offset(
    image: Seq<Pixel>,
    c: int,
    j: int,
    src: MacAddr,
    dst: MacAddr,
)
    requires
        0 <= j < 480,
    ensures
        spec_chunk_packet(image, c, src, dst).subrange(46 + 3 * j, 49 + 3 * j) == pixel_bytes_at(
            image,
            c * 480 + j,
        ),
{
    lemma_chunk_payload_pixel(image, c, j);
    lemma_payload_prefix_len(image, c, 480);
    assert(spec_chunk_packet(image, c, src, dst).subrange(46 + 3 * j, 49 + 3 * j) =~= chunk_payload(
        image,
        c,
    ).subrange(3 * j, 3 * j + 3));
}

/// A full 1024x512 frame always needs exactly 1093 packets.
pub proof fn lemma_full_frame_chunk_count()
    ensures
        spec_chunk_count((LINSN_FRAME_WIDTH * LINSN_FRAME_HEIGHT) as int) == 1093,
{
}

/// Packet `c` carries package id `c` in its first four header bytes, so the
/// burst leaves in strictly increasing package-id order.
pub proof fn lemma_packet_ids_in_order(image: Seq<Pixel>, c: int, src: MacAddr, dst: MacAddr)
    requires
        0 <= c <= u32::MAX,
    ensures
        spec_chunk_packet(image, c, src, dst).subrange(14, 18) == u32_le_bytes(c as u32),
{
    if c == 0 {
        assert(u32_le_bytes(0u32) =~= seq![0u8, 0u8, 0u8, 0u8]) by {
            assert(0u32 & 0xFF == 0 && (0u32 >> 8) & 0xFF == 0 && (0u32 >> 16) & 0xFF == 0 && (0u32
                >> 24) & 0xFF == 0) by (bit_vector);
        }
        assert(spec_chunk_packet(image, c, src, dst).subrange(14, 18) =~= u32_le_bytes(c as u32));
    } else {
        assert(spec_chunk_packet(image, c, src, dst).subrange(14, 18) =~= u32_le_bytes(c as u32));
    }
}

/// The first packet of a frame announces the sender: command 0x96, and the
/// source MAC in command-data bytes 16 to 21.
pub proof fn lemma_first_packet_announces(image: Seq<Pixel>, src: MacAddr, dst: MacAddr)
    ensures
        spec_chunk_packet(image, 0, src, dst)[22int] == LinsnCommand::ANNOUNCE.spec_byte(),
        forall|k: int|
            0 <= k < 6 ==> spec_chunk_packet(image, 0, src, dst)[39 + k]
                == src.bytes()[k],
{
    let p = spec_chunk_packet(image, 0, src, dst);
    assert(p[22] == LinsnCommand::ANNOUNCE.spec_byte());
    assert forall|k: int| 0 <= k < 6 implies p[39 + k] == src.bytes()[k] by {
        assert(announce_data(src)[16 + k] == src.bytes()[k]);
    }
}

} // verus!

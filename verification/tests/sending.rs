use linsn::linsn::{LinsnHeader, LinsnSenderPacket, MacAddr, Pixel};
use linsn::sender::{build_frame_packets, chunk_count};

fn src() -> MacAddr {
    MacAddr(0xaa, 0xbb, 0xcc, 0xdd, 0xee, 0xff)
}

fn full_frame(p: Pixel) -> Vec<Pixel> {
    vec![p; 1024 * 512]
}

#[test]
fn chunk_counts() {
    assert_eq!(chunk_count(0), 0);
    assert_eq!(chunk_count(1), 1);
    assert_eq!(chunk_count(480), 1);
    assert_eq!(chunk_count(481), 2);
    assert_eq!(chunk_count(1024 * 512), 1093);
}

#[test]
fn full_frame_yields_1093_ordered_packets() {
    let image = full_frame(Pixel::new(0, 0, 0));
    let packets = build_frame_packets(&image, src(), MacAddr::zero());
    assert_eq!(packets.len(), 1093);
    for (c, packet) in packets.iter().enumerate() {
        assert_eq!(packet.len(), 14 + 32 + 1440);
        // package id, little-endian, right after the 14 Ethernet bytes
        let id = u32::from_le_bytes([packet[14], packet[15], packet[16], packet[17]]);
        assert_eq!(id as usize, c);
        // command byte: announce on the first packet, none on the rest
        assert_eq!(packet[22], if c == 0 { 0x96 } else { 0x00 });
    }
}

#[test]
fn ethernet_envelope() {
    let image = full_frame(Pixel::new(0xFF, 0xFF, 0xFF));
    let packets = build_frame_packets(&image, src(), MacAddr::zero());
    let first = &packets[0];
    // destination: the all-zero MAC
    assert_eq!(&first[0..6], &[0, 0, 0, 0, 0, 0]);
    // source: the interface MAC
    assert_eq!(&first[6..12], &[0xaa, 0xbb, 0xcc, 0xdd, 0xee, 0xff]);
    // ethertype 0xAA55 in network order
    assert_eq!(&first[12..14], &[0xAA, 0x55]);
}

#[test]
fn announce_packet_carries_source_mac() {
    let image = full_frame(Pixel::new(1, 2, 3));
    let packets = build_frame_packets(&image, src(), MacAddr::zero());
    // cmd_data starts at 14 (ethernet) + 9 (id + unknown + cmd); the MAC
    // sits in its bytes 16..22.
    let cmd_data = &packets[0][14 + 9..14 + 31];
    assert_eq!(&cmd_data[16..22], &[0xaa, 0xbb, 0xcc, 0xdd, 0xee, 0xff]);
}

#[test]
fn payload_is_brg_ordered() {
    let image = full_frame(Pixel::new(0xFF, 0x00, 0x00));  // pure red
    let packets = build_frame_packets(&image, src(), MacAddr::zero());
    // every payload byte triple is [b, r, g] = [0, 255, 0]
    let payload = &packets[5][46..];
    assert_eq!(payload.len(), 1440);
    for pixel in payload.chunks(3) {
        assert_eq!(pixel, &[0x00, 0xFF, 0x00]);
    }
}

#[test]
fn last_packet_is_zero_padded() {
    // 481 pixels: the second packet carries one pixel and 479 * 3 zero bytes
    let image = vec![Pixel::new(1, 2, 3); 481];
    let packets = build_frame_packets(&image, src(), MacAddr::zero());
    assert_eq!(packets.len(), 2);
    let payload = &packets[1][46..];
    assert_eq!(&payload[0..3], &[3, 1, 2]);
    assert!(payload[3..].iter().all(|b| *b == 0));
}

#[test]
fn empty_image_sends_nothing() {
    let image: Vec<Pixel> = Vec::new();
    let packets = build_frame_packets(&image, src(), MacAddr::zero());
    assert!(packets.is_empty());
}

#[test]
fn packet_serialisation_concatenates_header_and_payload() {
    let packet = LinsnSenderPacket {
        header: LinsnHeader::empty(3),
        payload: vec![7u8; 1440],
    };
    let bytes = packet.to_bytes();
    assert_eq!(bytes.len(), 1472);
    assert_eq!(&bytes[0..32], &LinsnHeader::empty(3).to_bytes()[..]);
    assert!(bytes[32..].iter().all(|b| *b == 7));
}

#[test]
fn ethernet_defaults_broadcast_source_zero_destination() {
    let packet = LinsnSenderPacket {
        header: LinsnHeader::empty(0),
        payload: vec![0u8; 1440],
    };
    let frame = packet.as_ethernet(None, None);
    assert_eq!(frame.len(), 1486);
    assert_eq!(&frame[0..6], &[0, 0, 0, 0, 0, 0]);
    assert_eq!(&frame[6..12], &[0xff, 0xff, 0xff, 0xff, 0xff, 0xff]);
}

use linsn::linsn::{
    pixel_to_bytes, rgb_to_bytes, ColorFormat, LinsnHeader, MacAddr, Pixel, ETHERNET_TYPE_SENDER,
    HEADER_SIZE, PAYLOAD_SIZE_SENDER,
};

#[test]
fn test_checksum_in_new() {
    let package_id = 0x12u32;
    let cmd = 0x34u8;
    let cmd_data: [u8; 22] = [0x01u8; 22];

    let expected_checksum = 0xb6;

    let header = LinsnHeader::new(package_id, cmd, cmd_data);

    assert_eq!(
        header.checksum, expected_checksum,
        "Checksum in new() does not match expected value"
    );
}

#[test]
fn test_to_bytes_function() {
    let package_id = 0x12345678u32;
    let unknown: [u8; 4] = [0x00, 0x00, 0x00, 0x00];
    let cmd = 0xAAu8;
    let cmd_data: [u8; 22] = [
        0x10, 0x20, 0x30, 0x40, 0x50, 0x60, 0x70, 0x80, 0x90, 0xA0, 0xB0, 0xC0, 0xD0, 0xE0, 0xF0,
        0x01, 0x02, 0x03, 0x04, 0x05, 0x06, 0x07,
    ];
    let chk_sum = 0xbau8;

    let expected_bytes: [u8; 32] = [
        package_id.to_le_bytes()[0],
        package_id.to_le_bytes()[1],
        package_id.to_le_bytes()[2],
        package_id.to_le_bytes()[3],
        unknown[0],
        unknown[1],
        unknown[2],
        unknown[3],
        cmd,
        cmd_data[0],
        cmd_data[1],
        cmd_data[2],
        cmd_data[3],
        cmd_data[4],
        cmd_data[5],
        cmd_data[6],
        cmd_data[7],
        cmd_data[8],
        cmd_data[9],
        cmd_data[10],
        cmd_data[11],
        cmd_data[12],
        cmd_data[13],
        cmd_data[14],
        cmd_data[15],
        cmd_data[16],
        cmd_data[17],
        cmd_data[18],
        cmd_data[19],
        cmd_data[20],
        cmd_data[21],
        chk_sum,
    ];

    let checksum = LinsnHeader::calculate_checksum(unknown, cmd, cmd_data);
    let header = LinsnHeader {
        package_id,
        unknown,
        cmd,
        cmd_data,
        checksum,
    };
    let bytes = header.to_bytes();

    assert_eq!(
        bytes, expected_bytes,
        "Byte representation does not match expected value"
    );
}

#[test]
fn serialisation_is_32_bytes_le_id_first() {
    let cmd_data: [u8; 22] = [
        0x10, 0x20, 0x30, 0x40, 0x50, 0x60, 0x70, 0x80, 0x90, 0xA0, 0xB0, 0xC0, 0xD0, 0xE0, 0xF0,
        0x01, 0x02, 0x03, 0x04, 0x05, 0x06, 0x07,
    ];
    let header = LinsnHeader::new(0x12345678, 0xAA, cmd_data);
    let bytes = header.to_bytes();
    assert_eq!(bytes.len(), 32);
    assert_eq!(&bytes[0..4], &[0x78, 0x56, 0x34, 0x12]);
    assert_eq!(bytes[31], 0xBA);
}

#[test]
fn empty_header_is_all_zero_after_id() {
    let header = LinsnHeader::empty(42);
    assert_eq!(header.package_id, 42);
    assert_eq!(header.cmd, 0x00);
    assert_eq!(header.cmd_data, [0u8; 22]);
    assert_eq!(header.checksum, 0);
    assert_eq!(header.unknown, [0u8; 4]);
}

#[test]
fn announce_header_embeds_mac() {
    let mac = MacAddr(0x02, 0x42, 0xac, 0x11, 0x00, 0x07);
    let header = LinsnHeader::identify(7, mac);
    assert_eq!(header.package_id, 7);
    assert_eq!(header.cmd, 0x96);
    assert_eq!(
        &header.cmd_data[0..16],
        &[0x00, 0x00, 0x00, 0x85, 0x1f, 0xff, 0xff, 0xff, 0xff, 0x00, 0x00, 0x00, 0x00, 0x00, 0x00, 0x00]
    );
    assert_eq!(&header.cmd_data[16..22], &[0x02, 0x42, 0xac, 0x11, 0x00, 0x07]);

    let start = LinsnHeader::chunk_start(mac);
    assert_eq!(start.package_id, 0);
    assert_eq!(start.cmd, 0x96);
    assert_eq!(start.cmd_data, header.cmd_data);
}

#[test]
fn header_byte_sum_cancels() {
    // In any freshly built header the 28 bytes after package_id sum to 0 mod 256.
    let samples: [(u32, u8, [u8; 22]); 3] = [
        (0, 0x96, [0xFF; 22]),
        (0xDEADBEEF, 0x61, [0x07; 22]),
        (1, 0x00, [0x00; 22]),
    ];
    for (id, cmd, data) in samples {
        let bytes = LinsnHeader::new(id, cmd, data).to_bytes();
        let sum: u32 = bytes[4..].iter().map(|b| *b as u32).sum();
        assert_eq!(sum % 256, 0);
    }
}

#[test]
fn parse_round_trips_serialisation() {
    let cmd_data: [u8; 22] = [
        9, 8, 7, 6, 5, 4, 3, 2, 1, 0, 11, 12, 13, 14, 15, 16, 17, 18, 19, 20, 21, 22,
    ];
    let header = LinsnHeader::new(0xCAFEBABE, 0x61, cmd_data);
    let bytes = header.to_bytes();
    let parsed = LinsnHeader::from_bytes(&bytes).expect("32 bytes must parse");
    assert_eq!(parsed.package_id, header.package_id);
    assert_eq!(parsed.unknown, header.unknown);
    assert_eq!(parsed.cmd, header.cmd);
    assert_eq!(parsed.cmd_data, header.cmd_data);
    assert_eq!(parsed.checksum, header.checksum);
}

#[test]
fn parse_rejects_wrong_length() {
    assert!(LinsnHeader::from_bytes(&vec![0u8; 31]).is_none());
    assert!(LinsnHeader::from_bytes(&vec![0u8; 33]).is_none());
    assert!(LinsnHeader::from_bytes(&Vec::new()).is_none());
    assert!(LinsnHeader::from_bytes(&vec![0u8; 32]).is_some());
}

#[test]
fn pixel_orderings() {
    let p = Pixel::new(1, 2, 3);
    assert_eq!(pixel_to_bytes(ColorFormat::RGB, &p), [1, 2, 3]);
    assert_eq!(pixel_to_bytes(ColorFormat::GBR, &p), [2, 3, 1]);
    assert_eq!(pixel_to_bytes(ColorFormat::BRG, &p), [3, 1, 2]);
    assert_eq!(pixel_to_bytes(ColorFormat::BGR, &p), [3, 2, 1]);
}

#[test]
fn wide_channels_keep_low_byte() {
    assert_eq!(rgb_to_bytes(ColorFormat::RGB, 0x101, 0x202, 0x303), [1, 2, 3]);
    assert_eq!(rgb_to_bytes(ColorFormat::BRG, 0x1FF, 0x00, 0x42), [0x42, 0xFF, 0x00]);
    assert_eq!(rgb_to_bytes(ColorFormat::GBR, 7, 8, 9), [8, 9, 7]);
    assert_eq!(rgb_to_bytes(ColorFormat::BGR, 7, 8, 9), [9, 8, 7]);
}

#[test]
fn wire_constants() {
    assert_eq!(HEADER_SIZE, 32);
    assert_eq!(PAYLOAD_SIZE_SENDER, 1440);
    assert_eq!(ETHERNET_TYPE_SENDER, 0xAA55);
}

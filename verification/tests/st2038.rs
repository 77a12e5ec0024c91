use bitstream_io::{BigEndian, BitRead, BitReader};
use closedcaption::st2038anc_utils::{
    convert_to_st2038_buffer, extend_with_even_odd_parity, AncData, AncDataHeader, PacketError,
};
use std::io::Cursor;

#[test]
fn even_odd_parity_matches_st291_and_gst_vbi_encoder() {
    // Odd popcount gives b8=1, b9=0 (0x100 | v)
    assert_eq!(extend_with_even_odd_parity(0x00), 0x200); // 0 ones, even
    assert_eq!(extend_with_even_odd_parity(0x01), 0x101); // 1 one, odd
    assert_eq!(extend_with_even_odd_parity(0x03), 0x203); // 2 ones, even
    assert_eq!(extend_with_even_odd_parity(0x61), 0x161); // 3 ones, odd (CEA-708 DID)

    for v in 0u8..=255 {
        let w = extend_with_even_odd_parity(v);
        assert_eq!(w & 0xff, u16::from(v));
        // Even parity over b0..b8: popcount of those 9 bits must be even
        let popcount_0_to_8 = (w & 0x1ff).count_ones();
        assert!(
            popcount_0_to_8 % 2 == 0,
            "b0..b8 must have even popcount for {v:#04x}, got {w:#05x}"
        );
        let b8 = (w >> 8) & 1;
        let b9 = (w >> 9) & 1;
        assert_eq!(b9, 1 - b8, "b9 must be NOT b8 for {v:#04x}");
    }
}

#[test]
fn convert_to_st2038_uses_parity_extended_adf_words() {
    let buf = convert_to_st2038_buffer(false, 9, 0, 0x61, 0x01, &[0xaa, 0xbb]).expect("encode");
    let map = buf.as_slice();
    let hdr = AncDataHeader::from_slice(map).expect("parse header");
    assert_eq!(hdr.did, 0x61);
    assert_eq!(hdr.sdid, 0x01);
    assert_eq!(hdr.data_count, 2);

    // Re-parse the 10-bit ADF words and check parity bits were written correctly.
    let mut r = BitReader::endian(Cursor::new(map), BigEndian);
    let _ = r.read::<6, u8>().unwrap();
    let _ = r.read_bit().unwrap();
    let _ = r.read::<11, u16>().unwrap();
    let _ = r.read::<12, u16>().unwrap();
    let did10 = r.read::<10, u16>().unwrap();
    let sdid10 = r.read::<10, u16>().unwrap();
    let dc10 = r.read::<10, u16>().unwrap();
    assert_eq!(did10, 0x161);
    assert_eq!(sdid10, 0x101);
    assert_eq!(dc10, extend_with_even_odd_parity(2));

    let udw0 = r.read::<10, u16>().unwrap();
    let udw1 = r.read::<10, u16>().unwrap();
    assert_eq!(udw0, extend_with_even_odd_parity(0xaa));
    assert_eq!(udw1, extend_with_even_odd_parity(0xbb));

    let checksum = r.read::<10, u16>().unwrap();
    let mut expected = 0u16;
    expected = expected.wrapping_add(did10 & 0x1ff);
    expected = expected.wrapping_add(sdid10 & 0x1ff);
    expected = expected.wrapping_add(dc10 & 0x1ff);
    expected = expected.wrapping_add(udw0 & 0x1ff);
    expected = expected.wrapping_add(udw1 & 0x1ff);
    expected &= 0x1ff;
    if expected & 0x100 == 0 {
        expected |= 0x200;
    }
    assert_eq!(checksum, expected);
    assert_eq!((checksum >> 9) & 1, 1 - ((checksum >> 8) & 1));
}

#[test]
fn packet_is_read_back() {
    let payload: Vec<u8> = (0..=254).collect();
    let buf = convert_to_st2038_buffer(true, 2047, 4095, 0x61, 0x02, &payload).expect("encode");
    let packet = AncData::from_slice(&buf).expect("parse");
    assert!(packet.header.c_not_y_channel_flag);
    assert_eq!(packet.header.line_number, 2047);
    assert_eq!(packet.header.horizontal_offset, 4095);
    assert_eq!(packet.header.len, buf.len());
    let data: Vec<u8> = packet.data.iter().map(|w| *w as u8).collect();
    assert_eq!(data, payload);
}

#[test]
fn packet_that_does_not_fit_is_refused() {
    let payload = vec![0; 256];
    assert_eq!(
        convert_to_st2038_buffer(false, 9, 0, 0x61, 0x01, &payload).err(),
        Some(PacketError::TooLong)
    );
    assert_eq!(
        convert_to_st2038_buffer(false, 2048, 0, 0x61, 0x01, &[]).err(),
        Some(PacketError::OutOfRange)
    );
    assert_eq!(
        convert_to_st2038_buffer(false, 9, 4096, 0x61, 0x01, &[]).err(),
        Some(PacketError::OutOfRange)
    );
}

#[test]
fn short_packet_is_refused() {
    let buf = convert_to_st2038_buffer(false, 9, 0, 0x61, 0x01, &[0xaa, 0xbb]).expect("encode");
    for len in 0..buf.len() - 1 {
        assert!(AncDataHeader::from_slice(&buf[..len]).is_err(), "{}", len);
    }
}

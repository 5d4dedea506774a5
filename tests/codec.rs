use funnyprint::codec::{
    crc16_xmodem, density_packet, dpi, handshake_0a_packet, handshake_0b_packet,
    hardware_info_packet, parse_mac, parse_notify, print_event_packet, print_line_packet,
    AddressError, NotifyEvent, PrinterInfo, StatusEvent, PACKED_LINE_BYTES,
};

#[test]
fn crc_known_value() {
    let v = crc16_xmodem(&[0x00, 0xc0, 0x00, 0x00, 0x00, 0x05, 0xab]);
    assert_ne!(v, 0);
}

#[test]
fn line_packet_size() {
    let line = [0u8; PACKED_LINE_BYTES];
    let p = print_line_packet(1, &line);
    assert_eq!(p.len(), 1 + 2 + PACKED_LINE_BYTES + 1);
}

#[test]
fn crc_check_string() {
    assert_eq!(crc16_xmodem(b"123456789"), 0x31C3);
}

#[test]
fn crc_of_nothing_is_zero() {
    assert_eq!(crc16_xmodem(&[]), 0);
}

#[test]
fn crc_of_printer_mac() {
    assert_eq!(crc16_xmodem(&[0x00, 0xAA, 0xBB, 0xCC, 0xDD, 0xEE, 0xFF]), 0x53F5);
}

#[test]
fn dpi_is_203() {
    assert_eq!(dpi(), 203);
}

#[test]
fn fixed_frames() {
    assert_eq!(hardware_info_packet(), vec![0x5a, 0x01, 0, 0, 0, 0, 0, 0, 0, 0, 0, 0]);
    assert_eq!(handshake_0a_packet(), vec![0x5a, 0x0a, 0, 0, 0, 0, 0, 0, 0, 0, 0, 0]);
    assert_eq!(density_packet(5), vec![0x5a, 0x0c, 5]);
}

#[test]
fn handshake_b_for_known_address() {
    let p = handshake_0b_packet("AA:BB:CC:DD:EE:FF").unwrap();
    assert_eq!(
        p,
        vec![0x5a, 0x0b, 0x53, 0x53, 0x53, 0x53, 0x53, 0x53, 0x53, 0x53, 0x53, 0x53]
    );
}

#[test]
fn handshake_b_tail_is_crc_high_byte() {
    let mac = [0x12u8, 0x34, 0x56, 0x78, 0x9a, 0xbc];
    let mut payload = vec![0u8];
    payload.extend_from_slice(&mac);
    let b = ((crc16_xmodem(&payload) >> 8) & 0xff) as u8;
    let p = handshake_0b_packet("12-34-56-78-9a-bc").unwrap();
    assert_eq!(p.len(), 12);
    assert_eq!(&p[..2], &[0x5a, 0x0b]);
    assert!(p[2..].iter().all(|x| *x == b));
}

#[test]
fn handshake_b_separators_and_case_do_not_matter() {
    let a = handshake_0b_packet("aa:bb:cc:dd:ee:ff").unwrap();
    let b = handshake_0b_packet("AABBCCDDEEFF").unwrap();
    let c = handshake_0b_packet("AA-BB-CC-DD-EE-FF").unwrap();
    assert_eq!(a, b);
    assert_eq!(b, c);
}

#[test]
fn handshake_b_rejects_bad_addresses() {
    assert_eq!(handshake_0b_packet("AA:BB:CC:DD:EE"), Err(AddressError::InvalidMac));
    assert_eq!(handshake_0b_packet("AA:BB:CC:DD:EE:FG"), Err(AddressError::InvalidMac));
    assert_eq!(handshake_0b_packet(""), Err(AddressError::InvalidMac));
    assert_eq!(handshake_0b_packet("AA:BB:CC:DD:EE:FF:00"), Err(AddressError::InvalidMac));
}

#[test]
fn mac_bytes_parsed() {
    assert_eq!(parse_mac("01:23:45:67:89:AB").unwrap(), vec![0x01, 0x23, 0x45, 0x67, 0x89, 0xab]);
}

#[test]
fn event_begin() {
    assert_eq!(print_event_packet(300, false), vec![0x5a, 0x04, 0x01, 0x2c, 0x00, 0x00]);
}

#[test]
fn event_end() {
    assert_eq!(print_event_packet(300, true), vec![0x5a, 0x04, 0x01, 0x2c, 0x01, 0x00]);
}

#[test]
fn event_endianness() {
    let n: u16 = 0xABCD;
    let p = print_event_packet(n, true);
    assert_eq!(&p[2..4], &n.to_be_bytes());
    assert_eq!(&p[4..6], &1u16.to_le_bytes());
}

#[test]
fn line_frame_layout() {
    let mut line = [0u8; PACKED_LINE_BYTES];
    line[0] = 0xff;
    line[95] = 0x01;
    let p = print_line_packet(0x0102, &line);
    assert_eq!(p.len(), 100);
    assert_eq!(&p[..3], &[0x55, 0x01, 0x02]);
    assert_eq!(p[3], 0xff);
    assert_eq!(p[98], 0x01);
    assert_eq!(p[99], 0x00);
}

#[test]
fn parse_lost() {
    assert_eq!(parse_notify(&[0x5a, 0x05, 0x00, 0x07, 0x00]), NotifyEvent::Lost { line_no: 7 });
    assert_eq!(parse_notify(&[0x5a, 0x05, 0x01]), NotifyEvent::Lost { line_no: 0 });
}

#[test]
fn parse_status() {
    assert_eq!(
        parse_notify(&[0x5a, 0x02, 0x55, 0x01, 0x00, 0x01]),
        NotifyEvent::Status(StatusEvent { battery: 0x55, no_paper: true, overheat: true })
    );
    assert_eq!(
        parse_notify(&[0x5a, 0x02, 0x40]),
        NotifyEvent::Status(StatusEvent { battery: 0x40, no_paper: false, overheat: false })
    );
}

#[test]
fn parse_other_tags() {
    assert_eq!(parse_notify(&[0x5a, 0x06]), NotifyEvent::Finished);
    assert_eq!(parse_notify(&[0x5a, 0x08]), NotifyEvent::Paused);
    assert_eq!(parse_notify(&[0x5a, 0x0a]), NotifyEvent::Handshake0a);
    assert_eq!(parse_notify(&[0x5a, 0x0b, 0x01]), NotifyEvent::Handshake0b { ok: true });
    assert_eq!(parse_notify(&[0x5a, 0x0b, 0x00]), NotifyEvent::Handshake0b { ok: false });
    assert_eq!(parse_notify(&[0x5a, 0x0b]), NotifyEvent::Handshake0b { ok: false });
    assert_eq!(parse_notify(&[0x5a]), NotifyEvent::Other);
    assert_eq!(parse_notify(&[]), NotifyEvent::Other);
    assert_eq!(parse_notify(&[0x5a, 0x99]), NotifyEvent::Other);
    assert_eq!(parse_notify(&[0x00, 0x06]), NotifyEvent::Other);
}

#[test]
fn printer_info_holds_fields() {
    let p = PrinterInfo { address: "AA:BB".to_string(), local_name: None };
    assert_eq!(p.address, "AA:BB");
    assert!(p.local_name.is_none());
}

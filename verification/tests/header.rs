use p4rs::{ethernet_t, packet_in, packet_out, Bit, Header, TryFromSliceError};

const FRAME: [u8; 18] = [
    0x11, 0x22, 0x33, 0x44, 0x55, 0x66, // destination
    0x77, 0x88, 0x99, 0xaa, 0xbb, 0xcc, // source
    0x86, 0xdd, // type
    0xde, 0xad, 0xbe, 0xef, // payload
];

/// A header of a one-byte tag and a two-byte length.
struct Tagged<'a> {
    tag: Option<Bit<'a, 8>>,
    length: Option<Bit<'a, 16>>,
}

impl<'a> Header<'a> for Tagged<'a> {
    fn set(&mut self, data: &'a [u8]) -> Result<(), TryFromSliceError> {
        self.tag = Some(Bit::new(data)?);
        if data.len() < 1 {
            return Err(TryFromSliceError::new(16));
        }
        self.length = Some(Bit::new(&data[1..])?);
        Ok(())
    }
}

#[test]
fn an_ethernet_header_reads_its_three_fields() {
    let eth = ethernet_t::new(&FRAME).unwrap();
    assert_eq!(eth.dst_addr.bytes(), &[0x11, 0x22, 0x33, 0x44, 0x55, 0x66]);
    assert_eq!(eth.src_addr.bytes(), &[0x77, 0x88, 0x99, 0xaa, 0xbb, 0xcc]);
    let ether_type: u16 = eth.ether_type.into();
    assert_eq!(ether_type, 0x86dd);
    assert_eq!(eth.dst_addr.to_hex(), "112233445566");
    assert_eq!(eth.src_addr.to_hex(), "778899aabbcc");
}

#[test]
fn an_ethernet_header_of_exactly_fourteen_bytes_is_read() {
    let eth = ethernet_t::new(&FRAME[..14]).unwrap();
    assert_eq!(eth.ether_type.to_u16(), 0x86dd);
}

#[test]
fn a_short_frame_names_the_field_that_did_not_fit() {
    assert_eq!(ethernet_t::new(&FRAME[..13]).unwrap_err().bits(), 16);
    assert_eq!(ethernet_t::new(&FRAME[..12]).unwrap_err().bits(), 16);
    assert_eq!(ethernet_t::new(&FRAME[..11]).unwrap_err().bits(), 48);
    assert_eq!(ethernet_t::new(&FRAME[..6]).unwrap_err().bits(), 48);
    assert_eq!(ethernet_t::new(&FRAME[..5]).unwrap_err().bits(), 48);
    assert_eq!(ethernet_t::new(&[]).unwrap_err().bits(), 48);
}

#[test]
fn extract_fills_the_header_from_the_packet() {
    let other: [u8; 14] = [0; 14];
    let mut eth = ethernet_t::new(&other).unwrap();
    let pkt = packet_in(&FRAME);
    assert!(pkt.extract(&mut eth).is_ok());
    assert_eq!(eth, ethernet_t::new(&FRAME).unwrap());
    assert_eq!(eth.ether_type.to_u16(), 0x86dd);
}

#[test]
fn extract_from_a_short_packet_fails_and_keeps_the_header() {
    let mut eth = ethernet_t::new(&FRAME).unwrap();
    let short = [0u8; 13];
    let pkt = packet_in(&short);
    let e = pkt.extract(&mut eth).unwrap_err();
    assert_eq!(e.bits(), 16);
    assert_eq!(eth, ethernet_t::new(&FRAME).unwrap());
}

#[test]
fn extract_hands_on_what_a_header_of_the_caller_reports() {
    let data = [7u8, 0x01, 0x02, 0xff];
    let mut h = Tagged { tag: None, length: None };
    assert!(packet_in(&data).extract(&mut h).is_ok());
    assert_eq!(h.tag.unwrap().to_u8(), 7);
    assert_eq!(h.length.unwrap().to_u16(), 0x0102);

    let mut h = Tagged { tag: None, length: None };
    let e = packet_in(&data[..2]).extract(&mut h).unwrap_err();
    assert_eq!(e.bits(), 16);
    let mut h = Tagged { tag: None, length: None };
    let e = packet_in(&data[..0]).extract(&mut h).unwrap_err();
    assert_eq!(e.bits(), 8);
}

#[test]
fn consecutive_headers_are_read_by_moving_the_start() {
    let pkt = packet_in(&FRAME);
    let mut eth = ethernet_t::new(&[0u8; 14]).unwrap();
    pkt.extract(&mut eth).unwrap();
    let rest = packet_in(&pkt.0[14..]);
    let mut h = Tagged { tag: None, length: None };
    rest.extract(&mut h).unwrap();
    assert_eq!(h.tag.unwrap().to_u8(), 0xde);
    assert_eq!(h.length.unwrap().to_u16(), 0xadbe);
}

#[test]
fn a_packet_to_send_holds_its_bytes() {
    let out = packet_out(&FRAME);
    assert_eq!(out.0.len(), 18);
    assert_eq!(out.0[12], 0x86);
}

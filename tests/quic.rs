use aes::cipher::{BlockEncrypt, KeyInit};
use aes_gcm::aead::AeadInPlace;
use sni_sniff::quic::{locate_packet_number, packet_nonce, parse_crypto_frame, remove_header_protection};
use sni_sniff::{parse_quic_header, parse_quic_payload, parse_sni_inner, QuicHeader};

fn unhex(s: &str) -> Vec<u8> {
    (0..s.len())
        .step_by(2)
        .map(|i| u8::from_str_radix(&s[i..i + 2], 16).unwrap())
        .collect()
}

// Client Initial keys and header of RFC 9001, appendix A.
const KEY: &str = "1f369613dd76d5467730efcbe3b1a22d";
const IV: &str = "fa044b2f42a3fd3b46fb255c";
const HP: &str = "9f50449e04a0e810283a1e9933adedd2";
const HEADER: &str = "c300000001088394c8f03e5157080000449e00000002";
const PN_OFFSET: usize = 18;

fn hello() -> Vec<u8> {
    let name = b"example.com";
    let mut ext = vec![0x00, 0x00, 0x00, (name.len() + 5) as u8, 0x00, (name.len() + 3) as u8, 0x00, 0x00];
    ext.push(name.len() as u8);
    ext.extend_from_slice(name);
    let mut body = vec![0x03, 0x03];
    body.extend_from_slice(&[0x11; 32]);
    body.extend_from_slice(&[0x00, 0x00, 0x02, 0x13, 0x01, 0x01, 0x00]);
    body.extend_from_slice(&[0x00, ext.len() as u8]);
    body.extend_from_slice(&ext);
    let mut hs = vec![0x01, 0x00, 0x00, body.len() as u8];
    hs.extend_from_slice(&body);
    hs
}

fn plaintext() -> Vec<u8> {
    let hs = hello();
    let mut p = vec![0x06, 0x00, 0x40, hs.len() as u8];
    p.extend_from_slice(&hs);
    p.resize(1162, 0);
    p
}

/// A protected client Initial packet with the RFC's header and keys.
fn protected_packet() -> Vec<u8> {
    let header = unhex(HEADER);
    let mut body = plaintext();
    let mut nonce = unhex(IV);
    nonce[11] ^= 2;
    let cipher = aes_gcm::Aes128Gcm::new_from_slice(&unhex(KEY)).unwrap();
    let tag = cipher
        .encrypt_in_place_detached(aes_gcm::Nonce::from_slice(&nonce), &header, &mut body)
        .unwrap();
    let mut packet = header.clone();
    packet.extend_from_slice(&body);
    packet.extend_from_slice(&tag);
    let hp = aes::Aes128::new_from_slice(&unhex(HP)).unwrap();
    let mut mask = aes::Block::clone_from_slice(&packet[PN_OFFSET + 4..PN_OFFSET + 20]);
    hp.encrypt_block(&mut mask);
    packet[0] ^= mask[0] & 0x0f;
    for i in 0..4 {
        packet[PN_OFFSET + i] ^= mask[1 + i];
    }
    packet
}

#[test]
fn quic_header_fields() {
    let h = parse_quic_header(&[0xC3, 0x00, 0x00, 0x00, 0x01]).unwrap();
    assert_eq!(h.header_form, 1);
    assert_eq!(h.fixed_bit, 1);
    assert_eq!(h.packet_type, 0);
    assert_eq!(h.enc_packet_bits, 3);
    assert_eq!(h.version, 1);
    let h = parse_quic_header(&[0x5e, 0xff, 0x00, 0x00, 0x1d, 0x99]).unwrap();
    assert_eq!(h.header_form, 0);
    assert_eq!(h.fixed_bit, 1);
    assert_eq!(h.packet_type, 1);
    assert_eq!(h.enc_packet_bits, 14);
    assert_eq!(h.version, 0xff00001d);
}

#[test]
fn quic_header_too_short() {
    assert!(parse_quic_header(&[]).is_none());
    assert!(parse_quic_header(&[0xC3]).is_none());
    assert!(parse_quic_header(&[0xC3, 0x00, 0x00, 0x00]).is_none());
}

#[test]
fn quic_initial_decrypts_rfc_keys() {
    let mut packet = protected_packet();
    let tag = packet[packet.len() - 16..].to_vec();
    let header = parse_quic_header(&packet).unwrap();
    let payload = parse_quic_payload(header, &mut packet).unwrap();
    assert_eq!(payload.frame_type, 6);
    assert_eq!(payload.offset, 0);
    assert_eq!(payload.length, hello().len());
    assert_eq!(payload.decoded_data, plaintext()[4..].to_vec());
    assert_eq!(packet[..22], unhex(HEADER)[..]);
    assert_eq!(packet[22..22 + 1162], plaintext()[..]);
    assert_eq!(packet[22 + 1162..], tag[..]);
    assert_eq!(parse_sni_inner(&payload.decoded_data), Some("example.com".to_string()));
}

#[test]
fn quic_initial_same_result_twice() {
    let mut a = protected_packet();
    let mut b = protected_packet();
    let pa = parse_quic_payload(parse_quic_header(&a).unwrap(), &mut a).unwrap();
    let pb = parse_quic_payload(parse_quic_header(&b).unwrap(), &mut b).unwrap();
    assert_eq!(pa.decoded_data, pb.decoded_data);
    assert_eq!(a, b);
}

#[test]
fn quic_initial_flipped_tag_bit() {
    let intact = protected_packet();
    for bit in [0usize, 7, 64, 127] {
        let mut packet = intact.clone();
        let n = packet.len();
        packet[n - 16 + bit / 8] ^= 1 << (bit % 8);
        let copy = packet.clone();
        let header = parse_quic_header(&packet).unwrap();
        assert!(parse_quic_payload(header, &mut packet).is_none());
        assert_eq!(packet, copy);
    }
}

#[test]
fn quic_initial_truncated() {
    let intact = protected_packet();
    for len in [0usize, 5, 6, 10, 14, 15, 16, 17, 18, 20, 37, 100, 1199] {
        let mut packet = intact[..len].to_vec();
        let header = QuicHeader { header_form: 1, fixed_bit: 1, packet_type: 0, enc_packet_bits: 0, version: 1 };
        assert!(parse_quic_payload(header, &mut packet).is_none());
    }
}

#[test]
fn quic_initial_empty_dcid() {
    let mut packet = protected_packet();
    packet[5] = 0;
    let header = parse_quic_header(&packet).unwrap();
    assert!(parse_quic_payload(header, &mut packet).is_none());
    let mut short = vec![0xc3, 0, 0, 0, 1, 0, 0, 0, 0x04, 1, 2, 3, 4];
    short.resize(60, 0);
    let header = parse_quic_header(&short).unwrap();
    assert!(parse_quic_payload(header, &mut short).is_none());
}

#[test]
fn quic_packet_number_offset() {
    let packet = protected_packet();
    assert_eq!(locate_packet_number(&packet), Some(PN_OFFSET));
    let token = [0xc0, 0, 0, 0, 1, 2, 0xaa, 0xbb, 1, 0xcc, 0x02, 0x11, 0x22, 0x40, 0x10, 0x00];
    assert_eq!(locate_packet_number(&token), Some(15));
    assert_eq!(locate_packet_number(&token[..14]), None);
    assert_eq!(locate_packet_number(&token[..11]), None);
}

#[test]
fn quic_header_protection_removed() {
    let packet = [0xc0, 0, 0, 0, 1, 1, 0xaa, 0, 0, 0x01, 0x10, 0x20, 0x30, 0x40];
    let mask = [0x0f, 0x01, 0x02, 0x03, 0x04, 0x05];
    let h = remove_header_protection(0, &packet, 9, &mask);
    assert_eq!(h, vec![0xcf, 0, 0, 0, 1, 1, 0xaa, 0, 0, 0x00, 0x12, 0x23, 0x34]);
    let h = remove_header_protection(0x0c, &packet, 9, &[0x0c, 0x55]);
    assert_eq!(h, vec![0xcc, 0, 0, 0, 1, 1, 0xaa, 0, 0, 0x54]);
}

#[test]
fn quic_nonce_from_packet_number() {
    let iv = unhex(IV);
    let n = packet_nonce(&iv, &unhex(HEADER), 4);
    assert_eq!(n, unhex("fa044b2f42a3fd3b46fb255e"));
    let n = packet_nonce(&iv, &[0xff], 1);
    assert_eq!(n, unhex("fa044b2f42a3fd3b46fb25a3"));
}

#[test]
fn quic_crypto_frame() {
    let p = [0x06, 0x00, 0x41, 0x00, 0xaa, 0xbb];
    let f = parse_crypto_frame(&p).unwrap();
    assert_eq!(f.frame_type, 6);
    assert_eq!(f.offset, 0);
    assert_eq!(f.length, 256);
    assert_eq!(f.decoded_data, vec![0xaa, 0xbb]);
    assert!(parse_crypto_frame(&[0x06, 0x00]).is_none());
    assert!(parse_crypto_frame(&[0x06, 0x00, 0x41]).is_none());
    assert!(parse_crypto_frame(&[]).is_none());
}

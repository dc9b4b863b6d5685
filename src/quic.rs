//! QUIC long headers, and the removal of Initial packet protection
//! (RFC 9001, sections 5.2 to 5.4).
use vstd::prelude::*;
use crate::crypto::{
    aes128_encrypt, aes128_encrypt_block, aes128_gcm_decrypt, aes128_gcm_open, hkdf_expand,
    hkdf_extract, hkdf_sha256_expand, hkdf_sha256_extract,
};
use crate::varint::{read_varint_at, varint_at, varint_len, varint_reads_declared_prefix};

verus! {

/// Salt of the QUIC version 1 Initial secret (RFC 9001, section 5.2).
pub const INITIAL_SALT: [u8; 20] = [
    0x38, 0x76, 0x2c, 0xf7, 0xf5, 0x59, 0x34, 0xb3, 0x4d, 0x17, 0x9a, 0xe6, 0xa4, 0xc8, 0x0c, 0xad,
    0xcc, 0xbb, 0x7f, 0x0a,
];

/// HKDF label "tls13 client in", 32 bytes of output (RFC 8446, section 7.1).
pub const CLIENT_IN: [u8; 19] = [
    0x00, 0x20, 0x0f, 0x74, 0x6c, 0x73, 0x31, 0x33, 0x20, 0x63, 0x6c, 0x69, 0x65, 0x6e, 0x74, 0x20,
    0x69, 0x6e, 0x00,
];

/// HKDF label "tls13 quic key", 16 bytes of output.
pub const QUIC_KEY: [u8; 18] = [
    0x00, 0x10, 0x0e, 0x74, 0x6c, 0x73, 0x31, 0x33, 0x20, 0x71, 0x75, 0x69, 0x63, 0x20, 0x6b, 0x65,
    0x79, 0x00,
];

/// HKDF label "tls13 quic iv", 12 bytes of output.
pub const QUIC_IV: [u8; 17] = [
    0x00, 0x0c, 0x0d, 0x74, 0x6c, 0x73, 0x31, 0x33, 0x20, 0x71, 0x75, 0x69, 0x63, 0x20, 0x69, 0x76,
    0x00,
];

/// HKDF label "tls13 quic hp", 16 bytes of output.
pub const QUIC_HP: [u8; 17] = [
    0x00, 0x10, 0x0d, 0x74, 0x6c, 0x73, 0x31, 0x33, 0x20, 0x71, 0x75, 0x69, 0x63, 0x20, 0x68, 0x70,
    0x00,
];

/// Length of the AES-128-GCM tag that ends a protected packet.
pub const TAG_LEN: usize = 16;

/// The fields of the first five bytes of a long-header packet.
#[derive(Debug)]
pub struct QuicHeader {
    pub header_form: u8,
    pub fixed_bit: u8,
    pub packet_type: u8,
    pub enc_packet_bits: u8,
    pub version: u32,
}

/// A CRYPTO frame taken from a decrypted Initial packet.
#[derive(Debug)]
pub struct QuicPayload {
    pub frame_type: u64,
    pub offset: usize,
    pub length: usize,
    pub decoded_data: Vec<u8>,
}

/// The version field of a long header: bytes 1 to 4, big-endian.
pub open spec fn header_version(d: Seq<u8>) -> nat {
    d[1] as nat * 0x1000000 + d[2] as nat * 0x10000 + d[3] as nat * 0x100 + d[4] as nat
}

/// Parses the first byte and the version of a long header; `None` where
/// `data` holds fewer than five bytes.
pub fn parse_quic_header(data: &[u8]) -> (r: Option<QuicHeader>)
    ensures
        r is Some <==> data@.len() >= 5,
        r is Some ==> (r->0).header_form == data@[0] / 128,
        r is Some ==> (r->0).fixed_bit == data@[0] / 64 % 2,
        r is Some ==> (r->0).packet_type == data@[0] / 16 % 4,
        r is Some ==> (r->0).enc_packet_bits == data@[0] % 16,
        r is Some ==> (r->0).version == header_version(data@),
{
    if data.len() < 5 {
        return None;
    }
    let f = data[0];
    let version = data[1] as u32 * 0x1000000 + data[2] as u32 * 0x10000 + data[3] as u32 * 0x100
        + data[4] as u32;
    Some(
        QuicHeader {
            header_form: f / 128,
            fixed_bit: f / 64 % 2,
            packet_type: f / 16 % 4,
            enc_packet_bits: f % 16,
            version,
        },
    )
}

/// Offset of the packet-number field of an Initial packet: after the
/// destination connection ID (which must not be empty), the source connection
/// ID, the token and the varint of the remaining length. `None` where one of
/// these runs past the end of `d`.
pub open spec fn packet_number_offset(d: Seq<u8>) -> Option<int> {
    if d.len() < 6 || d[5] == 0 {
        None
    } else {
        let scid = 6 + d[5] as int;
        if scid >= d.len() {
            None
        } else {
            let token = scid + 1 + d[scid] as int;
            match varint_at(d, token) {
                None => None,
                Some((token_len, n)) => {
                    let remainder = token + n + token_len;
                    match varint_at(d, remainder) {
                        None => None,
                        Some((_, m)) => Some(remainder + m),
                    }
                }
            }
        }
    }
}

/// The destination connection ID of a long-header packet.
pub open spec fn initial_dcid(d: Seq<u8>) -> Seq<u8> {
    d.subrange(6, 6 + d[5] as int)
}

/// The client Initial secret for a destination connection ID.
pub open spec fn client_initial_secret(dcid: Seq<u8>) -> Seq<u8> {
    hkdf_sha256_expand(hkdf_sha256_extract(INITIAL_SALT@, dcid), CLIENT_IN@, 32)
}

/// The client's AEAD key.
pub open spec fn initial_key(dcid: Seq<u8>) -> Seq<u8> {
    hkdf_sha256_expand(client_initial_secret(dcid), QUIC_KEY@, 16)
}

/// The client's AEAD IV.
pub open spec fn initial_iv(dcid: Seq<u8>) -> Seq<u8> {
    hkdf_sha256_expand(client_initial_secret(dcid), QUIC_IV@, 12)
}

/// The client's header-protection key.
pub open spec fn initial_hp(dcid: Seq<u8>) -> Seq<u8> {
    hkdf_sha256_expand(client_initial_secret(dcid), QUIC_HP@, 16)
}

/// The header-protection mask of a packet whose packet number starts at
/// `pn`: the encryption of the sixteen bytes that start four bytes later.
pub open spec fn header_mask(d: Seq<u8>, pn: int) -> Seq<u8> {
    aes128_encrypt_block(initial_hp(initial_dcid(d)), d.subrange(pn + 4, pn + 20))
}

/// Length of the packet number, from the protected low bits of the first
/// byte and the first byte of the mask.
pub open spec fn packet_number_len(enc_bits: u8, mask0: u8) -> nat {
    ((enc_bits ^ (mask0 & 0x0f)) & 3) as nat + 1
}

/// The header `h` with its protection removed: the low four bits of the
/// first byte, and the packet number that starts at `pn` and ends `h`.
pub open spec fn unprotect_header(h: Seq<u8>, pn: int, mask: Seq<u8>) -> Seq<u8> {
    Seq::new(
        h.len(),
        |i: int|
            if i == 0 {
                h[0] ^ (mask[0] & 0x0f)
            } else if i >= pn {
                h[i] ^ mask[1 + i - pn]
            } else {
                h[i]
            },
    )
}

/// The AEAD nonce: the IV with the packet number, which ends the header
/// `h` and takes `pn_len` bytes, XORed into its last bytes.
pub open spec fn packet_nonce_of(iv: Seq<u8>, h: Seq<u8>, pn_len: nat) -> Seq<u8> {
    Seq::new(
        iv.len(),
        |i: int|
            if i >= iv.len() - pn_len {
                iv[i] ^ h[h.len() - iv.len() + i]
            } else {
                iv[i]
            },
    )
}

/// The unprotected header and the plaintext of an Initial packet whose first
/// byte's protected low bits are `enc_bits`; `None` where a field runs past
/// the end of `d`, where the header-protection sample does not fit, or where
/// the AEAD tag does not authenticate the packet.
pub open spec fn initial_packet_parts(enc_bits: u8, d: Seq<u8>) -> Option<(Seq<u8>, Seq<u8>)> {
    match packet_number_offset(d) {
        None => None,
        Some(pn) => {
            if pn + 20 > d.len() {
                None
            } else {
                let dcid = initial_dcid(d);
                let mask = header_mask(d, pn);
                let pn_len = packet_number_len(enc_bits, mask[0]);
                let h = unprotect_header(d.subrange(0, pn + pn_len), pn, mask);
                let nonce = packet_nonce_of(initial_iv(dcid), h, pn_len);
                let body = d.subrange(pn + pn_len, d.len() - 16);
                let tag = d.subrange(d.len() - 16, d.len() as int);
                match aes128_gcm_open(initial_key(dcid), nonce, h, body, tag) {
                    Some(p) => Some((h, p)),
                    None => None,
                }
            }
        }
    }
}

/// The packet buffer after decryption in place: unprotected header,
/// plaintext, tag.
pub open spec fn decrypted_packet(enc_bits: u8, d: Seq<u8>) -> Option<Seq<u8>> {
    match initial_packet_parts(enc_bits, d) {
        Some((h, p)) => Some(h + p + d.subrange(d.len() - 16, d.len() as int)),
        None => None,
    }
}

/// The CRYPTO frame at the start of a plaintext: its type, offset and length
/// varints, and where its data starts. `None` where a varint runs past the
/// end, or where the offset or length does not fit in `usize`.
pub open spec fn crypto_frame(p: Seq<u8>) -> Option<(nat, nat, nat, int)> {
    match varint_at(p, 0) {
        None => None,
        Some((t, a)) => match varint_at(p, a as int) {
            None => None,
            Some((o, b)) => match varint_at(p, (a + b) as int) {
                None => None,
                Some((l, c)) => {
                    if o > usize::MAX || l > usize::MAX {
                        None
                    } else {
                        Some((t, o, l, (a + b + c) as int))
                    }
                }
            },
        },
    }
}

/// Whether `f` is the CRYPTO frame at the start of the plaintext `p`, with
/// the rest of `p` as its data.
pub open spec fn is_frame_of(f: QuicPayload, p: Seq<u8>) -> bool {
    match crypto_frame(p) {
        Some((t, o, l, start)) => f.frame_type == t && f.offset == o && f.length == l
            && f.decoded_data@ == p.subrange(start, p.len() as int),
        None => false,
    }
}

/// Finds where the packet number of an Initial packet starts.
pub fn locate_packet_number(data: &[u8]) -> (r: Option<usize>)
    ensures
        r is Some <==> packet_number_offset(data@) is Some,
        r is Some ==> r->0 == packet_number_offset(data@)->0,
{
    let n = data.len();
    if n < 6 || data[5] == 0 {
        return None;
    }
    let scid = 6 + data[5] as usize;
    if scid >= n {
        return None;
    }
    let scid_len = data[scid] as usize;
    if scid_len >= n - scid - 1 {
        return None;
    }
    let token = scid + 1 + scid_len;
    let (token_len, k) = match read_varint_at(data, token) {
        Some(v) => v,
        None => return None,
    };
    if token_len > (n - token - k) as u64 {
        return None;
    }
    let remainder = token + k + token_len as usize;
    match read_varint_at(data, remainder) {
        Some((_, m)) => Some(remainder + m),
        None => None,
    }
}

proof fn lemma_low_bits(x: u8)
    ensures
        x & 3 <= 3,
{
    assert(x & 3 <= 3) by (bit_vector);
}

/// Removes header protection from the first `pn_offset` bytes of `data` and
/// the packet number that follows them, whose length the mask reveals.
pub fn remove_header_protection(enc_packet_bits: u8, data: &[u8], pn_offset: usize, mask: &[u8]) -> (r: Vec<u8>)
    requires
        1 <= pn_offset,
        pn_offset + 4 <= data@.len(),
        mask@.len() >= 5,
    ensures
        r@ == unprotect_header(
            data@.subrange(0, pn_offset + packet_number_len(enc_packet_bits, mask@[0])),
            pn_offset as int,
            mask@,
        ),
        1 <= packet_number_len(enc_packet_bits, mask@[0]) <= 4,
{
    let n = data.len();
    let unmasked = enc_packet_bits ^ (mask[0] & 0x0f);
    let bits = unmasked & 3;
    proof {
        lemma_low_bits(unmasked);
    }
    let end = pn_offset + bits as usize + 1;
    let ghost h = data@.subrange(0, end as int);
    let mut r: Vec<u8> = Vec::new();
    let mut i: usize = 0;
    while i < end
        invariant
            i <= end,
            end <= n,
            n == data@.len(),
            1 <= pn_offset < end <= pn_offset + 4,
            mask@.len() >= 5,
            h == data@.subrange(0, end as int),
            r@ == unprotect_header(h, pn_offset as int, mask@).subrange(0, i as int),
        decreases end - i,
    {
        let b = if i == 0 {
            data[0] ^ (mask[0] & 0x0f)
        } else if i >= pn_offset {
            data[i] ^ mask[1 + i - pn_offset]
        } else {
            data[i]
        };
        r.push(b);
        i = i + 1;
        assert(r@ =~= unprotect_header(h, pn_offset as int, mask@).subrange(0, i as int));
    }
    assert(r@ =~= unprotect_header(h, pn_offset as int, mask@));
    r
}

/// The AEAD nonce of a packet: `iv` with the packet number, the last
/// `pn_len` bytes of `header`, XORed into its last bytes.
pub fn packet_nonce(iv: &[u8], header: &[u8], pn_len: usize) -> (r: Vec<u8>)
    requires
        pn_len <= iv@.len(),
        pn_len <= header@.len(),
    ensures
        r@ == packet_nonce_of(iv@, header@, pn_len as nat),
{
    let n = iv.len();
    let mut r: Vec<u8> = Vec::new();
    let mut i: usize = 0;
    while i < n
        invariant
            i <= n,
            n == iv@.len(),
            pn_len <= n,
            pn_len <= header@.len(),
            r@ == packet_nonce_of(iv@, header@, pn_len as nat).subrange(0, i as int),
        decreases n - i,
    {
        let b = if i >= n - pn_len {
            iv[i] ^ header[header.len() - (n - i)]
        } else {
            iv[i]
        };
        r.push(b);
        i = i + 1;
        assert(r@ =~= packet_nonce_of(iv@, header@, pn_len as nat).subrange(0, i as int));
    }
    assert(r@ =~= packet_nonce_of(iv@, header@, pn_len as nat));
    r
}

/// Reads the CRYPTO frame at the start of a decrypted Initial payload: type,
/// offset and length, with the rest of `plain` as its data.
pub fn parse_crypto_frame(plain: &[u8]) -> (r: Option<QuicPayload>)
    ensures
        r is Some <==> crypto_frame(plain@) is Some,
        r is Some ==> is_frame_of(r->0, plain@),
{
    let (frame_type, a) = match read_varint_at(plain, 0) {
        Some(v) => v,
        None => return None,
    };
    let (offset, b) = match read_varint_at(plain, a) {
        Some(v) => v,
        None => return None,
    };
    let (length, c) = match read_varint_at(plain, a + b) {
        Some(v) => v,
        None => return None,
    };
    if offset > usize::MAX as u64 || length > usize::MAX as u64 {
        return None;
    }
    let start = a + b + c;
    let rest = vstd::slice::slice_subrange(plain, start, plain.len());
    Some(
        QuicPayload {
            frame_type,
            offset: offset as usize,
            length: length as usize,
            decoded_data: vstd::slice::slice_to_vec(rest),
        },
    )
}

/// Removes the protection of a QUIC Initial packet in place and returns the
/// CRYPTO frame that it carries. The keys come from the destination
/// connection ID; `header` supplies the protected low bits of the first byte.
/// Where the packet is decrypted, `data` afterwards holds the unprotected
/// header, the plaintext and the tag; otherwise it is left as it was.
pub fn parse_quic_payload(header: QuicHeader, data: &mut [u8]) -> (r: Option<QuicPayload>)
    ensures
        final(data)@ == match decrypted_packet(header.enc_packet_bits, old(data)@) {
            Some(d) => d,
            None => old(data)@,
        },
        r is Some <==> (initial_packet_parts(header.enc_packet_bits, old(data)@) is Some
            && crypto_frame((initial_packet_parts(header.enc_packet_bits, old(data)@)->0).1) is Some),
        r is Some ==> is_frame_of(r->0, (initial_packet_parts(header.enc_packet_bits, old(data)@)->0).1),
{
    let ghost d0 = data@;
    let n = data.len();
    let pn = match locate_packet_number(data) {
        Some(pn) => pn,
        None => return None,
    };
    if n < 20 || pn > n - 20 {
        return None;
    }
    let dcid_end = 6 + data[5] as usize;
    let prk = hkdf_extract(INITIAL_SALT.as_slice(), vstd::slice::slice_subrange(data, 6, dcid_end));
    let secret = match hkdf_expand(prk.as_slice(), CLIENT_IN.as_slice(), 32) {
        Some(s) => s,
        None => return None,
    };
    let key = match hkdf_expand(secret.as_slice(), QUIC_KEY.as_slice(), 16) {
        Some(k) => k,
        None => return None,
    };
    let iv = match hkdf_expand(secret.as_slice(), QUIC_IV.as_slice(), 12) {
        Some(k) => k,
        None => return None,
    };
    let hp = match hkdf_expand(secret.as_slice(), QUIC_HP.as_slice(), 16) {
        Some(k) => k,
        None => return None,
    };
    let mask = match aes128_encrypt(hp.as_slice(), vstd::slice::slice_subrange(data, pn + 4, pn + 20)) {
        Some(m) => m,
        None => return None,
    };
    let hdr = remove_header_protection(header.enc_packet_bits, data, pn, mask.as_slice());
    let end = hdr.len();
    let nonce = packet_nonce(iv.as_slice(), hdr.as_slice(), end - pn);
    let mut msg = vstd::slice::slice_to_vec(vstd::slice::slice_subrange(data, end, n - TAG_LEN));
    let opened = aes128_gcm_decrypt(
        key.as_slice(),
        nonce.as_slice(),
        hdr.as_slice(),
        &mut msg,
        vstd::slice::slice_subrange(data, n - TAG_LEN, n),
    );
    if !opened {
        return None;
    }
    let ghost tag = d0.subrange(n - 16, n as int);
    let ghost full = hdr@ + msg@ + tag;
    assert(decrypted_packet(header.enc_packet_bits, d0) == Some(full));
    let mut i: usize = 0;
    while i < end
        invariant
            i <= end,
            end == hdr@.len(),
            end + msg@.len() + 16 == n,
            n == data@.len(),
            full == hdr@ + msg@ + tag,
            tag == d0.subrange(n - 16, n as int),
            forall|k: int| 0 <= k < i ==> data@[k] == full[k],
            forall|k: int| end <= k < n ==> data@[k] == d0[k],
        decreases end - i,
    {
        data[i] = hdr[i];
        i = i + 1;
    }
    let mut j: usize = 0;
    while j < msg.len()
        invariant
            j <= msg@.len(),
            end == hdr@.len(),
            end + msg@.len() + 16 == n,
            n == data@.len(),
            full == hdr@ + msg@ + tag,
            tag == d0.subrange(n - 16, n as int),
            forall|k: int| 0 <= k < end + j ==> data@[k] == full[k],
            forall|k: int| end + msg@.len() <= k < n ==> data@[k] == d0[k],
        decreases msg@.len() - j,
    {
        data[end + j] = msg[j];
        j = j + 1;
    }
    assert(data@ =~= full);
    parse_crypto_frame(msg.as_slice())
}

proof fn lemma_varint_at_prefix(d: Seq<u8>, k: int, i: int)
    requires
        0 <= k <= d.len(),
        varint_at(d.subrange(0, k), i) is Some,
    ensures
        varint_at(d, i) == varint_at(d.subrange(0, k), i),
{
    let t = d.subrange(0, k);
    let n = varint_len(t[i]) as int;
    let a = t.subrange(i, k);
    let b = d.subrange(i, d.len() as int);
    assert(a.subrange(0, n) =~= b.subrange(0, n));
    varint_reads_declared_prefix(a, b);
}

proof fn lemma_packet_number_offset_prefix(d: Seq<u8>, k: int)
    requires
        0 <= k <= d.len(),
        packet_number_offset(d.subrange(0, k)) is Some,
    ensures
        packet_number_offset(d) == packet_number_offset(d.subrange(0, k)),
{
    let t = d.subrange(0, k);
    let scid = 6 + t[5] as int;
    let token = scid + 1 + t[scid] as int;
    lemma_varint_at_prefix(d, k, token);
    let (token_len, n) = varint_at(t, token)->0;
    lemma_varint_at_prefix(d, k, token + n + token_len);
}

/// An Initial packet with an empty destination connection ID is refused.
pub proof fn initial_refuses_empty_dcid(enc_bits: u8, d: Seq<u8>)
    requires
        d.len() >= 6,
        d[5] == 0,
    ensures
        initial_packet_parts(enc_bits, d) is None,
{
}

/// A packet cut short anywhere before the end of its header-protection
/// sample, and so at each of its length-prefixed fields, is refused.
pub proof fn initial_refuses_truncation(enc_bits: u8, d: Seq<u8>, k: int)
    requires
        packet_number_offset(d) is Some,
        0 <= k <= d.len(),
        k < packet_number_offset(d)->0 + 20,
    ensures
        initial_packet_parts(enc_bits, d.subrange(0, k)) is None,
{
    if packet_number_offset(d.subrange(0, k)) is Some {
        lemma_packet_number_offset_prefix(d, k);
    }
}

} // verus!

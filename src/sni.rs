//! Locating the server_name extension in a TLS ClientHello.
use vstd::prelude::*;

verus! {

/// TLS record content type of a handshake record.
pub const CONTENT_TYPE_HANDSHAKE: u8 = 22;

/// Handshake message type of a ClientHello.
pub const HANDSHAKE_CLIENT_HELLO: u8 = 1;

/// Extension type of server_name.
pub const EXTENSION_SERVER_NAME: u16 = 0;

/// Offset of the session-ID length in a ClientHello: one byte of handshake
/// type, three of length, two of version and thirty-two of random.
pub const SESSION_ID_LENGTH_OFFSET: usize = 38;

/// The text that `b` encodes as UTF-8, or `None` where it is not valid UTF-8.
pub uninterp spec fn utf8_decode(b: Seq<u8>) -> Option<Seq<char>>;

/// Relies on std's `String::from_utf8`: it accepts exactly the valid UTF-8
/// byte strings and returns their text.
#[verifier::external_body]
fn utf8_string(b: &[u8]) -> (r: Option<String>)
    ensures
        r is Some <==> utf8_decode(b@) is Some,
        r is Some ==> r->0@ == utf8_decode(b@)->0,
{
    String::from_utf8(b.to_vec()).ok()
}

/// The two bytes at `i`, read big-endian.
pub open spec fn be16(b: Seq<u8>, i: int) -> nat {
    b[i] as nat * 256 + b[i + 1] as nat
}

/// Where the extension list of the ClientHello in `b` starts, and the length
/// that its two-byte prefix claims; `None` where the fixed part is not a
/// ClientHello or runs past the end of `b`.
pub open spec fn extensions_start(b: Seq<u8>) -> Option<(int, int)> {
    if b.len() < 1 || b[0] != HANDSHAKE_CLIENT_HELLO {
        None
    } else if b.len() < 39 {
        None
    } else {
        let cs = 39 + b[38] as int;
        if cs + 2 > b.len() {
            None
        } else {
            let cm = cs + 2 + be16(b, cs);
            if cm + 1 > b.len() {
                None
            } else {
                let ext = cm + 1 + b[cm] as int;
                if ext + 2 > b.len() {
                    None
                } else {
                    Some((ext + 2, be16(b, ext) as int))
                }
            }
        }
    }
}

/// Walks the extensions from `offset` with `remaining` bytes of the list
/// left, and returns where the first DNS host name of a server_name
/// extension starts and ends. `None` where the list ends without one, where a
/// field runs past the end of `b`, or where an extension is longer than what
/// is left of the list.
pub open spec fn walk_extensions(b: Seq<u8>, offset: int, remaining: int) -> Option<(int, int)>
    decreases remaining,
{
    if remaining <= 0 {
        None
    } else if offset + 4 > b.len() {
        None
    } else {
        let ext_type = be16(b, offset);
        let ext_len = be16(b, offset + 2) as int;
        let body = offset + 4;
        if ext_type == EXTENSION_SERVER_NAME && body + 5 > b.len() {
            None
        } else if ext_type == EXTENSION_SERVER_NAME && b[body + 2] == 0 {
            let name_len = be16(b, body + 3) as int;
            if body + 5 + name_len > b.len() {
                None
            } else {
                Some((body + 5, body + 5 + name_len))
            }
        } else if 4 + ext_len > remaining {
            None
        } else {
            walk_extensions(b, body + ext_len, remaining - 4 - ext_len)
        }
    }
}

/// Start and end of the host name that the ClientHello in `b` carries.
pub open spec fn server_name_range(b: Seq<u8>) -> Option<(int, int)> {
    match extensions_start(b) {
        Some((offset, len)) => walk_extensions(b, offset, len),
        None => None,
    }
}

/// The host name that the ClientHello in `b` carries, as text.
pub open spec fn server_name(b: Seq<u8>) -> Option<Seq<char>> {
    match server_name_range(b) {
        Some((start, end)) => utf8_decode(b.subrange(start, end)),
        None => None,
    }
}

/// The host name of a TLS record: `None` unless the record is a handshake
/// record, whose ClientHello starts after the five-byte record header.
pub open spec fn record_server_name(b: Seq<u8>) -> Option<Seq<char>> {
    if b.len() < 5 || b[0] != CONTENT_TYPE_HANDSHAKE {
        None
    } else {
        server_name(b.subrange(5, b.len() as int))
    }
}

fn read_u16(buf: &[u8], i: usize) -> (r: usize)
    requires
        i + 2 <= buf@.len(),
    ensures
        r == be16(buf@, i as int),
        r < 65536,
{
    buf[i] as usize * 256 + buf[i + 1] as usize
}

/// Finds the host name in the ClientHello that starts `buf`: where it starts
/// and ends within `buf`.
pub fn find_server_name(buf: &[u8]) -> (r: Option<(usize, usize)>)
    ensures
        r is Some <==> server_name_range(buf@) is Some,
        r is Some ==> server_name_range(buf@) == Some(((r->0).0 as int, (r->0).1 as int)),
        r is Some ==> (r->0).0 <= (r->0).1 <= buf@.len(),
{
    let n = buf.len();
    if n < 1 || buf[0] != HANDSHAKE_CLIENT_HELLO {
        return None;
    }
    if n < 39 {
        return None;
    }
    let cs = 39 + buf[SESSION_ID_LENGTH_OFFSET] as usize;
    if cs > n - 2 {
        return None;
    }
    let cipher_suites_len = read_u16(buf, cs);
    if cipher_suites_len >= n - (cs + 2) {
        return None;
    }
    let cm = cs + 2 + cipher_suites_len;
    let compression_len = buf[cm] as usize;
    if compression_len + 2 > n - (cm + 1) {
        return None;
    }
    let ext = cm + 1 + compression_len;
    let mut remaining = read_u16(buf, ext);
    let mut offset = ext + 2;
    assert(extensions_start(buf@) == Some((offset as int, remaining as int)));
    while remaining > 0
        invariant
            n == buf@.len(),
            offset <= n,
            server_name_range(buf@) == walk_extensions(buf@, offset as int, remaining as int),
        decreases remaining,
    {
        if n - offset < 4 {
            return None;
        }
        let ext_type = read_u16(buf, offset);
        let ext_len = read_u16(buf, offset + 2);
        let body = offset + 4;
        if ext_type == EXTENSION_SERVER_NAME as usize {
            if n - body < 5 {
                return None;
            }
            if buf[body + 2] == 0 {
                let name_len = read_u16(buf, body + 3);
                if name_len > n - (body + 5) {
                    return None;
                }
                return Some((body + 5, body + 5 + name_len));
            }
        }
        if 4 + ext_len > remaining {
            return None;
        }
        if ext_len > n - body {
            assert(walk_extensions(buf@, body + ext_len, remaining - 4 - ext_len) is None);
            return None;
        }
        offset = body + ext_len;
        remaining = remaining - 4 - ext_len;
    }
    None
}

/// Extracts the host name from a TLS Handshake message (a ClientHello); as
/// carried in the CRYPTO frame of a QUIC Initial packet.
pub fn parse_sni_inner(buf: &[u8]) -> (r: Option<String>)
    ensures
        r is Some <==> server_name(buf@) is Some,
        r is Some ==> r->0@ == server_name(buf@)->0,
{
    match find_server_name(buf) {
        Some(p) => utf8_string(vstd::slice::slice_subrange(buf, p.0, p.1)),
        None => None,
    }
}

/// Extracts the host name from a TLS record; `None` unless its content type
/// is handshake.
pub fn parse_sni(buf: &[u8]) -> (r: Option<String>)
    ensures
        r is Some <==> record_server_name(buf@) is Some,
        r is Some ==> r->0@ == record_server_name(buf@)->0,
        buf@.len() == 0 || buf@[0] != CONTENT_TYPE_HANDSHAKE ==> r is None,
{
    if buf.len() < 5 || buf[0] != CONTENT_TYPE_HANDSHAKE {
        return None;
    }
    let inner = vstd::slice::slice_subrange(buf, 5, buf.len());
    parse_sni_inner(inner)
}

/// The walk keeps no state between calls: the host name found is a function
/// of the bytes alone, so the same buffer gives the same result every time.
pub proof fn server_name_depends_on_bytes_alone(a: Seq<u8>, b: Seq<u8>)
    requires
        a == b,
    ensures
        server_name_range(a) == server_name_range(b),
        server_name(a) == server_name(b),
        record_server_name(a) == record_server_name(b),
{
}

} // verus!

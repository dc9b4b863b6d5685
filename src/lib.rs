//! Extraction of the Server Name Indication from TLS records and from
//! QUIC Initial packets.
pub mod crypto;
pub mod quic;
pub mod sni;
pub mod varint;

pub use quic::{parse_quic_header, parse_quic_payload, QuicHeader, QuicPayload};
pub use sni::{parse_sni, parse_sni_inner};
pub use varint::read_variable_length_int;

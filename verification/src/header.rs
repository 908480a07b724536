//! The header of the buffer that a guest shares for a quote request.
//!
//! 24 bytes, all fields little-endian: the structure version (8, set by the guest),
//! the error code (8, set on completion), the length of the request (4, set by the
//! guest) and the length of the quote that follows (4, set on completion).
use vstd::prelude::*;
use crate::bytes;
use crate::bytes::{append_bytes, decode_le, encode_le};

verus! {

broadcast use crate::bytes::lemma_le_bytes_len;

/// The quote stands in the buffer.
pub const TDX_VP_GET_QUOTE_SUCCESS: u64 = 0;

/// The request was taken and is not answered yet.
pub const TDX_VP_GET_QUOTE_IN_FLIGHT: u64 = 0xffff_ffff_ffff_ffff;

/// The service could not be reached, or did not answer.
pub const TDX_VP_GET_QUOTE_QGS_UNAVAILABLE: u64 = 0x8000_0000_0000_0001;

/// The service answered without a quote.
pub const TDX_VP_GET_QUOTE_ERROR: u64 = 0x8000_0000_0000_0000;

pub const HDR_STRUCTURE_VERSION_OFFSET: usize = 0;

pub const HDR_ERROR_CODE_OFFSET: usize = 8;

pub const HDR_IN_LEN_OFFSET: usize = 16;

pub const HDR_OUT_LEN_OFFSET: usize = 20;

pub const TDX_GET_QUOTE_HDR_SIZE: usize = 24;

/// The fields of the header.
#[derive(Debug, Clone, Copy, PartialEq, Eq, Structural)]
pub struct QuoteHeader {
    pub structure_version: u64,
    pub error_code: u64,
    pub in_len: u32,
    pub out_len: u32,
}

/// The header in the first 24 bytes of `buffer`.
pub open spec fn header_of(buffer: Seq<u8>) -> QuoteHeader {
    QuoteHeader {
        structure_version: bytes::le_value(buffer.subrange(0, 8)) as u64,
        error_code: bytes::le_value(buffer.subrange(8, 16)) as u64,
        in_len: bytes::le_value(buffer.subrange(16, 20)) as u32,
        out_len: bytes::le_value(buffer.subrange(20, 24)) as u32,
    }
}

impl QuoteHeader {
    /// The bytes of the header.
    pub open spec fn bytes(self) -> Seq<u8> {
        bytes::le_bytes(self.structure_version as nat, 8) + bytes::le_bytes(
            self.error_code as nat,
            8,
        ) + bytes::le_bytes(self.in_len as nat, 4) + bytes::le_bytes(self.out_len as nat, 4)
    }

    /// Reads the header at the start of `buffer`.
    pub fn decode(buffer: &[u8]) -> (header: QuoteHeader)
        requires
            TDX_GET_QUOTE_HDR_SIZE <= buffer@.len(),
        ensures
            header == header_of(buffer@),
    {
        let structure_version: u64 = decode_le(buffer, HDR_STRUCTURE_VERSION_OFFSET, 8);
        let error_code: u64 = decode_le(buffer, HDR_ERROR_CODE_OFFSET, 8);
        let in_len: u64 = decode_le(buffer, HDR_IN_LEN_OFFSET, 4);
        let out_len: u64 = decode_le(buffer, HDR_OUT_LEN_OFFSET, 4);
        proof {
            bytes::lemma_byte_limits();
        }
        QuoteHeader {
            structure_version,
            error_code,
            in_len: in_len as u32,
            out_len: out_len as u32,
        }
    }

    /// Writes the header out.
    pub fn encode(&self) -> (out: Vec<u8>)
        ensures
            out@ == self.bytes(),
            out@.len() == TDX_GET_QUOTE_HDR_SIZE,
    {
        let mut out: Vec<u8> = encode_le(self.structure_version, 8);
        append_bytes(&mut out, encode_le(self.error_code, 8).as_slice());
        append_bytes(&mut out, encode_le(self.in_len as u64, 4).as_slice());
        append_bytes(&mut out, encode_le(self.out_len as u64, 4).as_slice());
        out
    }
}

/// Reading a header gives back what was written.
pub proof fn law_header_decodes(header: QuoteHeader, rest: Seq<u8>)
    ensures
        header.bytes().len() == TDX_GET_QUOTE_HDR_SIZE,
        header_of(header.bytes() + rest) == header,
{
    let buffer = header.bytes() + rest;
    bytes::lemma_byte_limits();
    bytes::lemma_le_value_of_bytes(header.structure_version as nat, 8);
    bytes::lemma_le_value_of_bytes(header.error_code as nat, 8);
    bytes::lemma_le_value_of_bytes(header.in_len as nat, 4);
    bytes::lemma_le_value_of_bytes(header.out_len as nat, 4);
    assert(buffer.subrange(0, 8) =~= bytes::le_bytes(header.structure_version as nat, 8));
    assert(buffer.subrange(8, 16) =~= bytes::le_bytes(header.error_code as nat, 8));
    assert(buffer.subrange(16, 20) =~= bytes::le_bytes(header.in_len as nat, 4));
    assert(buffer.subrange(20, 24) =~= bytes::le_bytes(header.out_len as nat, 4));
}

/// Writing a header back as it was read leaves every byte as it was.
pub proof fn law_header_encodes(buffer: Seq<u8>)
    requires
        buffer.len() == TDX_GET_QUOTE_HDR_SIZE,
    ensures
        header_of(buffer).bytes() == buffer,
{
    let fields = (
        buffer.subrange(0, 8),
        buffer.subrange(8, 16),
        buffer.subrange(16, 20),
        buffer.subrange(20, 24),
    );
    bytes::lemma_byte_limits();
    bytes::lemma_le_value_bound(fields.0);
    bytes::lemma_le_value_bound(fields.1);
    bytes::lemma_le_value_bound(fields.2);
    bytes::lemma_le_value_bound(fields.3);
    bytes::lemma_le_bytes_of_value(fields.0);
    bytes::lemma_le_bytes_of_value(fields.1);
    bytes::lemma_le_bytes_of_value(fields.2);
    bytes::lemma_le_bytes_of_value(fields.3);
    assert(fields.0 + fields.1 + fields.2 + fields.3 =~= buffer);
}

/// Where the fields of a header stand, and how their bytes count.
pub proof fn law_header_layout(buffer: Seq<u8>)
    requires
        24 <= buffer.len(),
    ensures
        ({
            let b = buffer;
            let header = header_of(buffer);
            &&& header.structure_version == b[0] + 0x100 * b[1] + 0x1_0000 * b[2] + 0x100_0000
                * b[3] + 0x1_0000_0000 * b[4] + 0x100_0000_0000 * b[5] + 0x1_0000_0000_0000
                * b[6] + 0x100_0000_0000_0000 * b[7]
            &&& header.error_code == b[8] + 0x100 * b[9] + 0x1_0000 * b[10] + 0x100_0000 * b[11]
                + 0x1_0000_0000 * b[12] + 0x100_0000_0000 * b[13] + 0x1_0000_0000_0000 * b[14]
                + 0x100_0000_0000_0000 * b[15]
            &&& header.in_len == b[16] + 0x100 * b[17] + 0x1_0000 * b[18] + 0x100_0000 * b[19]
            &&& header.out_len == b[20] + 0x100 * b[21] + 0x1_0000 * b[22] + 0x100_0000 * b[23]
        }),
{
    bytes::law_eight_bytes(buffer.subrange(0, 8));
    bytes::law_eight_bytes(buffer.subrange(8, 16));
    bytes::law_four_bytes(buffer.subrange(16, 20));
    bytes::law_four_bytes(buffer.subrange(20, 24));
}

/// The codes are those that a guest knows.
pub proof fn law_error_codes()
    ensures
        TDX_VP_GET_QUOTE_SUCCESS == 0,
        TDX_VP_GET_QUOTE_IN_FLIGHT == 0xffff_ffff_ffff_ffff,
        TDX_VP_GET_QUOTE_QGS_UNAVAILABLE == 0x8000_0000_0000_0001,
        TDX_VP_GET_QUOTE_ERROR == 0x8000_0000_0000_0000,
        TDX_GET_QUOTE_HDR_SIZE == 24,
{
}

/// A guest can tell the four states of its request apart.
pub proof fn law_error_codes_differ()
    ensures
        TDX_VP_GET_QUOTE_SUCCESS != TDX_VP_GET_QUOTE_IN_FLIGHT,
        TDX_VP_GET_QUOTE_SUCCESS != TDX_VP_GET_QUOTE_QGS_UNAVAILABLE,
        TDX_VP_GET_QUOTE_SUCCESS != TDX_VP_GET_QUOTE_ERROR,
        TDX_VP_GET_QUOTE_IN_FLIGHT != TDX_VP_GET_QUOTE_QGS_UNAVAILABLE,
        TDX_VP_GET_QUOTE_IN_FLIGHT != TDX_VP_GET_QUOTE_ERROR,
        TDX_VP_GET_QUOTE_QGS_UNAVAILABLE != TDX_VP_GET_QUOTE_ERROR,
{
}

} // verus!

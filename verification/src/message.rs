//! Messages of the Quote Generation Service (QGS).
//!
//! Every message starts with a header of 16 bytes, all fields little-endian:
//! major version (2), minor version (2), type (4), size of the whole message (4),
//! error code (4). A GET_QUOTE request goes on with the size of the report (4), the
//! size of the list of ids (4, always zero here) and the report; a GET_QUOTE
//! response with the size of the selected id (4), the size of the quote (4), the
//! id and the quote.
use vstd::prelude::*;
use vstd::slice::slice_subrange;
use crate::bytes;
use crate::bytes::{append_bytes, decode_le, encode_le};

verus! {

broadcast use crate::bytes::lemma_le_bytes_len;

pub const QGS_MSG_LIB_MAJOR_VER: u16 = 1;

pub const QGS_MSG_LIB_MINOR_VER: u16 = 1;

pub const QGS_MSG_TYPE_GET_QUOTE_REQ: u32 = 0;

pub const QGS_MSG_TYPE_GET_QUOTE_RESP: u32 = 1;

pub const QGS_MSG_HEADER_SIZE: usize = 16;

/// The header of a message.
pub open spec fn msg_header(
    major: nat,
    minor: nat,
    kind: nat,
    size: nat,
    error_code: nat,
) -> Seq<u8> {
    bytes::le_bytes(major, 2) + bytes::le_bytes(minor, 2) + bytes::le_bytes(kind, 4)
        + bytes::le_bytes(size, 4) + bytes::le_bytes(error_code, 4)
}

/// The GET_QUOTE request for `report`. A size field holds the low 32 bits of a size.
pub open spec fn get_quote_req(report: Seq<u8>) -> Seq<u8> {
    msg_header(
        QGS_MSG_LIB_MAJOR_VER as nat,
        QGS_MSG_LIB_MINOR_VER as nat,
        QGS_MSG_TYPE_GET_QUOTE_REQ as nat,
        QGS_MSG_HEADER_SIZE as nat + 8 + report.len(),
        0,
    ) + bytes::le_bytes(report.len(), 4) + bytes::le_bytes(0, 4) + report
}

/// The number in the four bytes of `msg` from `at` on.
pub open spec fn u32_field(msg: Seq<u8>, at: int) -> nat {
    bytes::le_value(msg.subrange(at, at + 4))
}

/// Where the quote of a response starts.
pub open spec fn quote_start(resp: Seq<u8>) -> int {
    QGS_MSG_HEADER_SIZE + 8 + u32_field(resp, 16)
}

/// Where the quote of a response ends.
pub open spec fn quote_end(resp: Seq<u8>) -> int {
    quote_start(resp) + u32_field(resp, 20)
}

/// Whether `resp` is a GET_QUOTE response without an error that holds its whole quote.
pub open spec fn holds_quote(resp: Seq<u8>) -> bool {
    &&& QGS_MSG_HEADER_SIZE + 8 <= resp.len()
    &&& u32_field(resp, 4) == QGS_MSG_TYPE_GET_QUOTE_RESP
    &&& u32_field(resp, 12) == 0
    &&& quote_end(resp) <= resp.len()
}

/// The quote that the response `resp` carries, if it carries one.
pub open spec fn quote_of_response(resp: Seq<u8>) -> Option<Seq<u8>> {
    if holds_quote(resp) {
        Some(resp.subrange(quote_start(resp), quote_end(resp)))
    } else {
        None
    }
}

/// Wraps a raw TDREPORT, as a guest hands it over, into the GET_QUOTE request that
/// the service expects.
pub fn build_get_quote_req(report: &[u8]) -> (req: Vec<u8>)
    ensures
        req@ == get_quote_req(report@),
{
    let report_size: u64 = report.len() as u64;
    let total_size: u64 = report_size % 0x1_0000_0000 + (QGS_MSG_HEADER_SIZE as u64 + 8);
    proof {
        bytes::lemma_le_bytes_wrap(
            total_size as nat,
            QGS_MSG_HEADER_SIZE as nat + 8 + report@.len(),
        );
    }
    let mut req: Vec<u8> = encode_le(QGS_MSG_LIB_MAJOR_VER as u64, 2);
    append_bytes(&mut req, encode_le(QGS_MSG_LIB_MINOR_VER as u64, 2).as_slice());
    append_bytes(&mut req, encode_le(QGS_MSG_TYPE_GET_QUOTE_REQ as u64, 4).as_slice());
    append_bytes(&mut req, encode_le(total_size, 4).as_slice());
    append_bytes(&mut req, encode_le(0, 4).as_slice());
    append_bytes(&mut req, encode_le(report_size, 4).as_slice());
    append_bytes(&mut req, encode_le(0, 4).as_slice());
    append_bytes(&mut req, report);
    req
}

/// What a response of another type, or one with an error, says of itself.
#[derive(Debug, Clone, Copy, PartialEq, Eq, Structural)]
pub struct Unexpected {
    pub resp_type: u32,
    pub error_code: u32,
}

/// The type and the error code of `resp`, if it is long enough to have them and is not a
/// GET_QUOTE response without an error.
pub open spec fn unexpected(resp: Seq<u8>) -> Option<Unexpected> {
    if QGS_MSG_HEADER_SIZE + 8 <= resp.len() && (u32_field(resp, 4)
        != QGS_MSG_TYPE_GET_QUOTE_RESP || u32_field(resp, 12) != 0) {
        Some(
            Unexpected {
                resp_type: u32_field(resp, 4) as u32,
                error_code: u32_field(resp, 12) as u32,
            },
        )
    } else {
        None
    }
}

/// The type and the error code of a response that cannot carry a quote because of them.
pub fn check_response(resp: &[u8]) -> (refused: Option<Unexpected>)
    ensures
        refused == unexpected(resp@),
{
    if resp.len() < QGS_MSG_HEADER_SIZE + 8 {
        return None;
    }
    let resp_type: u64 = decode_le(resp, 4, 4);
    let error_code: u64 = decode_le(resp, 12, 4);
    proof {
        bytes::lemma_byte_limits();
    }
    if resp_type != QGS_MSG_TYPE_GET_QUOTE_RESP as u64 || error_code != 0 {
        return Some(
            Unexpected { resp_type: resp_type as u32, error_code: error_code as u32 },
        );
    }
    None
}

/// The raw quote inside a GET_QUOTE response, or nothing where the response is too
/// short, of another type, reports an error, or ends before its quote does.
pub fn extract_quote_from_qgs_response(resp: &[u8]) -> (quote: Option<&[u8]>)
    ensures
        match quote {
            Some(bytes) => quote_of_response(resp@) == Some(bytes@),
            None => quote_of_response(resp@) is None,
        },
{
    if resp.len() < QGS_MSG_HEADER_SIZE + 8 {
        return None;
    }
    if check_response(resp).is_some() {
        return None;
    }
    let selected_id_size: u64 = decode_le(resp, QGS_MSG_HEADER_SIZE, 4);
    let quote_size: u64 = decode_le(resp, QGS_MSG_HEADER_SIZE + 4, 4);
    proof {
        bytes::lemma_byte_limits();
    }
    let payload_start: u64 = QGS_MSG_HEADER_SIZE as u64 + 8 + selected_id_size;
    let payload_end: u64 = payload_start + quote_size;
    if payload_end > resp.len() as u64 {
        return None;
    }
    Some(slice_subrange(resp, payload_start as usize, payload_end as usize))
}

/// A GET_QUOTE response with the given id and quote, followed by `trailing`.
pub open spec fn get_quote_resp(
    major: nat,
    minor: nat,
    size: nat,
    error_code: nat,
    id: Seq<u8>,
    quote: Seq<u8>,
    trailing: Seq<u8>,
) -> Seq<u8> {
    msg_header(major, minor, QGS_MSG_TYPE_GET_QUOTE_RESP as nat, size, error_code)
        + bytes::le_bytes(id.len(), 4) + bytes::le_bytes(quote.len(), 4) + id + quote
        + trailing
}

/// The fields of a message header stand at their offsets, whatever follows.
proof fn lemma_header_fields(
    major: nat,
    minor: nat,
    kind: nat,
    size: nat,
    error_code: nat,
    first: nat,
    second: nat,
    rest: Seq<u8>,
)
    requires
        kind < 0x1_0000_0000,
        error_code < 0x1_0000_0000,
        first < 0x1_0000_0000,
        second < 0x1_0000_0000,
    ensures
        ({
            let msg = msg_header(major, minor, kind, size, error_code) + bytes::le_bytes(
                first,
                4,
            ) + bytes::le_bytes(second, 4) + rest;
            &&& msg.len() == 24 + rest.len()
            &&& u32_field(msg, 4) == kind
            &&& size < 0x1_0000_0000 ==> u32_field(msg, 8) == size
            &&& u32_field(msg, 12) == error_code
            &&& u32_field(msg, 16) == first
            &&& u32_field(msg, 20) == second
            &&& msg.skip(24) == rest
        }),
{
    let msg = msg_header(major, minor, kind, size, error_code) + bytes::le_bytes(first, 4)
        + bytes::le_bytes(second, 4) + rest;
    bytes::lemma_byte_limits();
    bytes::lemma_le_value_of_bytes(kind, 4);
    if size < 0x1_0000_0000 {
        bytes::lemma_le_value_of_bytes(size, 4);
    }
    bytes::lemma_le_value_of_bytes(error_code, 4);
    bytes::lemma_le_value_of_bytes(first, 4);
    bytes::lemma_le_value_of_bytes(second, 4);
    assert(msg.subrange(4, 8) =~= bytes::le_bytes(kind, 4));
    assert(msg.subrange(8, 12) =~= bytes::le_bytes(size, 4));
    assert(msg.subrange(12, 16) =~= bytes::le_bytes(error_code, 4));
    assert(msg.subrange(16, 20) =~= bytes::le_bytes(first, 4));
    assert(msg.subrange(20, 24) =~= bytes::le_bytes(second, 4));
    assert(msg.skip(24) =~= rest);
}

/// A request says what it is: its type, its own whole size, no error, the size of
/// the report, an empty list of ids, and then the report.
pub proof fn law_request_fields(report: Seq<u8>)
    requires
        24 + report.len() < 0x1_0000_0000,
    ensures
        get_quote_req(report).len() == 24 + report.len(),
        u32_field(get_quote_req(report), 4) == QGS_MSG_TYPE_GET_QUOTE_REQ,
        u32_field(get_quote_req(report), 8) == get_quote_req(report).len(),
        u32_field(get_quote_req(report), 12) == 0,
        u32_field(get_quote_req(report), 16) == report.len(),
        u32_field(get_quote_req(report), 20) == 0,
        get_quote_req(report).skip(24) == report,
{
    lemma_header_fields(1, 1, 0, 24 + report.len(), 0, report.len(), 0, report);
}

/// What a request is byte by byte, for a report of any length: version 1.1, type 0, the
/// low 32 bits of its own size, no error, the low 32 bits of the size of the report, no ids,
/// and the report.
pub proof fn law_request_bytes(report: Seq<u8>)
    ensures
        ({
            let req = get_quote_req(report);
            &&& req.len() == 24 + report.len()
            &&& req[0] == 1 && req[1] == 0
            &&& req[2] == 1 && req[3] == 0
            &&& req[4] == 0 && req[5] == 0 && req[6] == 0 && req[7] == 0
            &&& req[8] + 0x100 * req[9] + 0x1_0000 * req[10] + 0x100_0000 * req[11] == (24
                + report.len()) % 0x1_0000_0000
            &&& req[12] == 0 && req[13] == 0 && req[14] == 0 && req[15] == 0
            &&& req[16] + 0x100 * req[17] + 0x1_0000 * req[18] + 0x100_0000 * req[19]
                == report.len() % 0x1_0000_0000
            &&& req[20] == 0 && req[21] == 0 && req[22] == 0 && req[23] == 0
            &&& forall|i: int| 0 <= i < report.len() ==> #[trigger] req[24 + i] == report[i]
        }),
{
    let req = get_quote_req(report);
    let size = bytes::le_bytes(24 + report.len(), 4);
    let report_size = bytes::le_bytes(report.len(), 4);
    reveal_with_fuel(bytes::le_bytes, 5);
    bytes::law_four_bytes_show(24 + report.len());
    bytes::law_four_bytes_show(report.len());
    assert(req[8] == size[0] && req[9] == size[1] && req[10] == size[2] && req[11] == size[3]);
    assert(req[16] == report_size[0] && req[17] == report_size[1] && req[18]
        == report_size[2] && req[19] == report_size[3]);
}

/// Which responses carry a quote, and where it stands, by the bytes of the response: type 1,
/// no error, and behind the sizes of the id and of the quote, both of them whole.
pub proof fn law_response_bytes(resp: Seq<u8>)
    ensures
        ({
            let id_size = resp[16] + 0x100 * resp[17] + 0x1_0000 * resp[18] + 0x100_0000
                * resp[19];
            let quote_size = resp[20] + 0x100 * resp[21] + 0x1_0000 * resp[22] + 0x100_0000
                * resp[23];
            let carries = {
                &&& 24 <= resp.len()
                &&& resp[4] == 1 && resp[5] == 0 && resp[6] == 0 && resp[7] == 0
                &&& resp[12] == 0 && resp[13] == 0 && resp[14] == 0 && resp[15] == 0
                &&& 24 + id_size + quote_size <= resp.len()
            };
            &&& quote_of_response(resp) is Some <==> carries
            &&& quote_of_response(resp) matches Some(quote) ==> {
                &&& quote.len() == quote_size
                &&& forall|i: int|
                    0 <= i < quote_size ==> #[trigger] quote[i] == resp[24 + id_size + i]
            }
        }),
{
    if 24 <= resp.len() {
        bytes::law_four_bytes(resp.subrange(4, 8));
        bytes::law_four_bytes(resp.subrange(12, 16));
        bytes::law_four_bytes(resp.subrange(16, 20));
        bytes::law_four_bytes(resp.subrange(20, 24));
    }
}

/// What is said of a response that cannot carry a quote, by its bytes: its type and its
/// error code, unless they are 1 and 0.
pub proof fn law_unexpected_bytes(resp: Seq<u8>)
    ensures
        ({
            let kind = resp[4] + 0x100 * resp[5] + 0x1_0000 * resp[6] + 0x100_0000 * resp[7];
            let code = resp[12] + 0x100 * resp[13] + 0x1_0000 * resp[14] + 0x100_0000
                * resp[15];
            &&& unexpected(resp) is Some <==> 24 <= resp.len() && (kind != 1 || code != 0)
            &&& unexpected(resp) matches Some(fields) ==> fields.resp_type == kind
                && fields.error_code == code
            &&& unexpected(resp) is Some ==> quote_of_response(resp) is None
        }),
{
    if 24 <= resp.len() {
        bytes::law_four_bytes(resp.subrange(4, 8));
        bytes::law_four_bytes(resp.subrange(12, 16));
    }
}

/// The service can tell any two reports apart by their requests.
pub proof fn law_request_determines_report(a: Seq<u8>, b: Seq<u8>)
    requires
        get_quote_req(a) == get_quote_req(b),
    ensures
        a == b,
{
    assert(get_quote_req(a).skip(24) =~= a);
    assert(get_quote_req(b).skip(24) =~= b);
}

/// What a response without an error says is its quote is what is taken out of it,
/// whatever its version, its size field and its id are, and whatever follows.
pub proof fn law_quote_comes_out(
    major: nat,
    minor: nat,
    size: nat,
    id: Seq<u8>,
    quote: Seq<u8>,
    trailing: Seq<u8>,
)
    requires
        id.len() < 0x1_0000_0000,
        quote.len() < 0x1_0000_0000,
    ensures
        quote_of_response(get_quote_resp(major, minor, size, 0, id, quote, trailing)) == Some(
            quote,
        ),
{
    let resp = get_quote_resp(major, minor, size, 0, id, quote, trailing);
    let rest = id + quote + trailing;
    lemma_header_fields(major, minor, 1, size, 0, id.len(), quote.len(), rest);
    assert(resp =~= msg_header(major, minor, 1, size, 0) + bytes::le_bytes(id.len(), 4)
        + bytes::le_bytes(quote.len(), 4) + rest);
    assert(resp.subrange(quote_start(resp), quote_end(resp)) =~= quote);
}

/// A response that reports an error carries no quote.
pub proof fn law_error_carries_no_quote(resp: Seq<u8>)
    requires
        u32_field(resp, 12) != 0,
    ensures
        quote_of_response(resp) is None,
{
}

/// A request sent back unchanged is never taken for a response.
pub proof fn law_request_is_no_response(report: Seq<u8>)
    ensures
        quote_of_response(get_quote_req(report)) is None,
{
    let req = get_quote_req(report);
    bytes::lemma_byte_limits();
    bytes::lemma_le_value_of_bytes(0, 4);
    assert(req.subrange(4, 8) =~= bytes::le_bytes(0, 4));
}

} // verus!

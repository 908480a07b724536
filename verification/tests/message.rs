use tdx_qgs::bytes::{decode_be, decode_le, encode_be, encode_le};
use tdx_qgs::message::{
    build_get_quote_req, check_response, extract_quote_from_qgs_response, Unexpected,
};

fn response(kind: u32, error_code: u32, id: &[u8], quote: &[u8]) -> Vec<u8> {
    let mut resp: Vec<u8> = Vec::new();
    resp.extend_from_slice(&1u16.to_le_bytes());
    resp.extend_from_slice(&1u16.to_le_bytes());
    resp.extend_from_slice(&kind.to_le_bytes());
    resp.extend_from_slice(&((24 + id.len() + quote.len()) as u32).to_le_bytes());
    resp.extend_from_slice(&error_code.to_le_bytes());
    resp.extend_from_slice(&(id.len() as u32).to_le_bytes());
    resp.extend_from_slice(&(quote.len() as u32).to_le_bytes());
    resp.extend_from_slice(id);
    resp.extend_from_slice(quote);
    resp
}

#[test]
fn numbers_are_encoded_as_by_std() {
    let values: [u64; 5] = [0, 1, 0x0102_0304, 0x8000_0000_0000_0001, u64::MAX];
    for value in values {
        assert_eq!(encode_le(value, 8), value.to_le_bytes().to_vec());
        assert_eq!(encode_be(value, 8), value.to_be_bytes().to_vec());
        assert_eq!(encode_le(value, 4), (value as u32).to_le_bytes().to_vec());
        assert_eq!(encode_be(value, 4), (value as u32).to_be_bytes().to_vec());
        assert_eq!(encode_le(value, 2), (value as u16).to_le_bytes().to_vec());
    }
}

#[test]
fn numbers_are_decoded_in_place() {
    let bytes: [u8; 6] = [9, 1, 2, 3, 4, 9];
    assert_eq!(decode_le(&bytes, 1, 4), 0x0403_0201);
    assert_eq!(decode_be(&bytes, 1, 4), 0x0102_0304);
    assert_eq!(decode_le(&bytes, 1, 0), 0);
    assert_eq!(decode_le(&[0xff; 8], 0, 8), u64::MAX);
    assert_eq!(decode_be(&[0xff; 8], 0, 8), u64::MAX);
}

#[test]
fn request_wraps_the_report() {
    let req = build_get_quote_req(&[0xaa, 0xbb, 0xcc]);
    assert_eq!(
        req,
        vec![
            1, 0, 1, 0, // version
            0, 0, 0, 0, // type
            27, 0, 0, 0, // size
            0, 0, 0, 0, // error code
            3, 0, 0, 0, // size of the report
            0, 0, 0, 0, // size of the ids
            0xaa, 0xbb, 0xcc,
        ]
    );
}

#[test]
fn request_for_a_real_report_has_its_sizes() {
    let report: Vec<u8> = vec![7; 1024];
    let req = build_get_quote_req(&report);
    assert_eq!(req.len(), 1048);
    assert_eq!(decode_le(&req, 8, 4), 1048);
    assert_eq!(decode_le(&req, 16, 4), 1024);
    assert_eq!(&req[24..], &report[..]);
}

#[test]
fn request_for_an_empty_report_is_only_a_header() {
    let req = build_get_quote_req(&[]);
    assert_eq!(req.len(), 24);
    assert_eq!(decode_le(&req, 8, 4), 24);
    assert_eq!(decode_le(&req, 16, 4), 0);
}

#[test]
fn different_reports_give_different_requests() {
    assert_ne!(build_get_quote_req(&[1, 2]), build_get_quote_req(&[1, 3]));
    assert_ne!(build_get_quote_req(&[1, 2]), build_get_quote_req(&[1, 2, 0]));
}

#[test]
fn quote_comes_out_of_a_response() {
    let resp = response(1, 0, &[], &[5, 6, 7]);
    assert_eq!(extract_quote_from_qgs_response(&resp), Some(&[5u8, 6, 7][..]));
}

#[test]
fn id_and_trailing_bytes_are_skipped() {
    let mut resp = response(1, 0, &[1, 2, 3, 4], &[5, 6, 7]);
    resp.extend_from_slice(&[8, 9]);
    assert_eq!(extract_quote_from_qgs_response(&resp), Some(&[5u8, 6, 7][..]));
}

#[test]
fn version_and_size_of_a_response_are_not_looked_at() {
    let mut resp = response(1, 0, &[], &[5]);
    resp[0] = 0x77;
    resp[2] = 0x77;
    resp[8] = 0x77;
    assert_eq!(extract_quote_from_qgs_response(&resp), Some(&[5u8][..]));
}

#[test]
fn empty_quote_is_a_quote() {
    let resp = response(1, 0, &[], &[]);
    assert_eq!(resp.len(), 24);
    assert_eq!(extract_quote_from_qgs_response(&resp), Some(&[][..]));
}

#[test]
fn short_response_is_refused() {
    let resp = response(1, 0, &[], &[]);
    assert_eq!(extract_quote_from_qgs_response(&resp[..23]), None);
    assert_eq!(extract_quote_from_qgs_response(&[]), None);
}

#[test]
fn response_of_another_type_is_refused() {
    assert_eq!(extract_quote_from_qgs_response(&response(0, 0, &[], &[5])), None);
    assert_eq!(extract_quote_from_qgs_response(&response(2, 0, &[], &[5])), None);
    assert_eq!(extract_quote_from_qgs_response(&response(0x101, 0, &[], &[5])), None);
}

#[test]
fn response_with_an_error_is_refused() {
    assert_eq!(extract_quote_from_qgs_response(&response(1, 1, &[], &[5])), None);
    assert_eq!(extract_quote_from_qgs_response(&response(1, 0x0100_0000, &[], &[5])), None);
}

#[test]
fn response_that_ends_before_its_quote_is_refused() {
    let resp = response(1, 0, &[1, 2], &[5, 6, 7]);
    assert_eq!(extract_quote_from_qgs_response(&resp[..resp.len() - 1]), None);
    let mut huge = response(1, 0, &[], &[5]);
    for i in 16..24 {
        huge[i] = 0xff;
    }
    assert_eq!(extract_quote_from_qgs_response(&huge), None);
}

#[test]
fn request_is_not_taken_for_a_response() {
    assert_eq!(extract_quote_from_qgs_response(&build_get_quote_req(&[1; 64])), None);
}

#[test]
fn refused_response_tells_its_type_and_error() {
    assert_eq!(
        check_response(&response(2, 0, &[], &[5])),
        Some(Unexpected { resp_type: 2, error_code: 0 })
    );
    assert_eq!(
        check_response(&response(1, 0x0102_0304, &[], &[5])),
        Some(Unexpected { resp_type: 1, error_code: 0x0102_0304 })
    );
    assert_eq!(check_response(&response(1, 0, &[], &[5])), None);
    assert_eq!(check_response(&response(2, 1, &[], &[])[..23]), None);
}

use tdx_qgs::complete::{write_quote_result, WriteState, WriteStep};
use tdx_qgs::guest::{MemAction, MemEvent};
use tdx_qgs::header::{
    QuoteHeader, TDX_VP_GET_QUOTE_ERROR, TDX_VP_GET_QUOTE_IN_FLIGHT,
    TDX_VP_GET_QUOTE_QGS_UNAVAILABLE, TDX_VP_GET_QUOTE_SUCCESS,
};
use tdx_qgs::progress::Progress;
use tdx_qgs::take::{take_in_message, TakeError, TakeState, TakeStep};

const GPA: u64 = 0x1000;

/// Memory from `GPA` on, and how many accesses it still serves.
struct Mem {
    bytes: Vec<u8>,
    serves: usize,
}

impl Mem {
    fn new(bytes: Vec<u8>) -> Mem {
        Mem { bytes, serves: 100 }
    }

    fn serve(&mut self, action: MemAction<Vec<u8>>) -> MemEvent<Vec<u8>> {
        if self.serves == 0 {
            return MemEvent::Failed;
        }
        self.serves -= 1;
        match action {
            MemAction::Read { gpa, len } => {
                let from: usize = (gpa - GPA) as usize;
                if from + len > self.bytes.len() {
                    return MemEvent::Failed;
                }
                MemEvent::Read(self.bytes[from..from + len].to_vec())
            }
            MemAction::Write { gpa, data } => {
                let from: usize = (gpa - GPA) as usize;
                if from + data.len() > self.bytes.len() {
                    return MemEvent::Failed;
                }
                self.bytes[from..from + data.len()].copy_from_slice(&data);
                MemEvent::Written
            }
        }
    }
}

fn buffer(version: u64, in_len: u32, size: usize) -> Vec<u8> {
    let mut bytes: Vec<u8> = Vec::new();
    bytes.extend_from_slice(&version.to_le_bytes());
    bytes.extend_from_slice(&0x1122_3344_5566_7788u64.to_le_bytes());
    bytes.extend_from_slice(&in_len.to_le_bytes());
    bytes.extend_from_slice(&0x99aa_bbccu32.to_le_bytes());
    while bytes.len() < size {
        bytes.push(bytes.len() as u8);
    }
    bytes
}

fn take(mem: &mut Mem, buf_size: u64) -> Result<Vec<u8>, TakeError> {
    let mut step: TakeStep<Vec<u8>> =
        take_in_message(TakeState::Start { gpa: GPA, buf_size }, MemEvent::Begin);
    loop {
        match step {
            Progress::Finished(result) => return result,
            Progress::Perform { action, state } => {
                let event = mem.serve(action);
                step = take_in_message(state, event);
            }
        }
    }
}

fn write(mem: &mut Mem, buf_size: u64, error_code: u64, quote: Option<Vec<u8>>) -> u32 {
    let mut step: WriteStep<Vec<u8>> = write_quote_result(
        WriteState::Start { gpa: GPA, buf_size, error_code, quote },
        MemEvent::Begin,
    );
    loop {
        match step {
            Progress::Finished(written) => return written,
            Progress::Perform { action, state } => {
                let event = mem.serve(action);
                step = write_quote_result(state, event);
            }
        }
    }
}

#[test]
fn header_is_laid_out_as_documented() {
    let header = QuoteHeader { structure_version: 1, error_code: 2, in_len: 3, out_len: 4 };
    let bytes = header.encode();
    assert_eq!(
        bytes,
        vec![1, 0, 0, 0, 0, 0, 0, 0, 2, 0, 0, 0, 0, 0, 0, 0, 3, 0, 0, 0, 4, 0, 0, 0]
    );
    assert_eq!(QuoteHeader::decode(&bytes), header);
}

#[test]
fn header_is_written_back_as_it_was_read() {
    let bytes = buffer(0x0102_0304_0506_0708, 0xfeed_beef, 24);
    assert_eq!(QuoteHeader::decode(&bytes).encode(), bytes);
}

#[test]
fn error_codes_have_their_values() {
    assert_eq!(TDX_VP_GET_QUOTE_SUCCESS, 0);
    assert_eq!(TDX_VP_GET_QUOTE_IN_FLIGHT, u64::MAX);
    assert_eq!(TDX_VP_GET_QUOTE_ERROR, 1 << 63);
    assert_eq!(TDX_VP_GET_QUOTE_QGS_UNAVAILABLE, (1 << 63) + 1);
}

#[test]
fn request_is_taken_and_marked() {
    let before = buffer(1, 5, 64);
    let mut mem = Mem::new(before.clone());
    assert_eq!(take(&mut mem, 64), Ok(vec![24, 25, 26, 27, 28]));
    let mut expected = before;
    for i in 8..16 {
        expected[i] = 0xff;
    }
    assert_eq!(mem.bytes, expected);
}

#[test]
fn request_may_fill_the_buffer() {
    let mut mem = Mem::new(buffer(1, 40, 64));
    assert_eq!(take(&mut mem, 64).map(|m| m.len()), Ok(40));
}

#[test]
fn request_beyond_the_buffer_is_refused() {
    let before = buffer(1, 41, 128);
    let mut mem = Mem::new(before.clone());
    assert_eq!(take(&mut mem, 64), Err(TakeError::InvalidLength(41)));
    assert_eq!(mem.bytes, before);
}

#[test]
fn empty_request_is_refused() {
    let before = buffer(1, 0, 64);
    let mut mem = Mem::new(before.clone());
    assert_eq!(take(&mut mem, 64), Err(TakeError::InvalidLength(0)));
    assert_eq!(mem.bytes, before);
}

#[test]
fn other_versions_are_refused() {
    let versions: [u64; 3] = [0, 2, 1 << 32];
    for version in versions {
        let before = buffer(version, 5, 64);
        let mut mem = Mem::new(before.clone());
        assert_eq!(take(&mut mem, 64), Err(TakeError::UnexpectedVersion(version)));
        assert_eq!(mem.bytes, before);
    }
}

#[test]
fn buffer_without_room_for_a_header_is_refused_unread() {
    let mut mem = Mem::new(buffer(1, 5, 64));
    mem.serves = 0;
    assert_eq!(take(&mut mem, 23), Err(TakeError::BufferTooSmall));
    assert_eq!(take(&mut mem, 0), Err(TakeError::BufferTooSmall));
    assert_eq!(take(&mut mem, 24), Err(TakeError::HeaderUnreadable));
}

#[test]
fn buffer_of_a_header_alone_holds_no_request() {
    let mut mem = Mem::new(buffer(1, 1, 64));
    assert_eq!(take(&mut mem, 24), Err(TakeError::InvalidLength(1)));
}

#[test]
fn failing_accesses_are_told_apart() {
    let errors: [TakeError; 3] =
        [TakeError::HeaderUnreadable, TakeError::MessageUnreadable, TakeError::MarkFailed];
    for serves in 0usize..3 {
        let before = buffer(1, 5, 64);
        let mut mem = Mem::new(before.clone());
        mem.serves = serves;
        assert_eq!(take(&mut mem, 64), Err(errors[serves]));
        assert_eq!(mem.bytes, before);
    }
}

#[test]
fn unreadable_header_ends_a_request_at_the_top_of_memory() {
    let state = TakeState::Start { gpa: u64::MAX - 3, buf_size: 64 };
    let step: TakeStep<Vec<u8>> = take_in_message(state, MemEvent::Begin);
    let next = match step {
        Progress::Perform { action: MemAction::Read { gpa, len }, state } => {
            assert_eq!((gpa, len), (u64::MAX - 3, 24));
            state
        }
        _ => panic!("a read of the header"),
    };
    assert!(matches!(
        take_in_message(next, MemEvent::Failed),
        Progress::Finished(Err(TakeError::HeaderUnreadable))
    ));
}

#[test]
fn quote_is_written_behind_the_header() {
    let before = buffer(1, 5, 64);
    let mut mem = Mem::new(before.clone());
    let written = write(&mut mem, 64, TDX_VP_GET_QUOTE_SUCCESS, Some(vec![0xe0, 0xe1, 0xe2]));
    assert_eq!(written, 3);
    let mut expected = before;
    expected[8..16].copy_from_slice(&[0; 8]);
    expected[20..24].copy_from_slice(&[3, 0, 0, 0]);
    expected[24..27].copy_from_slice(&[0xe0, 0xe1, 0xe2]);
    assert_eq!(mem.bytes, expected);
}

#[test]
fn error_changes_the_header_only() {
    let before = buffer(1, 5, 64);
    let mut mem = Mem::new(before.clone());
    assert_eq!(write(&mut mem, 64, TDX_VP_GET_QUOTE_QGS_UNAVAILABLE, None), 0);
    let mut expected = before;
    expected[8..16].copy_from_slice(&[1, 0, 0, 0, 0, 0, 0, 0x80]);
    expected[20..24].copy_from_slice(&[0; 4]);
    assert_eq!(mem.bytes, expected);
}

#[test]
fn long_quote_is_cut_to_the_buffer() {
    let before = buffer(1, 5, 64);
    let mut mem = Mem::new(before.clone());
    assert_eq!(write(&mut mem, 30, TDX_VP_GET_QUOTE_SUCCESS, Some(vec![0xee; 10])), 6);
    let header = QuoteHeader::decode(&mem.bytes);
    assert_eq!(header.out_len, 6);
    assert_eq!(&mem.bytes[24..30], &[0xee; 6]);
    assert_eq!(&mem.bytes[30..], &before[30..]);
}

#[test]
fn buffer_smaller_than_its_header_takes_no_quote() {
    let before = buffer(1, 5, 64);
    let mut mem = Mem::new(before.clone());
    assert_eq!(write(&mut mem, 8, TDX_VP_GET_QUOTE_SUCCESS, Some(vec![0xee; 10])), 0);
    assert_eq!(QuoteHeader::decode(&mem.bytes).out_len, 0);
    assert_eq!(&mem.bytes[24..], &before[24..]);
}

#[test]
fn failing_access_writes_nothing_more() {
    for serves in 0usize..3 {
        let before = buffer(1, 5, 64);
        let mut mem = Mem::new(before.clone());
        mem.serves = serves;
        assert_eq!(write(&mut mem, 64, TDX_VP_GET_QUOTE_SUCCESS, Some(vec![0xee; 10])), 0);
        assert_eq!(QuoteHeader::decode(&mem.bytes).out_len == 10, serves == 2);
        assert_eq!(&mem.bytes[24..], &before[24..]);
    }
}

#[test]
fn out_len_is_what_was_written() {
    for buf_size in 0usize..64 {
        let before = buffer(1, 5, 64);
        let mut mem = Mem::new(before.clone());
        let quote: Vec<u8> = (100..120).collect();
        let written =
            write(&mut mem, buf_size as u64, TDX_VP_GET_QUOTE_SUCCESS, Some(quote.clone()));
        let len: usize = written as usize;
        assert_eq!(len, buf_size.saturating_sub(24).min(20));
        assert_eq!(QuoteHeader::decode(&mem.bytes).out_len, written);
        assert_eq!(&mem.bytes[24..24 + len], &quote[..len]);
        assert_eq!(&mem.bytes[24 + len..], &before[24 + len..]);
    }
}

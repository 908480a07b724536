use tdx_qgs::exchange::{QgsAction, QgsError, QgsEvent};
use tdx_qgs::guest::{MemAction, MemEvent};
use tdx_qgs::header::{
    QuoteHeader, TDX_VP_GET_QUOTE_ERROR, TDX_VP_GET_QUOTE_IN_FLIGHT,
    TDX_VP_GET_QUOTE_QGS_UNAVAILABLE, TDX_VP_GET_QUOTE_SUCCESS,
};
use tdx_qgs::message::{build_get_quote_req, Unexpected};
use tdx_qgs::progress::Progress;
use tdx_qgs::take::{take_in_message, TakeState, TakeStep};
use tdx_qgs::worker::{
    answer_request, spawn_get_quote_worker, Answer, Failure, WorkerAction, WorkerEvent,
    WorkerReport, WorkerState, WorkerStep,
};

const GPA: u64 = 0x2000;

struct World {
    mem: Vec<u8>,
    incoming: Vec<u8>,
    sent: Vec<u8>,
    fails_after: Option<usize>,
    triggered: Vec<u32>,
    log: Vec<&'static str>,
}

impl World {
    fn new(mem: Vec<u8>, incoming: Vec<u8>) -> World {
        World {
            mem,
            incoming,
            sent: Vec::new(),
            fails_after: None,
            triggered: Vec::new(),
            log: Vec::new(),
        }
    }

    fn memory(&mut self, action: MemAction<Vec<u8>>) -> MemEvent<Vec<u8>> {
        match action {
            MemAction::Read { gpa, len } => {
                self.log.push("read");
                let from: usize = (gpa - GPA) as usize;
                if from + len > self.mem.len() {
                    return MemEvent::Failed;
                }
                MemEvent::Read(self.mem[from..from + len].to_vec())
            }
            MemAction::Write { gpa, data } => {
                self.log.push("write");
                let from: usize = (gpa - GPA) as usize;
                if from + data.len() > self.mem.len() {
                    return MemEvent::Failed;
                }
                self.mem[from..from + data.len()].copy_from_slice(&data);
                MemEvent::Written
            }
        }
    }

    fn transmit(&mut self, action: QgsAction<Vec<u8>>) -> QgsEvent<Vec<u8>, &'static str> {
        self.log.push(match action {
            QgsAction::Connect => "connect",
            QgsAction::Send(_) => "send",
            QgsAction::Receive { .. } => "receive",
        });
        match self.fails_after {
            None => {}
            Some(0) => return QgsEvent::Failed("refused"),
            Some(lasts) => self.fails_after = Some(lasts - 1),
        }
        match action {
            QgsAction::Connect => QgsEvent::Connected,
            QgsAction::Send(data) => {
                self.sent.extend_from_slice(&data);
                QgsEvent::Sent
            }
            QgsAction::Receive { max } => {
                let count: usize = max.min(self.incoming.len());
                QgsEvent::Received(self.incoming.drain(..count).collect())
            }
        }
    }

    fn act(&mut self, action: WorkerAction<Vec<u8>>) -> WorkerEvent<Vec<u8>, &'static str> {
        match action {
            WorkerAction::Qgs(action) => WorkerEvent::Qgs(self.transmit(action)),
            WorkerAction::Memory(action) => WorkerEvent::Memory(self.memory(action)),
            WorkerAction::Trigger(index) => {
                self.log.push("trigger");
                self.triggered.push(index);
                WorkerEvent::Triggered
            }
        }
    }
}

fn run(
    world: &mut World,
    buf_size: u64,
    in_message: Vec<u8>,
    notify: bool,
) -> WorkerReport<&'static str> {
    let mut step: WorkerStep<Vec<u8>, &'static str> = spawn_get_quote_worker(
        WorkerState::Start { gpa: GPA, buf_size, in_message, notify },
        WorkerEvent::Begin,
    );
    loop {
        match step {
            Progress::Finished(report) => return report,
            Progress::Perform { action, state } => {
                let event = world.act(action);
                step = spawn_get_quote_worker(state, event);
            }
        }
    }
}

fn take(world: &mut World, buf_size: u64) -> Option<Vec<u8>> {
    let mut step: TakeStep<Vec<u8>> =
        take_in_message(TakeState::Start { gpa: GPA, buf_size }, MemEvent::Begin);
    loop {
        match step {
            Progress::Finished(result) => return result.ok(),
            Progress::Perform { action, state } => {
                let event = world.memory(action);
                step = take_in_message(state, event);
            }
        }
    }
}

fn request(report: &[u8], size: usize) -> Vec<u8> {
    let mut mem = QuoteHeader {
        structure_version: 1,
        error_code: 0,
        in_len: report.len() as u32,
        out_len: 0,
    }
    .encode();
    mem.extend_from_slice(report);
    mem.resize(size, 0x55);
    mem
}

fn response(kind: u8, error_code: u8, quote: &[u8]) -> Vec<u8> {
    let mut body: Vec<u8> = vec![1, 0, 1, 0, kind, 0, 0, 0];
    body.extend_from_slice(&((24 + quote.len()) as u32).to_le_bytes());
    body.extend_from_slice(&[error_code, 0, 0, 0, 0, 0, 0, 0]);
    body.extend_from_slice(&(quote.len() as u32).to_le_bytes());
    body.extend_from_slice(quote);
    let mut bytes: Vec<u8> = (body.len() as u32).to_be_bytes().to_vec();
    bytes.extend_from_slice(&body);
    bytes
}

#[test]
fn guest_gets_its_quote() {
    let report: Vec<u8> = (0..100).collect();
    let quote: Vec<u8> = vec![0xab; 200];
    let mut world = World::new(request(&report, 1024), response(1, 0, &quote));
    let in_message = take(&mut world, 1024).unwrap();
    assert_eq!(in_message, report);
    assert_eq!(QuoteHeader::decode(&world.mem).error_code, TDX_VP_GET_QUOTE_IN_FLIGHT);
    let done = run(&mut world, 1024, in_message, true);
    assert_eq!((done.error_code, done.out_len), (TDX_VP_GET_QUOTE_SUCCESS, 200));
    assert!(done.failure.is_none());
    assert_eq!(
        QuoteHeader::decode(&world.mem),
        QuoteHeader { structure_version: 1, error_code: 0, in_len: 100, out_len: 200 }
    );
    assert_eq!(&world.mem[24..224], &quote[..]);
    assert_eq!(&world.mem[224..], &[0x55; 800][..]);
    assert_eq!(world.triggered, vec![0]);
    let asked = build_get_quote_req(&report);
    assert_eq!(&world.sent[..4], &(asked.len() as u32).to_be_bytes());
    assert_eq!(&world.sent[4..], &asked[..]);
}

#[test]
fn actions_come_in_their_order() {
    let mut world = World::new(request(&[1], 64), response(1, 0, &[2]));
    run(&mut world, 64, vec![1], true);
    assert_eq!(
        world.log,
        vec![
            "connect", "send", "send", "receive", "receive", "read", "write", "write", "trigger"
        ]
    );
}

#[test]
fn nobody_is_told_without_an_interrupt() {
    let mut world = World::new(request(&[1], 64), response(1, 0, &[2]));
    let done = run(&mut world, 64, vec![1], false);
    assert_eq!(done.out_len, 1);
    assert!(world.triggered.is_empty());
}

#[test]
fn unreachable_service_is_unavailable() {
    let mut world = World::new(request(&[1, 2, 3], 64), Vec::new());
    world.fails_after = Some(0);
    let done = run(&mut world, 64, vec![1, 2, 3], true);
    assert_eq!((done.error_code, done.out_len), (TDX_VP_GET_QUOTE_QGS_UNAVAILABLE, 0));
    assert!(matches!(done.failure, Some(Failure::NoResponse(QgsError::Transport("refused")))));
    let header = QuoteHeader::decode(&world.mem);
    assert_eq!(header.error_code, TDX_VP_GET_QUOTE_QGS_UNAVAILABLE);
    assert_eq!((header.in_len, header.out_len), (3, 0));
    assert_eq!(world.triggered, vec![0]);
}

#[test]
fn closed_connection_is_unavailable() {
    let mut world = World::new(request(&[1], 64), vec![0, 0, 0, 9, 1]);
    let done = run(&mut world, 64, vec![1], true);
    assert_eq!(done.error_code, TDX_VP_GET_QUOTE_QGS_UNAVAILABLE);
    assert!(matches!(done.failure, Some(Failure::NoResponse(QgsError::ConnectionClosed))));
}

#[test]
fn response_without_a_quote_is_an_error() {
    let mut world = World::new(request(&[1], 64), response(1, 7, &[2]));
    let done = run(&mut world, 64, vec![1], true);
    assert_eq!((done.error_code, done.out_len), (TDX_VP_GET_QUOTE_ERROR, 0));
    assert!(matches!(
        done.failure,
        Some(Failure::Unexpected(Unexpected { resp_type: 1, error_code: 7 }))
    ));
    assert_eq!(QuoteHeader::decode(&world.mem).error_code, TDX_VP_GET_QUOTE_ERROR);
    assert_eq!(world.triggered, vec![0]);
}

#[test]
fn interrupt_comes_even_where_the_buffer_is_gone() {
    let mut world = World::new(Vec::new(), response(1, 0, &[2]));
    let done = run(&mut world, 64, vec![1], true);
    assert_eq!((done.error_code, done.out_len), (TDX_VP_GET_QUOTE_SUCCESS, 0));
    assert_eq!(world.triggered, vec![0]);
}

#[test]
fn answer_goes_by_the_outcome_of_the_exchange() {
    let unreached: Answer<Vec<u8>, u8> = answer_request(Err(QgsError::Transport(9)));
    assert_eq!(unreached.error_code, TDX_VP_GET_QUOTE_QGS_UNAVAILABLE);
    assert!(unreached.quote.is_none());
    assert!(matches!(unreached.failure, Some(Failure::NoResponse(QgsError::Transport(9)))));
    let garbled: Answer<Vec<u8>, u8> = answer_request(Ok(vec![1, 2, 3]));
    assert_eq!(garbled.error_code, TDX_VP_GET_QUOTE_ERROR);
    assert!(garbled.quote.is_none());
    assert!(matches!(garbled.failure, Some(Failure::Malformed)));
    let other: Answer<Vec<u8>, u8> = answer_request(Ok(response(3, 0, &[4, 5])[4..].to_vec()));
    assert_eq!(other.error_code, TDX_VP_GET_QUOTE_ERROR);
    assert!(matches!(
        other.failure,
        Some(Failure::Unexpected(Unexpected { resp_type: 3, error_code: 0 }))
    ));
    let good: Answer<Vec<u8>, u8> = answer_request(Ok(response(1, 0, &[4, 5])[4..].to_vec()));
    assert_eq!(good.error_code, TDX_VP_GET_QUOTE_SUCCESS);
    assert_eq!(good.quote, Some(vec![4, 5]));
    assert!(good.failure.is_none());
}

#[test]
fn quote_that_does_not_fit_is_cut_and_its_length_told() {
    let mut world = World::new(request(&[1], 40), response(1, 0, &[0xab; 100]));
    let done = run(&mut world, 40, vec![1], true);
    assert_eq!((done.error_code, done.out_len), (TDX_VP_GET_QUOTE_SUCCESS, 16));
    assert_eq!(QuoteHeader::decode(&world.mem).out_len, 16);
    assert_eq!(&world.mem[24..], &[0xab; 16]);
}

#[test]
fn interrupt_comes_once_and_last_wherever_things_fail() {
    for size in [0usize, 24, 26, 64] {
        for fails_after in [None, Some(0), Some(1), Some(2), Some(3), Some(4)] {
            let mut world = World::new(request(&[1], 64), response(1, 0, &[2; 8]));
            world.mem.truncate(size);
            world.fails_after = fails_after;
            run(&mut world, 64, vec![1], true);
            assert_eq!(world.triggered, vec![0]);
            assert_eq!(world.log.last(), Some(&"trigger"));
        }
    }
}

#[test]
fn guest_is_told_wherever_the_connection_fails() {
    let asked = build_get_quote_req(&[1, 2, 3]);
    let mut framed: Vec<u8> = (asked.len() as u32).to_be_bytes().to_vec();
    framed.extend_from_slice(&asked);
    for (lasts, sent) in [(0, 0), (1, 0), (2, 4), (3, framed.len()), (4, framed.len())] {
        for notify in [false, true] {
            let mut world = World::new(request(&[1, 2, 3], 64), response(1, 0, &[2; 8]));
            world.fails_after = Some(lasts);
            let in_message = take(&mut world, 64).unwrap();
            let done = run(&mut world, 64, in_message, notify);
            assert_eq!((done.error_code, done.out_len), (TDX_VP_GET_QUOTE_QGS_UNAVAILABLE, 0));
            assert!(matches!(
                done.failure,
                Some(Failure::NoResponse(QgsError::Transport("refused")))
            ));
            assert_eq!(
                QuoteHeader::decode(&world.mem),
                QuoteHeader {
                    structure_version: 1,
                    error_code: TDX_VP_GET_QUOTE_QGS_UNAVAILABLE,
                    in_len: 3,
                    out_len: 0,
                }
            );
            assert_eq!(&world.mem[24..], &request(&[1, 2, 3], 64)[24..]);
            assert_eq!(world.sent, &framed[..sent]);
            assert_eq!(world.triggered, if notify { vec![0] } else { vec![] });
        }
    }
}

#[test]
fn connection_that_fails_too_late_makes_no_difference() {
    let mut world = World::new(request(&[1, 2, 3], 64), response(1, 0, &[2; 8]));
    world.fails_after = Some(5);
    let in_message = take(&mut world, 64).unwrap();
    let done = run(&mut world, 64, in_message, true);
    assert_eq!((done.error_code, done.out_len), (TDX_VP_GET_QUOTE_SUCCESS, 8));
    assert_eq!(&world.mem[24..32], &[2; 8]);
    assert_eq!(world.triggered, vec![0]);
}

use tdx_qgs::exchange::{
    qgs_send_receive, read_exact_bytes, ExchangeState, ExchangeStep, QgsAction, QgsError,
    QgsEvent, ReadState, ReadStep, QGS_MAX_RESPONSE_SIZE,
};
use tdx_qgs::progress::Progress;

/// A connection that hands out `incoming` in pieces of at most `piece` bytes, and fails
/// when it was asked `lasts` times.
struct Peer {
    incoming: Vec<u8>,
    piece: usize,
    sent: Vec<u8>,
    lasts: usize,
}

impl Peer {
    fn new(incoming: Vec<u8>, piece: usize) -> Peer {
        Peer { incoming, piece, sent: Vec::new(), lasts: usize::MAX }
    }

    fn serve(&mut self, action: QgsAction<Vec<u8>>) -> QgsEvent<Vec<u8>, &'static str> {
        if self.lasts == 0 {
            return QgsEvent::Failed("broken pipe");
        }
        self.lasts -= 1;
        match action {
            QgsAction::Connect => QgsEvent::Connected,
            QgsAction::Send(data) => {
                self.sent.extend_from_slice(&data);
                QgsEvent::Sent
            }
            QgsAction::Receive { max } => {
                let count: usize = max.min(self.piece).min(self.incoming.len());
                QgsEvent::Received(self.incoming.drain(..count).collect())
            }
        }
    }
}

fn exchange(peer: &mut Peer, msg: Vec<u8>) -> Result<Vec<u8>, QgsError<&'static str>> {
    let mut step: ExchangeStep<Vec<u8>, &'static str> =
        qgs_send_receive(ExchangeState::Start { msg }, QgsEvent::Begin);
    loop {
        match step {
            Progress::Finished(result) => return result,
            Progress::Perform { action, state } => {
                let event = peer.serve(action);
                step = qgs_send_receive(state, event);
            }
        }
    }
}

fn frame(body: &[u8]) -> Vec<u8> {
    let mut bytes: Vec<u8> = (body.len() as u32).to_be_bytes().to_vec();
    bytes.extend_from_slice(body);
    bytes
}

fn read(peer: &mut Peer, wanted: usize) -> Result<Vec<u8>, QgsError<&'static str>> {
    let nothing: ReadState<Vec<u8>> = ReadState { received: Vec::new(), wanted };
    let mut step: ReadStep<Vec<u8>, &'static str> = read_exact_bytes(nothing, QgsEvent::Begin);
    loop {
        match step {
            Progress::Finished(result) => return result,
            Progress::Perform { action, state } => {
                let event = peer.serve(QgsAction::Receive { max: action });
                step = read_exact_bytes(state, event);
            }
        }
    }
}

#[test]
fn reading_takes_exactly_what_is_wanted() {
    for piece in 1usize..8 {
        let mut peer = Peer::new(vec![1, 2, 3, 4, 5, 6, 7], piece);
        assert_eq!(read(&mut peer, 5).unwrap(), vec![1, 2, 3, 4, 5]);
        assert_eq!(peer.incoming, vec![6, 7]);
    }
}

#[test]
fn reading_nothing_asks_for_nothing() {
    let mut peer = Peer::new(vec![1], 1);
    peer.lasts = 0;
    assert_eq!(read(&mut peer, 0).unwrap(), Vec::<u8>::new());
}

#[test]
fn reading_past_the_end_finds_the_connection_closed() {
    let mut peer = Peer::new(vec![1, 2, 3], 2);
    assert!(matches!(read(&mut peer, 4), Err(QgsError::ConnectionClosed)));
}

#[test]
fn reading_reports_a_transport_error() {
    let mut peer = Peer::new(vec![1, 2, 3], 1);
    peer.lasts = 2;
    assert!(matches!(read(&mut peer, 3), Err(QgsError::Transport("broken pipe"))));
}

#[test]
fn piece_that_is_too_long_is_cut() {
    let state: ReadState<Vec<u8>> = ReadState { received: vec![1, 2], wanted: 4 };
    let event: QgsEvent<Vec<u8>, &'static str> = QgsEvent::Received(vec![3, 4, 5, 6]);
    match read_exact_bytes(state, event) {
        Progress::Finished(Ok(bytes)) => assert_eq!(bytes, vec![1, 2, 3, 4]),
        _ => panic!("all that was wanted"),
    }
}

#[test]
fn exchange_frames_the_message_and_reads_the_response() {
    for piece in 1usize..12 {
        let mut incoming = frame(&[10, 20, 30, 40, 50]);
        incoming.push(99);
        let mut peer = Peer::new(incoming, piece);
        assert_eq!(exchange(&mut peer, vec![7; 300]).unwrap(), vec![10, 20, 30, 40, 50]);
        let mut expected: Vec<u8> = vec![0, 0, 1, 44];
        expected.extend_from_slice(&[7; 300]);
        assert_eq!(peer.sent, expected);
        assert_eq!(peer.incoming, vec![99]);
    }
}

#[test]
fn exchange_connects_first_and_sends_the_length_apart() {
    let step: ExchangeStep<Vec<u8>, &'static str> =
        qgs_send_receive(ExchangeState::Start { msg: vec![1, 2] }, QgsEvent::Begin);
    let connect = match step {
        Progress::Perform { action: QgsAction::Connect, state } => state,
        _ => panic!("a connection"),
    };
    let step: ExchangeStep<Vec<u8>, &'static str> =
        qgs_send_receive(connect, QgsEvent::Connected);
    let length = match step {
        Progress::Perform { action: QgsAction::Send(data), state } => {
            assert_eq!(data, vec![0, 0, 0, 2]);
            state
        }
        _ => panic!("the length"),
    };
    let step: ExchangeStep<Vec<u8>, &'static str> = qgs_send_receive(length, QgsEvent::Sent);
    let message = match step {
        Progress::Perform { action: QgsAction::Send(data), state } => {
            assert_eq!(data, vec![1, 2]);
            state
        }
        _ => panic!("the message"),
    };
    let step: ExchangeStep<Vec<u8>, &'static str> = qgs_send_receive(message, QgsEvent::Sent);
    assert!(matches!(
        step,
        Progress::Perform { action: QgsAction::Receive { max: 4 }, .. }
    ));
}

#[test]
fn empty_response_is_refused() {
    let mut peer = Peer::new(vec![0, 0, 0, 0, 1], 3);
    assert!(matches!(exchange(&mut peer, vec![1]), Err(QgsError::ResponseSize(0))));
}

#[test]
fn response_of_the_greatest_size_is_read() {
    let body: Vec<u8> = vec![3; QGS_MAX_RESPONSE_SIZE];
    assert_eq!(body.len(), 256 * 1024);
    let mut peer = Peer::new(frame(&body), 65536);
    assert_eq!(exchange(&mut peer, vec![1]).unwrap(), body);
}

#[test]
fn longer_response_is_refused_unread() {
    let mut incoming: Vec<u8> = vec![0, 4, 0, 1];
    incoming.extend_from_slice(&[3; 10]);
    let mut peer = Peer::new(incoming, 100);
    assert!(matches!(exchange(&mut peer, vec![1]), Err(QgsError::ResponseSize(0x4_0001))));
    assert_eq!(peer.incoming.len(), 10);
    let mut peer = Peer::new(vec![0xff; 4], 100);
    assert!(matches!(exchange(&mut peer, vec![1]), Err(QgsError::ResponseSize(0xffff_ffff))));
}

#[test]
fn cut_off_response_finds_the_connection_closed() {
    let whole = frame(&[1, 2, 3]);
    for end in 0usize..whole.len() {
        let mut peer = Peer::new(whole[..end].to_vec(), 2);
        assert!(matches!(exchange(&mut peer, vec![1]), Err(QgsError::ConnectionClosed)));
    }
}

#[test]
fn transport_error_ends_the_exchange_wherever_it_comes() {
    for lasts in 0usize..5 {
        let mut peer = Peer::new(frame(&[1, 2, 3]), 100);
        peer.lasts = lasts;
        assert!(matches!(
            exchange(&mut peer, vec![1]),
            Err(QgsError::Transport("broken pipe"))
        ));
    }
}

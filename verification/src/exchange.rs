//! One exchange of messages with the Quote Generation Service (QGS).
//!
//! A message goes over the connection behind its length, in four bytes, most
//! significant first.
use vstd::prelude::*;
use vstd::slice::slice_subrange;
use crate::bytes;
use crate::bytes::{append_bytes, decode_be, encode_be};
use crate::progress::Progress;

verus! {

/// The size of the length in front of a message.
pub const QGS_MSG_FRAMING_HEADER_SIZE: usize = 4;

/// The longest response that is read: 256 KiB.
pub const QGS_MAX_RESPONSE_SIZE: usize = 0x4_0000;

/// What the connection has to do. `B` is a buffer: `Vec<u8>`, or its contents.
#[derive(Debug)]
pub enum QgsAction<B> {
    /// Connect to the service.
    Connect,
    /// Send all of these bytes.
    Send(B),
    /// Receive some bytes, at most `max`.
    Receive { max: usize },
}

/// What happened on the connection. `E` is an error of the transport.
#[derive(Debug)]
pub enum QgsEvent<B, E> {
    /// Nothing was asked for yet.
    Begin,
    /// The connection stands.
    Connected,
    /// All bytes were sent.
    Sent,
    /// These bytes came in; none at all where the connection was closed.
    Received(B),
    /// The action failed.
    Failed(E),
}

/// Why there is no response.
#[derive(Debug)]
pub enum QgsError<E> {
    /// The transport failed.
    Transport(E),
    /// The connection was closed before the response was complete.
    ConnectionClosed,
    /// A response of this size was announced, which is zero or too much.
    ResponseSize(u64),
}

/// The bytes received so far, of `wanted` bytes.
#[derive(Debug)]
pub struct ReadState<B> {
    pub received: B,
    pub wanted: usize,
}

/// How many bytes to receive next at most, or the bytes that were wanted.
pub type ReadStep<B, E> = Progress<ReadState<B>, usize, Result<B, QgsError<E>>>;

/// How far an exchange has come.
#[derive(Debug)]
pub enum ExchangeState<B> {
    /// Nothing was done yet.
    Start { msg: B },
    /// The connection is being made.
    Connect { msg: B },
    /// The length of the message is being sent.
    SendLength { msg: B },
    /// The message is being sent.
    SendMessage,
    /// The length of the response is being received.
    ReceiveLength(ReadState<B>),
    /// The response is being received.
    ReceiveResponse(ReadState<B>),
}

/// The next action on the connection, or the response.
pub type ExchangeStep<B, E> = Progress<ExchangeState<B>, QgsAction<B>, Result<B, QgsError<E>>>;

impl View for QgsAction<Vec<u8>> {
    type V = QgsAction<Seq<u8>>;

    open spec fn view(&self) -> QgsAction<Seq<u8>> {
        match *self {
            QgsAction::Connect => QgsAction::Connect,
            QgsAction::Send(data) => QgsAction::Send(data@),
            QgsAction::Receive { max } => QgsAction::Receive { max },
        }
    }
}

impl<E> View for QgsEvent<Vec<u8>, E> {
    type V = QgsEvent<Seq<u8>, E>;

    open spec fn view(&self) -> QgsEvent<Seq<u8>, E> {
        match *self {
            QgsEvent::Begin => QgsEvent::Begin,
            QgsEvent::Connected => QgsEvent::Connected,
            QgsEvent::Sent => QgsEvent::Sent,
            QgsEvent::Received(data) => QgsEvent::Received(data@),
            QgsEvent::Failed(error) => QgsEvent::Failed(error),
        }
    }
}

impl View for ReadState<Vec<u8>> {
    type V = ReadState<Seq<u8>>;

    open spec fn view(&self) -> ReadState<Seq<u8>> {
        ReadState { received: self.received@, wanted: self.wanted }
    }
}

impl View for ExchangeState<Vec<u8>> {
    type V = ExchangeState<Seq<u8>>;

    open spec fn view(&self) -> ExchangeState<Seq<u8>> {
        match *self {
            ExchangeState::Start { msg } => ExchangeState::Start { msg: msg@ },
            ExchangeState::Connect { msg } => ExchangeState::Connect { msg: msg@ },
            ExchangeState::SendLength { msg } => ExchangeState::SendLength { msg: msg@ },
            ExchangeState::SendMessage => ExchangeState::SendMessage,
            ExchangeState::ReceiveLength(reading) => ExchangeState::ReceiveLength(reading@),
            ExchangeState::ReceiveResponse(reading) => ExchangeState::ReceiveResponse(reading@),
        }
    }
}

/// The contents of a response.
pub open spec fn response<E>(result: Result<Vec<u8>, QgsError<E>>) -> Result<
    Seq<u8>,
    QgsError<E>,
> {
    match result {
        Ok(data) => Ok(data@),
        Err(error) => Err(error),
    }
}

impl<E> View for ReadStep<Vec<u8>, E> {
    type V = ReadStep<Seq<u8>, E>;

    open spec fn view(&self) -> ReadStep<Seq<u8>, E> {
        match *self {
            Progress::Perform { action, state } => Progress::Perform { action, state: state@ },
            Progress::Finished(result) => Progress::Finished(response(result)),
        }
    }
}

impl<E> View for ExchangeStep<Vec<u8>, E> {
    type V = ExchangeStep<Seq<u8>, E>;

    open spec fn view(&self) -> ExchangeStep<Seq<u8>, E> {
        match *self {
            Progress::Perform { action, state } => Progress::Perform {
                action: action@,
                state: state@,
            },
            Progress::Finished(result) => Progress::Finished(response(result)),
        }
    }
}

/// Whether `event` can come to a reading that is under way.
pub open spec fn read_accepts<E>(state: ReadState<Seq<u8>>, event: QgsEvent<Seq<u8>, E>) -> bool {
    &&& state.received.len() <= state.wanted
    &&& event is Begin || event is Received || event is Failed
}

/// The first `wanted` bytes of `data`, or all of it.
pub open spec fn at_most(data: Seq<u8>, wanted: nat) -> Seq<u8> {
    if data.len() <= wanted {
        data
    } else {
        data.take(wanted as int)
    }
}

/// What a reading does with the bytes that it has: it wants the rest, or is done.
pub open spec fn read_on<E>(received: Seq<u8>, wanted: usize) -> ReadStep<Seq<u8>, E> {
    if received.len() < wanted {
        Progress::Perform {
            action: (wanted - received.len()) as usize,
            state: ReadState { received, wanted },
        }
    } else {
        Progress::Finished(Ok(received))
    }
}

/// What a reading does next.
pub open spec fn read_next<E>(state: ReadState<Seq<u8>>, event: QgsEvent<Seq<u8>, E>) -> ReadStep<
    Seq<u8>,
    E,
> {
    match event {
        QgsEvent::Received(data) => if data.len() == 0 {
            Progress::Finished(Err(QgsError::ConnectionClosed))
        } else {
            read_on(at_most(state.received + data, state.wanted as nat), state.wanted)
        },
        QgsEvent::Failed(error) => Progress::Finished(Err(QgsError::Transport(error))),
        _ => read_on(state.received, state.wanted),
    }
}

/// Reads exactly `wanted` bytes, in as many pieces as they come in.
///
/// Called first with an empty `ReadState` and `QgsEvent::Begin`, then with each state
/// that it returns and what came in.
pub fn read_exact_bytes<E>(state: ReadState<Vec<u8>>, event: QgsEvent<Vec<u8>, E>) -> (step:
    ReadStep<Vec<u8>, E>)
    requires
        read_accepts(state@, event@),
    ensures
        step@ == read_next(state@, event@),
{
    let wanted: usize = state.wanted;
    let mut received: Vec<u8> = state.received;
    match event {
        QgsEvent::Received(data) => {
            if data.len() == 0 {
                return Progress::Finished(Err(QgsError::ConnectionClosed));
            }
            let missing: usize = wanted - received.len();
            let ghost before = received@;
            if data.len() <= missing {
                append_bytes(&mut received, data.as_slice());
            } else {
                append_bytes(&mut received, slice_subrange(data.as_slice(), 0, missing));
                assert(received@ =~= (before + data@).take(wanted as int));
            }
        },
        QgsEvent::Failed(error) => {
            return Progress::Finished(Err(QgsError::Transport(error)));
        },
        _ => {},
    }
    if received.len() < wanted {
        Progress::Perform {
            action: wanted - received.len(),
            state: ReadState { received, wanted },
        }
    } else {
        Progress::Finished(Ok(received))
    }
}

/// Whether `event` is one that the exchange waits for.
pub open spec fn exchange_accepts<E>(
    state: ExchangeState<Seq<u8>>,
    event: QgsEvent<Seq<u8>, E>,
) -> bool {
    match state {
        ExchangeState::Start { .. } => event is Begin,
        ExchangeState::Connect { .. } => event is Connected || event is Failed,
        ExchangeState::SendLength { .. } => event is Sent || event is Failed,
        ExchangeState::SendMessage => event is Sent || event is Failed,
        ExchangeState::ReceiveLength(reading) => {
            &&& reading.wanted == QGS_MSG_FRAMING_HEADER_SIZE
            &&& reading.received.len() <= reading.wanted
            &&& event is Received || event is Failed
        },
        ExchangeState::ReceiveResponse(reading) => {
            &&& reading.received.len() <= reading.wanted
            &&& event is Received || event is Failed
        },
    }
}

/// The first state of a reading.
pub open spec fn nothing_read(wanted: usize) -> ReadState<Seq<u8>> {
    ReadState { received: Seq::empty(), wanted }
}

/// The reading of a response, as part of an exchange.
pub open spec fn response_step<E>(step: ReadStep<Seq<u8>, E>) -> ExchangeStep<Seq<u8>, E> {
    match step {
        Progress::Perform { action, state } => Progress::Perform {
            action: QgsAction::Receive { max: action },
            state: ExchangeState::ReceiveResponse(state),
        },
        Progress::Finished(result) => Progress::Finished(result),
    }
}

/// Whether a response of this size is read.
pub open spec fn acceptable_size(size: nat) -> bool {
    0 < size <= QGS_MAX_RESPONSE_SIZE
}

/// The reading of the length of a response, as part of an exchange.
pub open spec fn length_step<E>(step: ReadStep<Seq<u8>, E>) -> ExchangeStep<Seq<u8>, E> {
    match step {
        Progress::Perform { action, state } => Progress::Perform {
            action: QgsAction::Receive { max: action },
            state: ExchangeState::ReceiveLength(state),
        },
        Progress::Finished(Err(error)) => Progress::Finished(Err(error)),
        Progress::Finished(Ok(prefix)) => {
            let size = bytes::be_value(prefix);
            if acceptable_size(size) {
                response_step(read_next(nothing_read(size as usize), QgsEvent::Begin))
            } else {
                Progress::Finished(Err(QgsError::ResponseSize(size as u64)))
            }
        },
    }
}

/// What an exchange does next.
pub open spec fn exchange_next<E>(
    state: ExchangeState<Seq<u8>>,
    event: QgsEvent<Seq<u8>, E>,
) -> ExchangeStep<Seq<u8>, E> {
    match (state, event) {
        (ExchangeState::ReceiveLength(reading), event) => length_step(read_next(reading, event)),
        (ExchangeState::ReceiveResponse(reading), event) => response_step(
            read_next(reading, event),
        ),
        (_, QgsEvent::Failed(error)) => Progress::Finished(Err(QgsError::Transport(error))),
        (ExchangeState::Start { msg }, _) => Progress::Perform {
            action: QgsAction::Connect,
            state: ExchangeState::Connect { msg },
        },
        (ExchangeState::Connect { msg }, _) => Progress::Perform {
            action: QgsAction::Send(bytes::be_bytes(msg.len(), 4)),
            state: ExchangeState::SendLength { msg },
        },
        (ExchangeState::SendLength { msg }, _) => Progress::Perform {
            action: QgsAction::Send(msg),
            state: ExchangeState::SendMessage,
        },
        (ExchangeState::SendMessage, _) => length_step(
            read_next(nothing_read(QGS_MSG_FRAMING_HEADER_SIZE), QgsEvent::Begin),
        ),
    }
}

/// Goes on with the reading of a response.
fn receive_response<E>(reading: ReadState<Vec<u8>>, event: QgsEvent<Vec<u8>, E>) -> (step:
    ExchangeStep<Vec<u8>, E>)
    requires
        read_accepts(reading@, event@),
    ensures
        step@ == response_step(read_next(reading@, event@)),
{
    match read_exact_bytes(reading, event) {
        Progress::Perform { action, state } => Progress::Perform {
            action: QgsAction::Receive { max: action },
            state: ExchangeState::ReceiveResponse(state),
        },
        Progress::Finished(result) => Progress::Finished(result),
    }
}

/// Goes on with the reading of the length of a response.
fn receive_length<E>(reading: ReadState<Vec<u8>>, event: QgsEvent<Vec<u8>, E>) -> (step:
    ExchangeStep<Vec<u8>, E>)
    requires
        reading.wanted == QGS_MSG_FRAMING_HEADER_SIZE,
        read_accepts(reading@, event@),
    ensures
        step@ == length_step(read_next(reading@, event@)),
{
    match read_exact_bytes(reading, event) {
        Progress::Perform { action, state } => Progress::Perform {
            action: QgsAction::Receive { max: action },
            state: ExchangeState::ReceiveLength(state),
        },
        Progress::Finished(Err(error)) => Progress::Finished(Err(error)),
        Progress::Finished(Ok(prefix)) => {
            assert(prefix@.len() == QGS_MSG_FRAMING_HEADER_SIZE);
            let size: u64 = decode_be(prefix.as_slice(), 0, QGS_MSG_FRAMING_HEADER_SIZE);
            assert(prefix@.subrange(0, QGS_MSG_FRAMING_HEADER_SIZE as int) =~= prefix@);
            if size == 0 || size > QGS_MAX_RESPONSE_SIZE as u64 {
                return Progress::Finished(Err(QgsError::ResponseSize(size)));
            }
            let nothing: ReadState<Vec<u8>> = ReadState {
                received: Vec::new(),
                wanted: size as usize,
            };
            assert(nothing@ == nothing_read(size as usize));
            receive_response(nothing, QgsEvent::Begin)
        },
    }
}

/// Sends a message behind its length over a new connection, and receives the
/// response in the same way.
///
/// Called first with `ExchangeState::Start` and `QgsEvent::Begin`, then with each state
/// that it returns and the event that its action led to.
pub fn qgs_send_receive<E>(state: ExchangeState<Vec<u8>>, event: QgsEvent<Vec<u8>, E>) -> (step:
    ExchangeStep<Vec<u8>, E>)
    requires
        exchange_accepts(state@, event@),
    ensures
        step@ == exchange_next(state@, event@),
{
    match state {
        ExchangeState::ReceiveLength(reading) => receive_length(reading, event),
        ExchangeState::ReceiveResponse(reading) => receive_response(reading, event),
        ExchangeState::Start { msg } => Progress::Perform {
            action: QgsAction::Connect,
            state: ExchangeState::Connect { msg },
        },
        ExchangeState::Connect { msg } => match event {
            QgsEvent::Failed(error) => Progress::Finished(Err(QgsError::Transport(error))),
            _ => {
                let prefix: Vec<u8> = encode_be(msg.len() as u64, QGS_MSG_FRAMING_HEADER_SIZE);
                Progress::Perform {
                    action: QgsAction::Send(prefix),
                    state: ExchangeState::SendLength { msg },
                }
            },
        },
        ExchangeState::SendLength { msg } => match event {
            QgsEvent::Failed(error) => Progress::Finished(Err(QgsError::Transport(error))),
            _ => Progress::Perform {
                action: QgsAction::Send(msg),
                state: ExchangeState::SendMessage,
            },
        },
        ExchangeState::SendMessage => match event {
            QgsEvent::Failed(error) => Progress::Finished(Err(QgsError::Transport(error))),
            _ => {
                let nothing: ReadState<Vec<u8>> = ReadState {
                    received: Vec::new(),
                    wanted: QGS_MSG_FRAMING_HEADER_SIZE,
                };
                assert(nothing@ == nothing_read(QGS_MSG_FRAMING_HEADER_SIZE));
                receive_length(nothing, QgsEvent::Begin)
            },
        },
    }
}

/// A message behind its length.
pub open spec fn frame(msg: Seq<u8>) -> Seq<u8> {
    bytes::be_bytes(msg.len(), 4) + msg
}

/// A connection: what still comes in on it, in pieces whose sizes `piece` picks by
/// what is left; what was sent on it; and, if it is to fail, after how many more actions
/// and with which error.
pub struct Peer<E> {
    pub incoming: Seq<u8>,
    pub piece: spec_fn(nat) -> nat,
    pub sent: Seq<u8>,
    pub fails_after: Option<(nat, E)>,
}

/// How many bytes come in next, of at most `max`: none only where none is left.
pub open spec fn next_piece<E>(peer: Peer<E>, max: nat) -> nat {
    let left = peer.incoming.len();
    let most = if left <= max { left } else { max };
    let picked = (peer.piece)(left);
    if picked == 0 && most > 0 {
        1
    } else if picked <= most {
        picked
    } else {
        most
    }
}

/// What `action` does on a connection that works, and the event that it leads to.
pub open spec fn deliver<E>(peer: Peer<E>, action: QgsAction<Seq<u8>>) -> (
    Peer<E>,
    QgsEvent<Seq<u8>, E>,
) {
    match action {
        QgsAction::Connect => (peer, QgsEvent::Connected),
        QgsAction::Send(data) => (Peer { sent: peer.sent + data, ..peer }, QgsEvent::Sent),
        QgsAction::Receive { max } => {
            let count = next_piece(peer, max as nat) as int;
            (
                Peer { incoming: peer.incoming.skip(count), ..peer },
                QgsEvent::Received(peer.incoming.take(count)),
            )
        },
    }
}

/// What `action` does on a connection, and the event that it leads to.
pub open spec fn transmit<E>(peer: Peer<E>, action: QgsAction<Seq<u8>>) -> (
    Peer<E>,
    QgsEvent<Seq<u8>, E>,
) {
    match peer.fails_after {
        None => deliver(peer, action),
        Some((lasts, error)) => if lasts == 0 {
            (peer, QgsEvent::Failed(error))
        } else {
            deliver(Peer { fails_after: Some(((lasts - 1) as nat, error)), ..peer }, action)
        },
    }
}

/// The same connection, if it did not fail.
pub open spec fn unfailing<E>(peer: Peer<E>) -> Peer<E> {
    Peer { fails_after: None, ..peer }
}

/// Runs an exchange over a connection for at most `fuel` actions.
pub open spec fn run_exchange<E>(step: ExchangeStep<Seq<u8>, E>, peer: Peer<E>, fuel: nat) -> (
    Peer<E>,
    Option<Result<Seq<u8>, QgsError<E>>>,
)
    decreases fuel,
{
    match step {
        Progress::Finished(result) => (peer, Some(result)),
        Progress::Perform { action, state } => if fuel == 0 {
            (peer, None)
        } else {
            let (after, event) = transmit::<E>(peer, action);
            run_exchange(exchange_next(state, event), after, (fuel - 1) as nat)
        },
    }
}

/// What the bytes that come in amount to.
pub open spec fn reply_in<E>(incoming: Seq<u8>) -> Result<Seq<u8>, QgsError<E>> {
    if incoming.len() < QGS_MSG_FRAMING_HEADER_SIZE {
        Err(QgsError::ConnectionClosed)
    } else {
        let size = bytes::be_value(incoming.take(4));
        if !acceptable_size(size) {
            Err(QgsError::ResponseSize(size as u64))
        } else if incoming.len() < 4 + size {
            Err(QgsError::ConnectionClosed)
        } else {
            Ok(incoming.subrange(4, 4 + size as int))
        }
    }
}

/// A reading of a response gets the same bytes in however many pieces they come.
proof fn lemma_run_response<E>(reading: ReadState<Seq<u8>>, peer: Peer<E>, fuel: nat)
    requires
        reading.received.len() < reading.wanted,
        peer.fails_after is None,
        fuel > peer.incoming.len(),
    ensures
        ({
            let missing = (reading.wanted - reading.received.len()) as int;
            let step: ExchangeStep<Seq<u8>, E> = response_step(
                read_on(reading.received, reading.wanted),
            );
            let (after, result) = run_exchange(step, peer, fuel);
            &&& after.sent == peer.sent
            &&& result == Some(
                if peer.incoming.len() < missing {
                    Err(QgsError::<E>::ConnectionClosed)
                } else {
                    Ok(reading.received + peer.incoming.take(missing))
                },
            )
        }),
    decreases fuel,
{
    let missing = (reading.wanted - reading.received.len()) as int;
    let count = next_piece(peer, missing as nat) as int;
    let data = peer.incoming.take(count);
    let after = Peer { incoming: peer.incoming.skip(count), ..peer };
    let state = ExchangeState::ReceiveResponse(reading);
    let step: ExchangeStep<Seq<u8>, E> = response_step(
        read_on(reading.received, reading.wanted),
    );
    assert(step == ExchangeStep::<Seq<u8>, E>::Perform {
        action: QgsAction::Receive { max: missing as usize },
        state: ExchangeState::ReceiveResponse(
            ReadState { received: reading.received, wanted: reading.wanted },
        ),
    });
    assert(run_exchange(step, peer, fuel) == run_exchange(
        exchange_next(state, QgsEvent::<Seq<u8>, E>::Received(data)),
        after,
        (fuel - 1) as nat,
    ));
    if count > 0 {
        let received = reading.received + data;
        if received.len() < reading.wanted {
            lemma_run_response::<E>(
                ReadState { received, wanted: reading.wanted },
                after,
                (fuel - 1) as nat,
            );
            if peer.incoming.len() >= missing {
                assert(received + after.incoming.take(missing - count) =~= reading.received
                    + peer.incoming.take(missing));
            }
        } else {
            assert(received =~= reading.received + peer.incoming.take(missing));
        }
    }
}

/// A reading of a length goes on to the same response in however many pieces the
/// bytes come.
proof fn lemma_run_length<E>(received: Seq<u8>, peer: Peer<E>, fuel: nat)
    requires
        received.len() < QGS_MSG_FRAMING_HEADER_SIZE,
        peer.fails_after is None,
        fuel > peer.incoming.len(),
    ensures
        ({
            let step: ExchangeStep<Seq<u8>, E> = length_step(
                read_on(received, QGS_MSG_FRAMING_HEADER_SIZE),
            );
            let (after, result) = run_exchange(step, peer, fuel);
            &&& after.sent == peer.sent
            &&& result == Some(reply_in::<E>(received + peer.incoming))
        }),
    decreases fuel,
{
    let wanted = QGS_MSG_FRAMING_HEADER_SIZE;
    let missing = (wanted - received.len()) as int;
    let count = next_piece(peer, missing as nat) as int;
    let data = peer.incoming.take(count);
    let after = Peer { incoming: peer.incoming.skip(count), ..peer };
    let reading = ReadState { received, wanted };
    let step: ExchangeStep<Seq<u8>, E> = length_step(read_on(received, wanted));
    assert(step == ExchangeStep::<Seq<u8>, E>::Perform {
        action: QgsAction::Receive { max: missing as usize },
        state: ExchangeState::ReceiveLength(reading),
    });
    assert(run_exchange(step, peer, fuel) == run_exchange(
        exchange_next(
            ExchangeState::ReceiveLength(reading),
            QgsEvent::<Seq<u8>, E>::Received(data),
        ),
        after,
        (fuel - 1) as nat,
    ));
    let all = received + peer.incoming;
    if count > 0 {
        let more = received + data;
        assert(more + after.incoming =~= all);
        if more.len() < wanted {
            lemma_run_length::<E>(more, after, (fuel - 1) as nat);
        } else {
            let size = bytes::be_value(more);
            assert(all.take(4) =~= more);
            if acceptable_size(size) {
                let nothing = nothing_read(size as usize);
                lemma_run_response::<E>(nothing, after, (fuel - 1) as nat);
                if after.incoming.len() >= size {
                    assert(nothing.received + after.incoming.take(size as int) =~= all.subrange(
                        4,
                        4 + size as int,
                    ));
                }
            }
        }
    }
}

/// The first step of the exchange for `msg`.
pub open spec fn first_step<E>(msg: Seq<u8>) -> ExchangeStep<Seq<u8>, E> {
    exchange_next(ExchangeState::Start { msg }, QgsEvent::Begin)
}

/// Over a connection that does not fail, an exchange sends the message behind its
/// length, and results in what the bytes that come in amount to.
proof fn lemma_run_unfailing<E>(msg: Seq<u8>, peer: Peer<E>, fuel: nat)
    requires
        peer.fails_after is None,
        fuel > peer.incoming.len() + 3,
    ensures
        ({
            let (after, result) = run_exchange(first_step::<E>(msg), peer, fuel);
            &&& after.sent == peer.sent + frame(msg)
            &&& result == Some(reply_in::<E>(peer.incoming))
        }),
{
    let start = first_step::<E>(msg);
    let prefix = bytes::be_bytes(msg.len(), 4);
    let after_prefix = Peer { sent: peer.sent + prefix, ..peer };
    let after_msg = Peer { sent: peer.sent + prefix + msg, ..peer };
    let receiving: ExchangeStep<Seq<u8>, E> = length_step(
        read_on(Seq::empty(), QGS_MSG_FRAMING_HEADER_SIZE),
    );
    reveal_with_fuel(run_exchange, 4);
    assert(run_exchange(start, peer, fuel) == run_exchange(
        exchange_next::<E>(ExchangeState::SendLength { msg }, QgsEvent::Sent),
        after_prefix,
        (fuel - 2) as nat,
    ));
    assert(run_exchange(start, peer, fuel) == run_exchange(
        receiving,
        after_msg,
        (fuel - 3) as nat,
    ));
    lemma_run_length::<E>(Seq::empty(), after_msg, (fuel - 3) as nat);
    assert(Seq::<u8>::empty() + peer.incoming =~= peer.incoming);
    assert(peer.sent + prefix + msg =~= peer.sent + frame(msg));
}

/// Nothing is sent any more once the response is being received.
proof fn lemma_receiving_sends_nothing<E>(state: ExchangeState<Seq<u8>>, peer: Peer<E>, fuel: nat)
    requires
        peer.fails_after is None,
        state is ReceiveLength || state is ReceiveResponse,
    ensures
        ({
            let step: ExchangeStep<Seq<u8>, E> = Progress::Perform {
                action: QgsAction::Receive { max: receive_max(state) },
                state,
            };
            run_exchange(step, peer, fuel).0.sent == peer.sent
        }),
    decreases fuel,
{
    reveal_with_fuel(run_exchange, 2);
    if fuel > 0 {
        let action = QgsAction::Receive { max: receive_max(state) };
        let (after, event) = transmit(peer, action);
        if let Progress::Perform { state: next, .. } = exchange_next(state, event) {
            lemma_receiving_sends_nothing(next, after, (fuel - 1) as nat);
        }
    }
}

/// How many bytes a state that receives wants at most.
spec fn receive_max(state: ExchangeState<Seq<u8>>) -> usize {
    match state {
        ExchangeState::ReceiveLength(reading) => (reading.wanted
            - reading.received.len()) as usize,
        ExchangeState::ReceiveResponse(reading) => (reading.wanted
            - reading.received.len()) as usize,
        _ => 0,
    }
}

/// What the first `actions` actions of the exchange for `msg` send.
pub open spec fn sent_within(msg: Seq<u8>, actions: nat) -> Seq<u8> {
    if actions < 2 {
        Seq::empty()
    } else if actions == 2 {
        bytes::be_bytes(msg.len(), 4)
    } else {
        frame(msg)
    }
}

/// What an exchange has sent after some actions, whether it is over or not.
proof fn lemma_sent_within<E>(msg: Seq<u8>, peer: Peer<E>, actions: nat)
    requires
        peer.fails_after is None,
    ensures
        run_exchange(first_step::<E>(msg), peer, actions).0.sent == peer.sent + sent_within(
            msg,
            actions,
        ),
{
    reveal_with_fuel(run_exchange, 4);
    let prefix = bytes::be_bytes(msg.len(), 4);
    let after_msg = Peer { sent: peer.sent + prefix + msg, ..peer };
    let receiving: ExchangeStep<Seq<u8>, E> = length_step(
        read_on(Seq::empty(), QGS_MSG_FRAMING_HEADER_SIZE),
    );
    if actions >= 3 {
        assert(run_exchange(first_step::<E>(msg), peer, actions) == run_exchange(
            receiving,
            after_msg,
            (actions - 3) as nat,
        ));
        lemma_receiving_sends_nothing(
            ExchangeState::ReceiveLength(nothing_read(QGS_MSG_FRAMING_HEADER_SIZE)),
            after_msg,
            (actions - 3) as nat,
        );
        assert(peer.sent + prefix + msg =~= peer.sent + frame(msg));
    } else if actions < 2 {
        assert(peer.sent + Seq::empty() =~= peer.sent);
    }
}

/// A connection that fails before an exchange is over ends it there with its error; one
/// that fails later makes no difference.
proof fn lemma_run_failing<E>(
    step: ExchangeStep<Seq<u8>, E>,
    peer: Peer<E>,
    lasts: nat,
    error: E,
    fuel: nat,
)
    requires
        peer.fails_after == Some((lasts, error)),
        run_exchange(step, unfailing(peer), fuel).1 is Some,
    ensures
        ({
            let early = run_exchange(step, unfailing(peer), lasts);
            let whole = run_exchange(step, unfailing(peer), fuel);
            let (after, result) = run_exchange(step, peer, fuel);
            if early.1 is Some {
                result == whole.1 && after.sent == whole.0.sent
            } else {
                result == Some(Err::<Seq<u8>, QgsError<E>>(QgsError::Transport(error)))
                    && after.sent == early.0.sent
            }
        }),
    decreases fuel,
{
    reveal_with_fuel(run_exchange, 2);
    if let Progress::Perform { action, state } = step {
        if lasts == 0 {
            law_transport_error_ends_exchange(state, error);
        } else {
            let (next_unfailing, event) = transmit(unfailing(peer), action);
            let (next, same) = transmit(peer, action);
            assert(same == event);
            assert(unfailing(next) == next_unfailing);
            lemma_run_failing(
                exchange_next(state, event),
                next,
                (lasts - 1) as nat,
                error,
                (fuel - 1) as nat,
            );
        }
    }
}

/// Whether the connection fails before the exchange for `msg` is over.
pub open spec fn breaks_off<E>(msg: Seq<u8>, peer: Peer<E>) -> bool {
    match peer.fails_after {
        None => false,
        Some((lasts, _)) => run_exchange(
            first_step::<E>(msg),
            unfailing(peer),
            lasts,
        ).1 is None,
    }
}

/// A connection that fails before the first piece came in breaks the exchange off,
/// whatever would have come in.
pub proof fn law_early_failure_breaks_off<E>(msg: Seq<u8>, peer: Peer<E>, lasts: nat, error: E)
    requires
        peer.fails_after == Some((lasts, error)),
        lasts <= 3,
    ensures
        breaks_off(msg, peer),
{
    reveal_with_fuel(run_exchange, 4);
}

/// What the exchange for `msg` over a connection results in: the error of the connection
/// where it breaks off, else what the bytes that come in amount to.
pub open spec fn exchange_result<E>(msg: Seq<u8>, peer: Peer<E>) -> Result<
    Seq<u8>,
    QgsError<E>,
> {
    if breaks_off(msg, peer) {
        Err(QgsError::Transport((peer.fails_after->0).1))
    } else {
        reply_in(peer.incoming)
    }
}

/// What the exchange for `msg` sends over a connection: the message behind its length,
/// or as much of that as was sent before the connection broke off.
pub open spec fn exchange_sends<E>(msg: Seq<u8>, peer: Peer<E>) -> Seq<u8> {
    if breaks_off(msg, peer) {
        sent_within(msg, (peer.fails_after->0).0)
    } else {
        frame(msg)
    }
}

/// Over any connection, whenever it fails, an exchange sends the message behind its
/// length, and nothing else, and results in what the bytes that come in amount to, in
/// however many pieces they come; where the connection fails before that, it has sent the
/// start of that and results in the error of the connection.
pub proof fn law_exchange<E>(msg: Seq<u8>, peer: Peer<E>, fuel: nat)
    requires
        fuel > peer.incoming.len() + 3,
    ensures
        ({
            let (after, result) = run_exchange(first_step::<E>(msg), peer, fuel);
            &&& after.sent == peer.sent + exchange_sends(msg, peer)
            &&& result == Some(exchange_result(msg, peer))
        }),
{
    lemma_run_unfailing(msg, unfailing(peer), fuel);
    match peer.fails_after {
        None => {
            assert(unfailing(peer) == peer);
        },
        Some((lasts, error)) => {
            lemma_run_failing(first_step::<E>(msg), peer, lasts, error, fuel);
            lemma_sent_within(msg, unfailing(peer), lasts);
        },
    }
}

/// What one side sends as a message, the other side receives as that message, if its
/// size is one that is read.
pub proof fn law_frame_is_read_back<E>(msg: Seq<u8>, rest: Seq<u8>)
    requires
        1 <= msg.len() <= 262144,
    ensures
        reply_in::<E>(frame(msg) + rest) == Ok::<Seq<u8>, QgsError<E>>(msg),
{
    let incoming = frame(msg) + rest;
    bytes::lemma_byte_limits();
    bytes::lemma_be_value_of_bytes(msg.len(), 4);
    assert(incoming.take(4) =~= bytes::be_bytes(msg.len(), 4));
    assert(incoming.subrange(4, 4 + msg.len() as int) =~= msg);
}

/// A response that is empty or longer than 256 KiB is refused by its length alone.
pub proof fn law_size_is_refused<E>(size: nat, rest: Seq<u8>)
    requires
        size == 0 || 262144 < size < 0x1_0000_0000,
    ensures
        reply_in::<E>(bytes::be_bytes(size, 4) + rest) == Err::<Seq<u8>, QgsError<E>>(
            QgsError::ResponseSize(size as u64),
        ),
{
    let incoming = bytes::be_bytes(size, 4) + rest;
    bytes::lemma_byte_limits();
    bytes::lemma_be_value_of_bytes(size, 4);
    assert(incoming.take(4) =~= bytes::be_bytes(size, 4));
}

/// A transport error ends an exchange at once, and is what the exchange results in.
pub proof fn law_transport_error_ends_exchange<E>(state: ExchangeState<Seq<u8>>, error: E)
    ensures
        exchange_next(state, QgsEvent::Failed(error)) == ExchangeStep::<Seq<u8>, E>::Finished(
            Err(QgsError::Transport(error)),
        ),
{
}

/// Whether `event` is what `action` can lead to.
pub open spec fn qgs_answers<E>(
    event: QgsEvent<Seq<u8>, E>,
    action: QgsAction<Seq<u8>>,
) -> bool {
    match action {
        QgsAction::Connect => event is Connected || event is Failed,
        QgsAction::Send(_) => event is Sent || event is Failed,
        QgsAction::Receive { .. } => event is Received || event is Failed,
    }
}

/// The state in which an action is asked for accepts every event that the action can
/// lead to.
pub proof fn law_exchange_goes_on<E>(
    state: ExchangeState<Seq<u8>>,
    event: QgsEvent<Seq<u8>, E>,
    answer: QgsEvent<Seq<u8>, E>,
)
    requires
        exchange_accepts(state, event),
    ensures
        exchange_next(state, event) matches Progress::Perform { action, state: next } ==> (
        qgs_answers(answer, action) ==> exchange_accepts(next, answer)),
{
}

/// Runs a reading over a connection for at most `fuel` pieces.
pub open spec fn run_read<E>(step: ReadStep<Seq<u8>, E>, peer: Peer<E>, fuel: nat) -> (
    Peer<E>,
    Option<Result<Seq<u8>, QgsError<E>>>,
)
    decreases fuel,
{
    match step {
        Progress::Finished(result) => (peer, Some(result)),
        Progress::Perform { action, state } => if fuel == 0 {
            (peer, None)
        } else {
            let (after, event) = transmit::<E>(peer, QgsAction::Receive { max: action });
            run_read(read_next(state, event), after, (fuel - 1) as nat)
        },
    }
}

/// A reading that is under way takes the bytes that it misses, and no others.
proof fn lemma_run_read<E>(received: Seq<u8>, wanted: usize, peer: Peer<E>, fuel: nat)
    requires
        received.len() <= wanted,
        peer.fails_after is None,
        fuel > peer.incoming.len(),
    ensures
        ({
            let missing = wanted - received.len();
            let (after, result) = run_read(read_on::<E>(received, wanted), peer, fuel);
            if peer.incoming.len() < missing {
                result == Some(Err::<Seq<u8>, QgsError<E>>(QgsError::ConnectionClosed))
            } else {
                &&& result == Some(
                    Ok::<Seq<u8>, QgsError<E>>(received + peer.incoming.take(missing)),
                )
                &&& after.incoming == peer.incoming.skip(missing)
            }
        }),
    decreases fuel,
{
    let missing = wanted - received.len();
    if missing == 0 {
        assert(received + peer.incoming.take(0) =~= received);
        assert(peer.incoming.skip(0) =~= peer.incoming);
    } else {
        let count = next_piece(peer, missing as nat) as int;
        let data = peer.incoming.take(count);
        let after = Peer { incoming: peer.incoming.skip(count), ..peer };
        assert(run_read(read_on::<E>(received, wanted), peer, fuel) == run_read(
            read_next(ReadState { received, wanted }, QgsEvent::<Seq<u8>, E>::Received(data)),
            after,
            (fuel - 1) as nat,
        ));
        if count > 0 {
            let more = received + data;
            lemma_run_read::<E>(more, wanted, after, (fuel - 1) as nat);
            if peer.incoming.len() >= missing {
                assert(more + after.incoming.take(missing - count) =~= received
                    + peer.incoming.take(missing));
                assert(after.incoming.skip(missing - count) =~= peer.incoming.skip(missing));
            }
        }
    }
}

/// Over a connection that does not fail, a reading results in exactly the first `wanted`
/// bytes, leaves the rest, and finds no more only where the connection is closed before;
/// the pieces make no difference.
pub proof fn law_read_exact<E>(wanted: usize, peer: Peer<E>, fuel: nat)
    requires
        peer.fails_after is None,
        fuel > peer.incoming.len(),
    ensures
        ({
            let start = read_next::<E>(nothing_read(wanted), QgsEvent::Begin);
            let (after, result) = run_read(start, peer, fuel);
            if peer.incoming.len() < wanted {
                result == Some(Err::<Seq<u8>, QgsError<E>>(QgsError::ConnectionClosed))
            } else {
                &&& result == Some(
                    Ok::<Seq<u8>, QgsError<E>>(peer.incoming.take(wanted as int)),
                )
                &&& after.incoming == peer.incoming.skip(wanted as int)
            }
        }),
{
    lemma_run_read::<E>(Seq::empty(), wanted, peer, fuel);
    if peer.incoming.len() >= wanted {
        assert(Seq::<u8>::empty() + peer.incoming.take(wanted as int) =~= peer.incoming.take(
            wanted as int,
        ));
    }
}

/// A response is read if and only if it is not empty and not longer than 256 KiB.
pub proof fn law_acceptable_sizes(size: nat)
    ensures
        acceptable_size(size) <==> 1 <= size <= 262144,
{
}

/// A reading keeps what it has and appends what comes in, up to the bytes that it wants; it
/// asks for what is missing, ends as soon as nothing is, and ends with an error where nothing
/// comes in or the transport fails.
pub proof fn law_read_steps<E>(received: Seq<u8>, wanted: usize, data: Seq<u8>, error: E)
    requires
        received.len() <= wanted,
    ensures
        ({
            let state = ReadState { received, wanted };
            let all = received + data;
            let begun = read_next::<E>(state, QgsEvent::Begin);
            let fed = read_next::<E>(state, QgsEvent::Received(data));
            &&& read_accepts::<E>(state, QgsEvent::Begin)
            &&& read_accepts::<E>(state, QgsEvent::Received(data))
            &&& read_accepts::<E>(state, QgsEvent::Failed(error))
            &&& received.len() < wanted ==> begun == ReadStep::<Seq<u8>, E>::Perform {
                action: (wanted - received.len()) as usize,
                state,
            }
            &&& received.len() == wanted ==> begun == ReadStep::<Seq<u8>, E>::Finished(
                Ok(received),
            )
            &&& data.len() == 0 ==> fed == ReadStep::<Seq<u8>, E>::Finished(
                Err(QgsError::ConnectionClosed),
            )
            &&& data.len() > 0 && all.len() < wanted ==> fed == ReadStep::<Seq<u8>, E>::Perform {
                action: (wanted - all.len()) as usize,
                state: ReadState { received: all, wanted },
            }
            &&& data.len() > 0 && all.len() >= wanted ==> fed == ReadStep::<
                Seq<u8>,
                E,
            >::Finished(Ok(all.take(wanted as int)))
            &&& read_next::<E>(state, QgsEvent::Failed(error)) == ReadStep::<
                Seq<u8>,
                E,
            >::Finished(Err(QgsError::Transport(error)))
        }),
{
    let all = received + data;
    if all.len() == wanted {
        assert(all.take(wanted as int) =~= all);
    }
}

/// What an exchange does up to the response: it connects, sends the low 32 bits of the
/// length of the message in four bytes, most significant first, sends the message, and asks
/// for four bytes.
pub proof fn law_exchange_sends_steps<E>(msg: Seq<u8>)
    ensures
        ({
            let first = exchange_next::<E>(ExchangeState::Start { msg }, QgsEvent::Begin);
            let second = exchange_next::<E>(ExchangeState::Connect { msg }, QgsEvent::Connected);
            let third = exchange_next::<E>(ExchangeState::SendLength { msg }, QgsEvent::Sent);
            let fourth = exchange_next::<E>(ExchangeState::SendMessage, QgsEvent::Sent);
            &&& first == ExchangeStep::<Seq<u8>, E>::Perform {
                action: QgsAction::Connect,
                state: ExchangeState::Connect { msg },
            }
            &&& third == ExchangeStep::<Seq<u8>, E>::Perform {
                action: QgsAction::Send(msg),
                state: ExchangeState::SendMessage,
            }
            &&& fourth == ExchangeStep::<Seq<u8>, E>::Perform {
                action: QgsAction::Receive { max: 4 },
                state: ExchangeState::ReceiveLength(
                    ReadState { received: Seq::empty(), wanted: 4 },
                ),
            }
            &&& second matches Progress::Perform { action, state }
            &&& state == ExchangeState::SendLength { msg }
            &&& action matches QgsAction::Send(prefix)
            &&& prefix.len() == 4
            &&& prefix[3] + 0x100 * prefix[2] + 0x1_0000 * prefix[1] + 0x100_0000 * prefix[0]
                == msg.len() % 0x1_0000_0000
        }),
{
    bytes::law_four_bytes_show(msg.len());
}

/// What an exchange does once the four bytes of the length are there: a length from 1 to
/// 256 KiB is how many bytes it asks for next, and any other ends it at once.
pub proof fn law_exchange_judges_length<E>(received: Seq<u8>, data: Seq<u8>)
    requires
        received.len() < 4,
        received.len() + data.len() >= 4,
    ensures
        ({
            let p = received + data;
            let size = p[3] + 0x100 * p[2] + 0x1_0000 * p[1] + 0x100_0000 * p[0];
            let step = exchange_next::<E>(
                ExchangeState::ReceiveLength(ReadState { received, wanted: 4 }),
                QgsEvent::Received(data),
            );
            if 1 <= size <= 262144 {
                step == ExchangeStep::<Seq<u8>, E>::Perform {
                    action: QgsAction::Receive { max: size as usize },
                    state: ExchangeState::ReceiveResponse(
                        ReadState { received: Seq::empty(), wanted: size as usize },
                    ),
                }
            } else {
                step == ExchangeStep::<Seq<u8>, E>::Finished(
                    Err(QgsError::ResponseSize(size as u64)),
                )
            }
        }),
{
    let prefix = at_most(received + data, 4);
    bytes::law_four_bytes(prefix);
}

/// While bytes of the length or of the response are missing, an exchange asks for them and
/// for no more; once the response is there in full, it is what the exchange results in.
pub proof fn law_exchange_receives<E>(received: Seq<u8>, wanted: usize, data: Seq<u8>)
    requires
        received.len() < wanted,
    ensures
        ({
            let all = received + data;
            let length = exchange_next::<E>(
                ExchangeState::ReceiveLength(ReadState { received, wanted: 4 }),
                QgsEvent::Received(data),
            );
            let response = exchange_next::<E>(
                ExchangeState::ReceiveResponse(ReadState { received, wanted }),
                QgsEvent::Received(data),
            );
            &&& data.len() == 0 ==> length == response && response == ExchangeStep::<
                Seq<u8>,
                E,
            >::Finished(Err(QgsError::ConnectionClosed))
            &&& data.len() > 0 && all.len() < 4 ==> length == ExchangeStep::<
                Seq<u8>,
                E,
            >::Perform {
                action: QgsAction::Receive { max: (4 - all.len()) as usize },
                state: ExchangeState::ReceiveLength(ReadState { received: all, wanted: 4 }),
            }
            &&& data.len() > 0 && all.len() < wanted ==> response == ExchangeStep::<
                Seq<u8>,
                E,
            >::Perform {
                action: QgsAction::Receive { max: (wanted - all.len()) as usize },
                state: ExchangeState::ReceiveResponse(ReadState { received: all, wanted }),
            }
            &&& all.len() >= wanted ==> response == ExchangeStep::<Seq<u8>, E>::Finished(
                Ok(all.take(wanted as int)),
            )
        }),
{
    let all = received + data;
    if all.len() == wanted {
        assert(all.take(wanted as int) =~= all);
    }
}

/// An exchange can begin with any message, and goes on with all that its actions lead to.
pub proof fn law_exchange_accepts<E>(
    msg: Seq<u8>,
    received: Seq<u8>,
    wanted: usize,
    data: Seq<u8>,
    error: E,
)
    requires
        received.len() < wanted,
    ensures
        ({
            let failed = QgsEvent::<Seq<u8>, E>::Failed(error);
            let came = QgsEvent::<Seq<u8>, E>::Received(data);
            let connecting = ExchangeState::Connect { msg };
            let measured = ExchangeState::SendLength { msg };
            let length = ExchangeState::ReceiveLength(ReadState { received, wanted });
            let response = ExchangeState::ReceiveResponse(ReadState { received, wanted });
            &&& exchange_accepts::<E>(ExchangeState::Start { msg }, QgsEvent::Begin)
            &&& exchange_accepts::<E>(connecting, QgsEvent::Connected)
            &&& exchange_accepts::<E>(connecting, failed)
            &&& exchange_accepts::<E>(measured, QgsEvent::Sent)
            &&& exchange_accepts::<E>(measured, failed)
            &&& exchange_accepts::<E>(ExchangeState::SendMessage, QgsEvent::Sent)
            &&& exchange_accepts::<E>(ExchangeState::SendMessage, failed)
            &&& wanted == 4 ==> exchange_accepts(length, came) && exchange_accepts(length, failed)
            &&& exchange_accepts(response, came)
            &&& exchange_accepts(response, failed)
        }),
{
}

/// What comes of an exchange over a connection that does not fail, by the bytes on it. It
/// sends four bytes that show the length of the message, most significant first, and the
/// message. The first four bytes that come in show a length in the same way: from 1 to
/// 256 KiB, that many bytes behind them are the response, in however many pieces they come;
/// any other length is refused, whatever follows; and too few bytes are a closed connection.
pub proof fn law_exchange_bytes<E>(msg: Seq<u8>, peer: Peer<E>, fuel: nat)
    requires
        peer.fails_after is None,
        fuel > peer.incoming.len() + 3,
    ensures
        ({
            let (after, result) = run_exchange(
                exchange_next::<E>(ExchangeState::Start { msg }, QgsEvent::Begin),
                peer,
                fuel,
            );
            let sent = after.sent.skip(peer.sent.len() as int);
            let came = peer.incoming;
            let size = came[3] + 0x100 * came[2] + 0x1_0000 * came[1] + 0x100_0000 * came[0];
            &&& after.sent.take(peer.sent.len() as int) == peer.sent
            &&& sent.len() == 4 + msg.len()
            &&& sent[3] + 0x100 * sent[2] + 0x1_0000 * sent[1] + 0x100_0000 * sent[0]
                == msg.len() % 0x1_0000_0000
            &&& forall|i: int| 0 <= i < msg.len() ==> #[trigger] sent[4 + i] == msg[i]
            &&& result == Some(
                if came.len() < 4 {
                    Err::<Seq<u8>, QgsError<E>>(QgsError::ConnectionClosed)
                } else if size == 0 || size > 262144 {
                    Err(QgsError::ResponseSize(size as u64))
                } else if came.len() < 4 + size {
                    Err(QgsError::ConnectionClosed)
                } else {
                    Ok(came.subrange(4, 4 + size))
                },
            )
        }),
{
    let framed = frame(msg);
    lemma_run_unfailing(msg, peer, fuel);
    bytes::law_four_bytes_show(msg.len());
    assert((peer.sent + framed).skip(peer.sent.len() as int) =~= framed);
    assert((peer.sent + framed).take(peer.sent.len() as int) =~= peer.sent);
    if 4 <= peer.incoming.len() {
        bytes::law_four_bytes(peer.incoming.take(4));
    }
}

/// Every body from 1 byte to 256 KiB arrives: where its length, in four bytes, most
/// significant first, and then the body come in, an exchange over a connection that does not
/// fail results in the body, whatever follows it.
pub proof fn law_body_arrives<E>(
    msg: Seq<u8>,
    prefix: Seq<u8>,
    body: Seq<u8>,
    rest: Seq<u8>,
    peer: Peer<E>,
    fuel: nat,
)
    requires
        peer.fails_after is None,
        fuel > peer.incoming.len() + 3,
        1 <= body.len() <= 262144,
        prefix.len() == 4,
        prefix[3] + 0x100 * prefix[2] + 0x1_0000 * prefix[1] + 0x100_0000 * prefix[0]
            == body.len(),
        peer.incoming == prefix + body + rest,
    ensures
        run_exchange(
            exchange_next::<E>(ExchangeState::Start { msg }, QgsEvent::Begin),
            peer,
            fuel,
        ).1 == Some(Ok::<Seq<u8>, QgsError<E>>(body)),
{
    law_exchange_bytes(msg, peer, fuel);
    assert(peer.incoming.subrange(4, 4 + body.len() as int) =~= body);
}

/// A step of an exchange is seen with the contents of its buffers, and as it is otherwise.
pub proof fn law_exchange_views<E>(
    data: Vec<u8>,
    max: usize,
    reading: ReadState<Vec<u8>>,
    action: QgsAction<Vec<u8>>,
    state: ExchangeState<Vec<u8>>,
    transport: E,
    error: QgsError<E>,
)
    ensures
        QgsAction::<Vec<u8>>::Connect@ == QgsAction::<Seq<u8>>::Connect,
        QgsAction::Send(data)@ == QgsAction::Send(data@),
        (QgsAction::<Vec<u8>>::Receive { max })@ == (QgsAction::<Seq<u8>>::Receive { max }),
        QgsEvent::<Vec<u8>, E>::Begin@ == QgsEvent::<Seq<u8>, E>::Begin,
        QgsEvent::<Vec<u8>, E>::Connected@ == QgsEvent::<Seq<u8>, E>::Connected,
        QgsEvent::<Vec<u8>, E>::Sent@ == QgsEvent::<Seq<u8>, E>::Sent,
        QgsEvent::<Vec<u8>, E>::Received(data)@ == QgsEvent::<Seq<u8>, E>::Received(data@),
        QgsEvent::<Vec<u8>, E>::Failed(transport)@ == QgsEvent::<Seq<u8>, E>::Failed(transport),
        reading@.received == reading.received@,
        reading@.wanted == reading.wanted,
        (ExchangeState::Start { msg: data })@ == (ExchangeState::Start { msg: data@ }),
        (ExchangeState::Connect { msg: data })@ == (ExchangeState::Connect { msg: data@ }),
        (ExchangeState::SendLength { msg: data })@ == (ExchangeState::SendLength { msg: data@ }),
        ExchangeState::<Vec<u8>>::SendMessage@ == ExchangeState::<Seq<u8>>::SendMessage,
        ExchangeState::ReceiveLength(reading)@ == ExchangeState::ReceiveLength(reading@),
        ExchangeState::ReceiveResponse(reading)@ == ExchangeState::ReceiveResponse(reading@),
        response::<E>(Ok(data)) == Ok::<Seq<u8>, QgsError<E>>(data@),
        response::<E>(Err(error)) == Err::<Seq<u8>, QgsError<E>>(error),
        (ReadStep::<Vec<u8>, E>::Perform { action: max, state: reading })@ == (ReadStep::<
            Seq<u8>,
            E,
        >::Perform { action: max, state: reading@ }),
        ReadStep::<Vec<u8>, E>::Finished(Ok(data))@ == ReadStep::<Seq<u8>, E>::Finished(
            Ok(data@),
        ),
        ReadStep::<Vec<u8>, E>::Finished(Err(error))@ == ReadStep::<Seq<u8>, E>::Finished(
            Err(error),
        ),
        (ExchangeStep::<Vec<u8>, E>::Perform { action, state })@ == (ExchangeStep::<
            Seq<u8>,
            E,
        >::Perform { action: action@, state: state@ }),
        ExchangeStep::<Vec<u8>, E>::Finished(Ok(data))@ == ExchangeStep::<
            Seq<u8>,
            E,
        >::Finished(Ok(data@)),
        ExchangeStep::<Vec<u8>, E>::Finished(Err(error))@ == ExchangeStep::<
            Seq<u8>,
            E,
        >::Finished(Err(error)),
{
}

} // verus!

//! Answering a request: one exchange with the service, the completion of the buffer,
//! and the interrupt that tells the guest.
use vstd::prelude::*;
use vstd::pervasive::unreached;
use vstd::slice::slice_to_vec;
use crate::complete;
use crate::complete::{write_quote_result, WriteState, WriteStep};
use crate::exchange;
use crate::exchange::{
    qgs_send_receive, ExchangeState, ExchangeStep, Peer, QgsAction, QgsError, QgsEvent,
};
use crate::guest;
use crate::guest::{GuestMemory, MemAction, MemEvent};
use crate::header::{
    TDX_GET_QUOTE_HDR_SIZE, TDX_VP_GET_QUOTE_ERROR, TDX_VP_GET_QUOTE_IN_FLIGHT,
    TDX_VP_GET_QUOTE_QGS_UNAVAILABLE, TDX_VP_GET_QUOTE_SUCCESS,
};
use crate::message;
use crate::message::{
    build_get_quote_req, check_response, extract_quote_from_qgs_response, Unexpected,
};
use crate::progress::Progress;

verus! {

/// Why there is no quote. `E` is an error of the transport.
#[derive(Debug)]
pub enum Failure<E> {
    /// The service gave no response.
    NoResponse(QgsError<E>),
    /// The response is of another type, or reports an error.
    Unexpected(Unexpected),
    /// The response is too short, or ends before its quote does.
    Malformed,
}

/// How a request was answered. `E` is an error of the transport.
#[derive(Debug)]
pub struct WorkerReport<E> {
    /// The error code that the guest was given.
    pub error_code: u64,
    /// How many bytes of the quote were written.
    pub out_len: u32,
    /// Why there is no quote.
    pub failure: Option<Failure<E>>,
}

/// What a worker wants done.
#[derive(Debug)]
pub enum WorkerAction<B> {
    /// An action on the connection to the service.
    Qgs(QgsAction<B>),
    /// An access to guest memory.
    Memory(MemAction<B>),
    /// Trigger the interrupt of this index.
    Trigger(u32),
}

/// What a worker goes on with.
#[derive(Debug)]
pub enum WorkerEvent<B, E> {
    /// Nothing was asked for yet.
    Begin,
    /// What happened on the connection.
    Qgs(QgsEvent<B, E>),
    /// What happened to the access.
    Memory(MemEvent<B>),
    /// The interrupt was triggered, or could not be.
    Triggered,
}

/// How far a worker has come.
#[derive(Debug)]
pub enum WorkerState<B, E> {
    /// Nothing was done yet. `notify` says whether there is an interrupt to trigger.
    Start { gpa: u64, buf_size: u64, in_message: B, notify: bool },
    /// The service is being asked.
    Exchange { gpa: u64, buf_size: u64, notify: bool, exchange: ExchangeState<B> },
    /// The buffer is being completed.
    Write { notify: bool, error_code: u64, failure: Option<Failure<E>>, write: WriteState<B> },
    /// The guest is being told.
    Notify { report: WorkerReport<E> },
}

/// The next action of a worker, or its report.
pub type WorkerStep<B, E> = Progress<WorkerState<B, E>, WorkerAction<B>, WorkerReport<E>>;

/// The answer to a request.
#[derive(Debug)]
pub struct Answer<B, E> {
    pub error_code: u64,
    pub quote: Option<B>,
    pub failure: Option<Failure<E>>,
}

impl View for WorkerAction<Vec<u8>> {
    type V = WorkerAction<Seq<u8>>;

    open spec fn view(&self) -> WorkerAction<Seq<u8>> {
        match *self {
            WorkerAction::Qgs(action) => WorkerAction::Qgs(action@),
            WorkerAction::Memory(action) => WorkerAction::Memory(action@),
            WorkerAction::Trigger(index) => WorkerAction::Trigger(index),
        }
    }
}

impl<E> View for WorkerEvent<Vec<u8>, E> {
    type V = WorkerEvent<Seq<u8>, E>;

    open spec fn view(&self) -> WorkerEvent<Seq<u8>, E> {
        match *self {
            WorkerEvent::Begin => WorkerEvent::Begin,
            WorkerEvent::Qgs(event) => WorkerEvent::Qgs(event@),
            WorkerEvent::Memory(event) => WorkerEvent::Memory(event@),
            WorkerEvent::Triggered => WorkerEvent::Triggered,
        }
    }
}

impl<E> View for WorkerState<Vec<u8>, E> {
    type V = WorkerState<Seq<u8>, E>;

    open spec fn view(&self) -> WorkerState<Seq<u8>, E> {
        match *self {
            WorkerState::Start { gpa, buf_size, in_message, notify } => WorkerState::Start {
                gpa,
                buf_size,
                in_message: in_message@,
                notify,
            },
            WorkerState::Exchange { gpa, buf_size, notify, exchange } => WorkerState::Exchange {
                gpa,
                buf_size,
                notify,
                exchange: exchange@,
            },
            WorkerState::Write { notify, error_code, failure, write } => WorkerState::Write {
                notify,
                error_code,
                failure,
                write: write@,
            },
            WorkerState::Notify { report } => WorkerState::Notify { report },
        }
    }
}

impl<E> View for WorkerStep<Vec<u8>, E> {
    type V = WorkerStep<Seq<u8>, E>;

    open spec fn view(&self) -> WorkerStep<Seq<u8>, E> {
        match *self {
            Progress::Perform { action, state } => Progress::Perform {
                action: action@,
                state: state@,
            },
            Progress::Finished(report) => Progress::Finished(report),
        }
    }
}

impl<E> View for Answer<Vec<u8>, E> {
    type V = Answer<Seq<u8>, E>;

    open spec fn view(&self) -> Answer<Seq<u8>, E> {
        Answer {
            error_code: self.error_code,
            quote: complete::contents(self.quote),
            failure: self.failure,
        }
    }
}

/// The answer that the outcome of an exchange gives: the service is unavailable where
/// there is no response, and there is an error where the response carries no quote.
pub open spec fn answer_of<E>(result: Result<Seq<u8>, QgsError<E>>) -> Answer<Seq<u8>, E> {
    match result {
        Err(error) => Answer {
            error_code: TDX_VP_GET_QUOTE_QGS_UNAVAILABLE,
            quote: None,
            failure: Some(Failure::NoResponse(error)),
        },
        Ok(resp) => match message::quote_of_response(resp) {
            Some(quote) => Answer {
                error_code: TDX_VP_GET_QUOTE_SUCCESS,
                quote: Some(quote),
                failure: None,
            },
            None => Answer {
                error_code: TDX_VP_GET_QUOTE_ERROR,
                quote: None,
                failure: Some(
                    match message::unexpected(resp) {
                        Some(fields) => Failure::Unexpected(fields),
                        None => Failure::Malformed,
                    },
                ),
            },
        },
    }
}

/// The answer that the outcome of an exchange gives.
pub fn answer_request<E>(result: Result<Vec<u8>, QgsError<E>>) -> (answer: Answer<Vec<u8>, E>)
    ensures
        answer@ == answer_of(exchange::response(result)),
{
    match result {
        Err(error) => Answer {
            error_code: TDX_VP_GET_QUOTE_QGS_UNAVAILABLE,
            quote: None,
            failure: Some(Failure::NoResponse(error)),
        },
        Ok(resp) => match extract_quote_from_qgs_response(resp.as_slice()) {
            Some(quote) => Answer {
                error_code: TDX_VP_GET_QUOTE_SUCCESS,
                quote: Some(slice_to_vec(quote)),
                failure: None,
            },
            None => {
                let failure: Failure<E> = match check_response(resp.as_slice()) {
                    Some(fields) => Failure::Unexpected(fields),
                    None => Failure::Malformed,
                };
                Answer {
                    error_code: TDX_VP_GET_QUOTE_ERROR,
                    quote: None,
                    failure: Some(failure),
                }
            },
        },
    }
}

/// Whether `event` is one that the worker waits for.
pub open spec fn worker_accepts<E>(
    state: WorkerState<Seq<u8>, E>,
    event: WorkerEvent<Seq<u8>, E>,
) -> bool {
    match (state, event) {
        (WorkerState::Start { .. }, WorkerEvent::Begin) => true,
        (
            WorkerState::Exchange { exchange, .. },
            WorkerEvent::Qgs(event),
        ) => exchange::exchange_accepts(exchange, event),
        (
            WorkerState::Write { write, .. },
            WorkerEvent::Memory(event),
        ) => complete::write_accepts(write, event),
        (WorkerState::Notify { .. }, WorkerEvent::Triggered) => true,
        _ => false,
    }
}

/// The completion of the buffer, as part of a worker.
pub open spec fn write_part<E>(
    step: WriteStep<Seq<u8>>,
    notify: bool,
    error_code: u64,
    failure: Option<Failure<E>>,
) -> WorkerStep<Seq<u8>, E> {
    match step {
        Progress::Perform { action, state } => Progress::Perform {
            action: WorkerAction::Memory(action),
            state: WorkerState::Write { notify, error_code, failure, write: state },
        },
        Progress::Finished(out_len) => {
            let report = WorkerReport { error_code, out_len, failure };
            if notify {
                Progress::Perform {
                    action: WorkerAction::Trigger(0),
                    state: WorkerState::Notify { report },
                }
            } else {
                Progress::Finished(report)
            }
        },
    }
}

/// The exchange with the service, as part of a worker.
pub open spec fn exchange_part<E>(
    step: ExchangeStep<Seq<u8>, E>,
    gpa: u64,
    buf_size: u64,
    notify: bool,
) -> WorkerStep<Seq<u8>, E> {
    match step {
        Progress::Perform { action, state } => Progress::Perform {
            action: WorkerAction::Qgs(action),
            state: WorkerState::Exchange { gpa, buf_size, notify, exchange: state },
        },
        Progress::Finished(result) => {
            let answer = answer_of(result);
            write_part(
                complete::write_next(
                    WriteState::Start {
                        gpa,
                        buf_size,
                        error_code: answer.error_code,
                        quote: answer.quote,
                    },
                    MemEvent::Begin,
                ),
                notify,
                answer.error_code,
                answer.failure,
            )
        },
    }
}

/// What a worker does next.
pub open spec fn worker_next<E>(
    state: WorkerState<Seq<u8>, E>,
    event: WorkerEvent<Seq<u8>, E>,
) -> WorkerStep<Seq<u8>, E>
    recommends
        worker_accepts(state, event),
{
    match state {
        WorkerState::Start { gpa, buf_size, in_message, notify } => exchange_part(
            exchange::exchange_next(
                ExchangeState::Start { msg: message::get_quote_req(in_message) },
                QgsEvent::Begin,
            ),
            gpa,
            buf_size,
            notify,
        ),
        WorkerState::Exchange { gpa, buf_size, notify, exchange } => exchange_part(
            exchange::exchange_next(exchange, event->Qgs_0),
            gpa,
            buf_size,
            notify,
        ),
        WorkerState::Write { notify, error_code, failure, write } => write_part(
            complete::write_next(write, event->Memory_0),
            notify,
            error_code,
            failure,
        ),
        WorkerState::Notify { report } => Progress::Finished(report),
    }
}

/// Goes on with the completion of the buffer.
fn go_on_writing<E>(
    step: WriteStep<Vec<u8>>,
    notify: bool,
    error_code: u64,
    failure: Option<Failure<E>>,
) -> (next: WorkerStep<Vec<u8>, E>)
    ensures
        next@ == write_part(step@, notify, error_code, failure),
{
    match step {
        Progress::Perform { action, state } => Progress::Perform {
            action: WorkerAction::Memory(action),
            state: WorkerState::Write { notify, error_code, failure, write: state },
        },
        Progress::Finished(out_len) => {
            let report: WorkerReport<E> = WorkerReport { error_code, out_len, failure };
            if notify {
                Progress::Perform {
                    action: WorkerAction::Trigger(0),
                    state: WorkerState::Notify { report },
                }
            } else {
                Progress::Finished(report)
            }
        },
    }
}

/// Goes on with the exchange with the service.
fn go_on_asking<E>(
    step: ExchangeStep<Vec<u8>, E>,
    gpa: u64,
    buf_size: u64,
    notify: bool,
) -> (next: WorkerStep<Vec<u8>, E>)
    ensures
        next@ == exchange_part(step@, gpa, buf_size, notify),
{
    match step {
        Progress::Perform { action, state } => Progress::Perform {
            action: WorkerAction::Qgs(action),
            state: WorkerState::Exchange { gpa, buf_size, notify, exchange: state },
        },
        Progress::Finished(result) => {
            let answer: Answer<Vec<u8>, E> = answer_request(result);
            let error_code: u64 = answer.error_code;
            let first: WriteStep<Vec<u8>> = write_quote_result(
                WriteState::Start { gpa, buf_size, error_code, quote: answer.quote },
                MemEvent::Begin,
            );
            go_on_writing(first, notify, error_code, answer.failure)
        },
    }
}

/// Answers the request `in_message` that was taken from the buffer at `gpa`: asks the
/// service for a quote, completes the buffer with what came back, and triggers the
/// interrupt, if there is one.
///
/// Called first with `WorkerState::Start` and `WorkerEvent::Begin`, then with each state
/// that it returns and the event that its action led to.
pub fn spawn_get_quote_worker<E>(
    state: WorkerState<Vec<u8>, E>,
    event: WorkerEvent<Vec<u8>, E>,
) -> (step: WorkerStep<Vec<u8>, E>)
    requires
        worker_accepts(state@, event@),
    ensures
        step@ == worker_next(state@, event@),
{
    match (state, event) {
        (WorkerState::Start { gpa, buf_size, in_message, notify }, _) => {
            let msg: Vec<u8> = build_get_quote_req(in_message.as_slice());
            let first: ExchangeStep<Vec<u8>, E> = qgs_send_receive(
                ExchangeState::Start { msg },
                QgsEvent::Begin,
            );
            go_on_asking(first, gpa, buf_size, notify)
        },
        (WorkerState::Exchange { gpa, buf_size, notify, exchange }, WorkerEvent::Qgs(event)) => {
            go_on_asking(qgs_send_receive(exchange, event), gpa, buf_size, notify)
        },
        (
            WorkerState::Write { notify, error_code, failure, write },
            WorkerEvent::Memory(event),
        ) => go_on_writing(write_quote_result(write, event), notify, error_code, failure),
        (WorkerState::Notify { report }, _) => Progress::Finished(report),
        _ => unreached(),
    }
}

/// What a worker acts on: the memory of the guest, the connection to the service, and
/// the interrupts that were triggered.
pub struct World<E> {
    pub mem: GuestMemory,
    pub peer: Peer<E>,
    pub triggered: Seq<u32>,
}

/// What `action` does to the world, and the event that it leads to.
pub open spec fn act<E>(world: World<E>, action: WorkerAction<Seq<u8>>) -> (
    World<E>,
    WorkerEvent<Seq<u8>, E>,
) {
    match action {
        WorkerAction::Qgs(action) => {
            let (peer, event) = exchange::transmit::<E>(world.peer, action);
            (World { peer, ..world }, WorkerEvent::Qgs(event))
        },
        WorkerAction::Memory(action) => {
            let (mem, event) = guest::serve(world.mem, action);
            (World { mem, ..world }, WorkerEvent::Memory(event))
        },
        WorkerAction::Trigger(index) => (
            World { triggered: world.triggered.push(index), ..world },
            WorkerEvent::Triggered,
        ),
    }
}

/// Runs a worker for at most `fuel` actions.
pub open spec fn run_worker<E>(step: WorkerStep<Seq<u8>, E>, world: World<E>, fuel: nat) -> (
    World<E>,
    Option<WorkerReport<E>>,
)
    decreases fuel,
{
    match step {
        Progress::Finished(report) => (world, Some(report)),
        Progress::Perform { action, state } => if fuel == 0 {
            (world, None)
        } else {
            let (after, event) = act::<E>(world, action);
            run_worker(worker_next(state, event), after, (fuel - 1) as nat)
        },
    }
}

/// The exchange of a worker goes as an exchange by itself does.
proof fn lemma_exchange_part<E>(
    step: ExchangeStep<Seq<u8>, E>,
    gpa: u64,
    buf_size: u64,
    notify: bool,
    world: World<E>,
    actions: nat,
    fuel: nat,
) -> (left: nat)
    requires
        exchange::run_exchange(step, world.peer, actions).1 is Some,
        fuel >= actions + 4,
    ensures
        left >= 4,
        ({
            let (peer, result) = exchange::run_exchange(step, world.peer, actions);
            run_worker(exchange_part(step, gpa, buf_size, notify), world, fuel) == run_worker(
                exchange_part(
                    ExchangeStep::<Seq<u8>, E>::Finished(result->0),
                    gpa,
                    buf_size,
                    notify,
                ),
                World { peer, ..world },
                left,
            )
        }),
    decreases actions,
{
    match step {
        Progress::Finished(_) => fuel,
        Progress::Perform { action, state } => {
            let (peer, event) = exchange::transmit::<E>(world.peer, action);
            lemma_exchange_part(
                exchange::exchange_next(state, event),
                gpa,
                buf_size,
                notify,
                World { peer, ..world },
                (actions - 1) as nat,
                (fuel - 1) as nat,
            )
        },
    }
}

/// The completion of a worker goes as a completion by itself does.
proof fn lemma_write_part<E>(
    step: WriteStep<Seq<u8>>,
    notify: bool,
    error_code: u64,
    failure: Option<Failure<E>>,
    world: World<E>,
    actions: nat,
    fuel: nat,
) -> (left: nat)
    requires
        complete::run_write(step, world.mem, actions).1 is Some,
        fuel >= actions + 1,
    ensures
        left >= 1,
        ({
            let (mem, result) = complete::run_write(step, world.mem, actions);
            run_worker(write_part(step, notify, error_code, failure), world, fuel) == run_worker(
                write_part(
                    WriteStep::<Seq<u8>>::Finished(result->0),
                    notify,
                    error_code,
                    failure,
                ),
                World { mem, ..world },
                left,
            )
        }),
    decreases actions,
{
    match step {
        Progress::Finished(_) => fuel,
        Progress::Perform { action, state } => {
            let (mem, event) = guest::serve(world.mem, action);
            lemma_write_part(
                complete::write_next(state, event),
                notify,
                error_code,
                failure,
                World { mem, ..world },
                (actions - 1) as nat,
                (fuel - 1) as nat,
            )
        },
    }
}

/// What a worker does in all, over any connection, whenever it fails: it asks the service
/// once for the report, completes the buffer with the answer that the exchange gives,
/// triggers the interrupt once if there is one, and reports what it did.
pub proof fn law_worker<E>(
    gpa: u64,
    buf_size: u64,
    in_message: Seq<u8>,
    notify: bool,
    world: World<E>,
    fuel: nat,
)
    requires
        guest::mapped(world.mem, gpa as int, 24) && answer_of(
            exchange::exchange_result(message::get_quote_req(in_message), world.peer),
        ).quote is Some ==> gpa + TDX_GET_QUOTE_HDR_SIZE <= u64::MAX,
        fuel >= world.peer.incoming.len() + 8,
    ensures
        ({
            let start = worker_next::<E>(
                WorkerState::Start { gpa, buf_size, in_message, notify },
                WorkerEvent::Begin,
            );
            let (after, report) = run_worker(start, world, fuel);
            let msg = message::get_quote_req(in_message);
            let answer = answer_of(exchange::exchange_result(msg, world.peer));
            let (mem, written) = complete::write_on(
                world.mem,
                gpa,
                buf_size,
                answer.error_code,
                answer.quote,
            );
            &&& after.peer.sent == world.peer.sent + exchange::exchange_sends(msg, world.peer)
            &&& after.mem == mem
            &&& after.triggered == if notify {
                world.triggered.push(0)
            } else {
                world.triggered
            }
            &&& report == Some(
                WorkerReport {
                    error_code: answer.error_code,
                    out_len: written->0,
                    failure: answer.failure,
                },
            )
        }),
{
    let msg = message::get_quote_req(in_message);
    let first = exchange::first_step::<E>(msg);
    let actions = world.peer.incoming.len() + 4;
    exchange::law_exchange::<E>(msg, world.peer, actions);
    let left = lemma_exchange_part(first, gpa, buf_size, notify, world, actions, fuel);
    let (peer, result) = exchange::run_exchange(first, world.peer, actions);
    let answer = answer_of(result->0);
    let asked = World { peer, ..world };
    complete::law_write(world.mem, gpa, buf_size, answer.error_code, answer.quote);
    let write = complete::write_next(
        WriteState::Start {
            gpa,
            buf_size,
            error_code: answer.error_code,
            quote: answer.quote,
        },
        MemEvent::Begin,
    );
    lemma_write_part(
        write,
        notify,
        answer.error_code,
        answer.failure,
        asked,
        3,
        left,
    );
    reveal_with_fuel(run_worker, 2);
}

/// A worker never leaves a request in flight: the code that it answers with is one of
/// the other three, and it says success if and only if there is a quote.
pub proof fn law_answer_is_final<E>(result: Result<Seq<u8>, QgsError<E>>)
    ensures
        answer_of(result).error_code != TDX_VP_GET_QUOTE_IN_FLIGHT,
        answer_of(result).error_code == TDX_VP_GET_QUOTE_SUCCESS <==> answer_of(
            result,
        ).quote is Some,
        answer_of(result).error_code == TDX_VP_GET_QUOTE_QGS_UNAVAILABLE <==> result is Err,
        answer_of(result).failure is None <==> answer_of(result).quote is Some,
{
}

/// Wherever in the exchange the transport fails, the guest is told that the service is
/// unavailable, gets no quote, and is interrupted all the same.
pub proof fn law_worker_without_service<E>(
    gpa: u64,
    buf_size: u64,
    notify: bool,
    exchange: ExchangeState<Seq<u8>>,
    error: E,
    world: World<E>,
    fuel: nat,
)
    requires
        fuel >= 4,
    ensures
        ({
            let failed = worker_next(
                WorkerState::Exchange { gpa, buf_size, notify, exchange },
                WorkerEvent::Qgs(QgsEvent::Failed(error)),
            );
            let (after, report) = run_worker(failed, world, fuel);
            let (mem, _) = complete::write_on(
                world.mem,
                gpa,
                buf_size,
                TDX_VP_GET_QUOTE_QGS_UNAVAILABLE,
                None,
            );
            &&& after.mem == mem
            &&& after.peer == world.peer
            &&& after.triggered == if notify {
                world.triggered.push(0)
            } else {
                world.triggered
            }
            &&& report == Some(
                WorkerReport {
                    error_code: TDX_VP_GET_QUOTE_QGS_UNAVAILABLE,
                    out_len: 0,
                    failure: Some(Failure::NoResponse(QgsError::Transport(error))),
                },
            )
        }),
{
    let code = TDX_VP_GET_QUOTE_QGS_UNAVAILABLE;
    exchange::law_transport_error_ends_exchange(exchange, error);
    complete::law_write(world.mem, gpa, buf_size, code, None);
    let write = complete::write_next(
        WriteState::Start { gpa, buf_size, error_code: code, quote: None },
        MemEvent::Begin,
    );
    lemma_write_part(
        write,
        notify,
        code,
        Some(Failure::NoResponse(QgsError::Transport(error))),
        world,
        3,
        fuel,
    );
    reveal_with_fuel(run_worker, 2);
}

/// The state in which an action is asked for accepts every event that the action can
/// lead to.
pub proof fn law_worker_goes_on<E>(
    state: WorkerState<Seq<u8>, E>,
    event: WorkerEvent<Seq<u8>, E>,
    answer: WorkerEvent<Seq<u8>, E>,
)
    requires
        worker_accepts(state, event),
        state matches WorkerState::Write {
            write: WriteState::ReadHeader { gpa, quote: Some(_), .. },
            ..
        } ==> (answer == WorkerEvent::<Seq<u8>, E>::Memory(MemEvent::Written) ==> gpa
            + TDX_GET_QUOTE_HDR_SIZE <= u64::MAX),
    ensures
        worker_next(state, event) matches Progress::Perform { action, state: next } ==> (
        worker_answers(answer, action) ==> worker_accepts(next, answer)),
{
}

/// Whether `event` is what `action` can lead to.
pub open spec fn worker_answers<E>(
    event: WorkerEvent<Seq<u8>, E>,
    action: WorkerAction<Seq<u8>>,
) -> bool {
    match (event, action) {
        (WorkerEvent::Qgs(event), WorkerAction::Qgs(action)) => exchange::qgs_answers(
            event,
            action,
        ),
        (WorkerEvent::Memory(event), WorkerAction::Memory(action)) => guest::answers(
            event,
            action,
        ),
        (WorkerEvent::Triggered, WorkerAction::Trigger(_)) => true,
        _ => false,
    }
}

/// Runs a worker on whatever its actions lead to, one event after the other: the actions
/// that it asks for, and its report.
pub open spec fn worker_by<E>(
    step: WorkerStep<Seq<u8>, E>,
    events: Seq<WorkerEvent<Seq<u8>, E>>,
) -> (Seq<WorkerAction<Seq<u8>>>, Option<WorkerReport<E>>)
    decreases events.len(),
{
    match step {
        Progress::Finished(report) => (Seq::empty(), Some(report)),
        Progress::Perform { action, state } => if events.len() == 0 {
            (seq![action], None)
        } else {
            let (rest, report) = worker_by(worker_next(state, events[0]), events.drop_first());
            (seq![action] + rest, report)
        },
    }
}

/// Whether there is an interrupt to trigger, in a state that has not triggered it.
spec fn wants_interrupt<E>(state: WorkerState<Seq<u8>, E>) -> bool {
    match state {
        WorkerState::Start { notify, .. } => notify,
        WorkerState::Exchange { notify, .. } => notify,
        WorkerState::Write { notify, .. } => notify,
        WorkerState::Notify { .. } => true,
    }
}

/// Only the last of `actions` is the interrupt, and none where it is not wanted; a run
/// that ended has triggered it where it is wanted.
spec fn interrupt_is_last(
    actions: Seq<WorkerAction<Seq<u8>>>,
    notify: bool,
    ended: bool,
) -> bool {
    &&& forall|i: int| 0 <= i < actions.len() - 1 ==> !(#[trigger] actions[i] is Trigger)
    &&& !notify ==> forall|i: int| 0 <= i < actions.len() ==> !(#[trigger] actions[i] is Trigger)
    &&& ended && notify ==> actions.len() > 0 && actions.last() == WorkerAction::<
        Seq<u8>,
    >::Trigger(0)
}

/// What a worker asks for from a state on in which the interrupt was not asked for.
proof fn lemma_interrupt_is_last<E>(
    state: WorkerState<Seq<u8>, E>,
    events: Seq<WorkerEvent<Seq<u8>, E>>,
)
    requires
        state !is Notify,
        events.len() > 0,
    ensures
        ({
            let (actions, report) = worker_by(
                worker_next(state, events[0]),
                events.drop_first(),
            );
            interrupt_is_last(actions, wants_interrupt(state), report is Some)
        }),
    decreases events.len(),
{
    let rest = events.drop_first();
    let step = worker_next(state, events[0]);
    if let Progress::Perform { action, state: next } = step {
        assert(wants_interrupt(next) == wants_interrupt(state));
        if rest.len() > 0 {
            let after = worker_by(worker_next(next, rest[0]), rest.drop_first());
            if next is Notify {
                assert(after.0 =~= Seq::empty());
                assert((seq![action] + after.0).last() == action);
            } else {
                lemma_interrupt_is_last(next, rest);
                let actions = seq![action] + after.0;
                assert(forall|i: int| 0 < i < actions.len() ==> actions[i] == after.0[i - 1]);
                if after.0.len() > 0 {
                    assert(actions.last() == after.0.last());
                }
            }
        }
    }
}

/// Whatever the memory and the service do, a run of a worker asks for the interrupt never
/// where there is none, and otherwise only as its last action; and where there is one, a
/// run that ended has triggered it, once.
pub proof fn law_interrupt_comes_last<E>(
    gpa: u64,
    buf_size: u64,
    in_message: Seq<u8>,
    notify: bool,
    events: Seq<WorkerEvent<Seq<u8>, E>>,
)
    ensures
        ({
            let start = worker_next::<E>(
                WorkerState::Start { gpa, buf_size, in_message, notify },
                WorkerEvent::Begin,
            );
            let (actions, report) = worker_by(start, events);
            let count = actions.len() as int;
            &&& forall|i: int| 0 <= i < count - 1 ==> !(#[trigger] actions[i] is Trigger)
            &&& !notify ==> forall|i: int|
                0 <= i < count ==> !(#[trigger] actions[i] is Trigger)
            &&& report is Some && notify ==> count > 0 && actions[count - 1]
                == WorkerAction::<Seq<u8>>::Trigger(0)
        }),
{
    let begin = seq![WorkerEvent::<Seq<u8>, E>::Begin] + events;
    assert(begin.drop_first() =~= events);
    lemma_interrupt_is_last(
        WorkerState::<Seq<u8>, E>::Start { gpa, buf_size, in_message, notify },
        begin,
    );
}

/// A worker ends only after the completion of the buffer has ended: by the interrupt
/// where there is one, else by the last access.
pub proof fn law_worker_ends_after_writing<E>(
    state: WorkerState<Seq<u8>, E>,
    event: WorkerEvent<Seq<u8>, E>,
)
    requires
        worker_accepts(state, event),
    ensures
        worker_next(state, event) is Finished <==> {
            ||| state is Notify
            ||| state matches WorkerState::Write { notify, write, .. } && !notify
                && complete::write_next(write, event->Memory_0) is Finished
        },
{
}

/// Where there is no response the guest is told that the service is unavailable, and why is
/// reported.
pub proof fn law_answer_to_silence<E>(error: QgsError<E>)
    ensures
        answer_of(Err::<Seq<u8>, QgsError<E>>(error)) == (Answer::<Seq<u8>, E> {
            error_code: 0x8000_0000_0000_0001,
            quote: None,
            failure: Some(Failure::NoResponse(error)),
        }),
{
}

/// A response answers with success and its quote where its bytes hold one, and otherwise
/// with an error, no quote, and what is wrong: its type and its error code, unless they are 1
/// and 0 or are not there.
pub proof fn law_answer_to_response<E>(resp: Seq<u8>)
    ensures
        ({
            let answer = answer_of(Ok::<Seq<u8>, QgsError<E>>(resp));
            let kind = resp[4] + 0x100 * resp[5] + 0x1_0000 * resp[6] + 0x100_0000 * resp[7];
            let code = resp[12] + 0x100 * resp[13] + 0x1_0000 * resp[14] + 0x100_0000
                * resp[15];
            let id_size = resp[16] + 0x100 * resp[17] + 0x1_0000 * resp[18] + 0x100_0000
                * resp[19];
            let quote_size = resp[20] + 0x100 * resp[21] + 0x1_0000 * resp[22] + 0x100_0000
                * resp[23];
            if resp.len() < 24 {
                &&& answer.error_code == 0x8000_0000_0000_0000
                &&& answer.quote is None
                &&& answer.failure == Some(Failure::<E>::Malformed)
            } else if kind != 1 || code != 0 {
                &&& answer.error_code == 0x8000_0000_0000_0000
                &&& answer.quote is None
                &&& answer.failure matches Some(Failure::Unexpected(fields))
                &&& fields.resp_type == kind
                &&& fields.error_code == code
            } else if 24 + id_size + quote_size > resp.len() {
                &&& answer.error_code == 0x8000_0000_0000_0000
                &&& answer.quote is None
                &&& answer.failure == Some(Failure::<E>::Malformed)
            } else {
                &&& answer.error_code == 0
                &&& answer.quote == Some(
                    resp.subrange(24 + id_size, 24 + id_size + quote_size),
                )
                &&& answer.failure is None
            }
        }),
{
    message::law_response_bytes(resp);
    message::law_unexpected_bytes(resp);
    if let Some(quote) = message::quote_of_response(resp) {
        let id_size = resp[16] + 0x100 * resp[17] + 0x1_0000 * resp[18] + 0x100_0000 * resp[19];
        assert(quote =~= resp.subrange(24 + id_size, 24 + id_size + quote.len()));
    }
}

/// How a worker goes from one part to the next: it asks for exactly the request for the
/// report that it was given; once the exchange is over, it completes the buffer that it was
/// given with the answer to the outcome; once that is over, it triggers interrupt 0, if there
/// is one; and then it reports the code, the number of bytes written, and what went wrong.
pub proof fn law_worker_parts<E>(
    gpa: u64,
    buf_size: u64,
    in_message: Seq<u8>,
    notify: bool,
    exchange: ExchangeState<Seq<u8>>,
    qgs_event: QgsEvent<Seq<u8>, E>,
    error_code: u64,
    failure: Option<Failure<E>>,
    write: WriteState<Seq<u8>>,
    mem_event: MemEvent<Seq<u8>>,
    report: WorkerReport<E>,
)
    ensures
        worker_next::<E>(
            WorkerState::Start { gpa, buf_size, in_message, notify },
            WorkerEvent::Begin,
        ) == (WorkerStep::<Seq<u8>, E>::Perform {
            action: WorkerAction::Qgs(QgsAction::Connect),
            state: WorkerState::Exchange {
                gpa,
                buf_size,
                notify,
                exchange: ExchangeState::Connect { msg: message::get_quote_req(in_message) },
            },
        }),
        ({
            let next = worker_next(
                WorkerState::Exchange { gpa, buf_size, notify, exchange },
                WorkerEvent::Qgs(qgs_event),
            );
            match exchange::exchange_next(exchange, qgs_event) {
                Progress::Perform { action, state } => next == (WorkerStep::<
                    Seq<u8>,
                    E,
                >::Perform {
                    action: WorkerAction::Qgs(action),
                    state: WorkerState::Exchange { gpa, buf_size, notify, exchange: state },
                }),
                Progress::Finished(result) => {
                    let answer = answer_of(result);
                    next == (WorkerStep::<Seq<u8>, E>::Perform {
                        action: WorkerAction::Memory(MemAction::Read { gpa, len: 24 }),
                        state: WorkerState::Write {
                            notify,
                            error_code: answer.error_code,
                            failure: answer.failure,
                            write: WriteState::ReadHeader {
                                gpa,
                                buf_size,
                                error_code: answer.error_code,
                                quote: answer.quote,
                            },
                        },
                    })
                },
            }
        }),
        ({
            let next = worker_next(
                WorkerState::Write { notify, error_code, failure, write },
                WorkerEvent::Memory(mem_event),
            );
            match complete::write_next(write, mem_event) {
                Progress::Perform { action, state } => next == (WorkerStep::<
                    Seq<u8>,
                    E,
                >::Perform {
                    action: WorkerAction::Memory(action),
                    state: WorkerState::Write { notify, error_code, failure, write: state },
                }),
                Progress::Finished(out_len) => {
                    let told = WorkerReport { error_code, out_len, failure };
                    if notify {
                        next == (WorkerStep::<Seq<u8>, E>::Perform {
                            action: WorkerAction::Trigger(0),
                            state: WorkerState::Notify { report: told },
                        })
                    } else {
                        next == WorkerStep::<Seq<u8>, E>::Finished(told)
                    }
                },
            }
        }),
        worker_next::<E>(WorkerState::Notify { report }, WorkerEvent::Triggered) == WorkerStep::<
            Seq<u8>,
            E,
        >::Finished(report),
{
}

/// A worker can begin with any request, goes on with what its exchange and its completion go
/// on with, and with the interrupt.
pub proof fn law_worker_accepts<E>(
    gpa: u64,
    buf_size: u64,
    in_message: Seq<u8>,
    notify: bool,
    exchange: ExchangeState<Seq<u8>>,
    qgs_event: QgsEvent<Seq<u8>, E>,
    error_code: u64,
    failure: Option<Failure<E>>,
    write: WriteState<Seq<u8>>,
    mem_event: MemEvent<Seq<u8>>,
    report: WorkerReport<E>,
)
    ensures
        worker_accepts::<E>(
            WorkerState::Start { gpa, buf_size, in_message, notify },
            WorkerEvent::Begin,
        ),
        exchange::exchange_accepts(exchange, qgs_event) ==> worker_accepts(
            WorkerState::Exchange { gpa, buf_size, notify, exchange },
            WorkerEvent::Qgs(qgs_event),
        ),
        complete::write_accepts(write, mem_event) ==> worker_accepts(
            WorkerState::Write { notify, error_code, failure, write },
            WorkerEvent::Memory(mem_event),
        ),
        worker_accepts::<E>(WorkerState::Notify { report }, WorkerEvent::Triggered),
{
}

/// A step of a worker is seen with the contents of its buffers, and as it is otherwise.
pub proof fn law_worker_views<E>(
    gpa: u64,
    buf_size: u64,
    in_message: Vec<u8>,
    notify: bool,
    exchange: ExchangeState<Vec<u8>>,
    error_code: u64,
    quote: Option<Vec<u8>>,
    failure: Option<Failure<E>>,
    write: WriteState<Vec<u8>>,
    report: WorkerReport<E>,
    index: u32,
    qgs_action: QgsAction<Vec<u8>>,
    mem_action: MemAction<Vec<u8>>,
    qgs_event: QgsEvent<Vec<u8>, E>,
    mem_event: MemEvent<Vec<u8>>,
    action: WorkerAction<Vec<u8>>,
    state: WorkerState<Vec<u8>, E>,
)
    ensures
        WorkerAction::Qgs(qgs_action)@ == WorkerAction::Qgs(qgs_action@),
        WorkerAction::Memory(mem_action)@ == WorkerAction::Memory(mem_action@),
        WorkerAction::<Vec<u8>>::Trigger(index)@ == WorkerAction::<Seq<u8>>::Trigger(index),
        WorkerEvent::<Vec<u8>, E>::Begin@ == WorkerEvent::<Seq<u8>, E>::Begin,
        WorkerEvent::Qgs(qgs_event)@ == WorkerEvent::Qgs(qgs_event@),
        WorkerEvent::<Vec<u8>, E>::Memory(mem_event)@ == WorkerEvent::<Seq<u8>, E>::Memory(
            mem_event@,
        ),
        WorkerEvent::<Vec<u8>, E>::Triggered@ == WorkerEvent::<Seq<u8>, E>::Triggered,
        (WorkerState::<Vec<u8>, E>::Start { gpa, buf_size, in_message, notify })@ == (
        WorkerState::<Seq<u8>, E>::Start { gpa, buf_size, in_message: in_message@, notify }),
        (WorkerState::<Vec<u8>, E>::Exchange { gpa, buf_size, notify, exchange })@ == (
        WorkerState::<Seq<u8>, E>::Exchange { gpa, buf_size, notify, exchange: exchange@ }),
        (WorkerState::Write { notify, error_code, failure, write })@ == (WorkerState::Write {
            notify,
            error_code,
            failure,
            write: write@,
        }),
        (WorkerState::<Vec<u8>, E>::Notify { report })@ == (WorkerState::<Seq<u8>, E>::Notify {
            report,
        }),
        (WorkerStep::<Vec<u8>, E>::Perform { action, state })@ == (WorkerStep::<
            Seq<u8>,
            E,
        >::Perform { action: action@, state: state@ }),
        WorkerStep::<Vec<u8>, E>::Finished(report)@ == WorkerStep::<Seq<u8>, E>::Finished(
            report,
        ),
        (Answer { error_code, quote, failure })@ == (Answer {
            error_code,
            quote: complete::contents(quote),
            failure,
        }),
{
}

} // verus!

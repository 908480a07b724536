//! What a guest gets for a quote request in all.
use vstd::prelude::*;
use crate::bytes;
use crate::complete;
use crate::exchange;
use crate::exchange::{Peer, QgsError};
use crate::guest;
use crate::guest::GuestMemory;
use crate::header;
use crate::header::{
    QuoteHeader, TDX_GET_QUOTE_HDR_SIZE, TDX_VP_GET_QUOTE_IN_FLIGHT,
    TDX_VP_GET_QUOTE_QGS_UNAVAILABLE, TDX_VP_GET_QUOTE_SUCCESS,
};
use crate::message;
use crate::take;
use crate::worker;
use crate::worker::{Failure, WorkerEvent, WorkerReport, WorkerState, World};

verus! {

broadcast use crate::bytes::lemma_le_bytes_len;

/// The header at `gpa`.
pub open spec fn header_at(mem: GuestMemory, gpa: u64) -> QuoteHeader {
    header::header_of(guest::bytes_at(mem, gpa as int, 24))
}

/// A buffer at `gpa` that holds `report` as a request.
pub open spec fn holds_request(
    mem: GuestMemory,
    gpa: u64,
    buf_size: u64,
    report: Seq<u8>,
) -> bool {
    &&& gpa + TDX_GET_QUOTE_HDR_SIZE <= u64::MAX
    &&& guest::mapped(mem, gpa as int, buf_size as nat)
    &&& header_at(mem, gpa).structure_version == 1
    &&& header_at(mem, gpa).in_len == report.len()
    &&& 0 < report.len()
    &&& TDX_GET_QUOTE_HDR_SIZE + report.len() <= buf_size
    &&& guest::bytes_at(mem, gpa + 24, report.len()) == report
}

/// A request that was taken is in flight: the guest sees that in its header, and all
/// else in its memory is as it was.
pub proof fn law_request_is_taken(mem: GuestMemory, gpa: u64, buf_size: u64, report: Seq<u8>)
    requires
        holds_request(mem, gpa, buf_size, report),
    ensures
        ({
            let (after, result) = take::take_on(mem, gpa, buf_size);
            &&& result == Some(Ok::<Seq<u8>, take::TakeError>(report))
            &&& after.dom() == mem.dom()
            &&& header_at(after, gpa) == take::in_flight(header_at(mem, gpa))
            &&& forall|a: int|
                mem.contains_key(a) && !(gpa + 8 <= a < gpa + 16) ==> #[trigger] after[a] == mem[a]
        }),
{
    let before = header_at(mem, gpa);
    let after = take::take_on(mem, gpa, buf_size).0;
    let marked = take::in_flight(before);
    let code = bytes::le_bytes(TDX_VP_GET_QUOTE_IN_FLIGHT as nat, 8);
    assert(guest::mapped(mem, gpa as int, 24));
    assert(guest::mapped(mem, gpa + 24, report.len()));
    take::law_take(mem, gpa, buf_size);
    assert(after == guest::with_bytes(mem, gpa + 8, code));
    assert(after.dom() =~= mem.dom());
    header::law_header_encodes(guest::bytes_at(mem, gpa as int, 24));
    header::law_header_decodes(marked, Seq::empty());
    let old_bytes = guest::bytes_at(mem, gpa as int, 24);
    let new_bytes = guest::bytes_at(after, gpa as int, 24);
    assert(old_bytes == before.bytes());
    assert(forall|i: int| 0 <= i < 8 ==> marked.bytes()[i] == old_bytes[i]);
    assert(forall|i: int| 8 <= i < 16 ==> marked.bytes()[i] == code[i - 8]);
    assert(forall|i: int| 16 <= i < 24 ==> marked.bytes()[i] == old_bytes[i]);
    assert forall|i: int| 0 <= i < 24 implies new_bytes[i] == marked.bytes()[i] by {
        assert(mem.contains_key(gpa + i));
        assert(new_bytes[i] == after[gpa + i]);
        assert(old_bytes[i] == mem[gpa + i]);
    }
    assert(new_bytes =~= marked.bytes() + Seq::empty());
}

/// A guest that shares a report gets the quote that the service gives for it: the
/// service is asked for exactly that report; behind the header stands the quote, or as
/// much of it as the buffer holds; the header says success, gives the length of what
/// stands there and keeps what the guest wrote; and the guest is interrupted, if it wants
/// to be.
pub proof fn law_guest_gets_quote<E>(
    world: World<E>,
    gpa: u64,
    buf_size: u64,
    notify: bool,
    report: Seq<u8>,
    resp: Seq<u8>,
    quote: Seq<u8>,
    rest: Seq<u8>,
    fuel: nat,
)
    requires
        holds_request(world.mem, gpa, buf_size, report),
        1 <= resp.len() <= 262144,
        message::quote_of_response(resp) == Some(quote),
        world.peer.incoming == exchange::frame(resp) + rest,
        !exchange::breaks_off(message::get_quote_req(report), world.peer),
        fuel >= world.peer.incoming.len() + 8,
    ensures
        ({
            let (taken, in_message) = take::take_on(world.mem, gpa, buf_size);
            let start = worker::worker_next::<E>(
                WorkerState::Start { gpa, buf_size, in_message: in_message->0->Ok_0, notify },
                WorkerEvent::Begin,
            );
            let (after, done) = worker::run_worker(start, World { mem: taken, ..world }, fuel);
            let fits = complete::fitting(quote, buf_size);
            &&& after.peer.sent == world.peer.sent + exchange::frame(
                message::get_quote_req(report),
            )
            &&& header_at(after.mem, gpa) == QuoteHeader {
                error_code: TDX_VP_GET_QUOTE_SUCCESS,
                out_len: fits as u32,
                ..header_at(world.mem, gpa)
            }
            &&& guest::bytes_at(after.mem, gpa + 24, fits) == quote.take(fits as int)
            &&& TDX_GET_QUOTE_HDR_SIZE + quote.len() <= buf_size ==> quote.take(fits as int)
                == quote
            &&& after.triggered == if notify {
                world.triggered.push(0)
            } else {
                world.triggered
            }
            &&& done == Some(
                WorkerReport::<E> {
                    error_code: TDX_VP_GET_QUOTE_SUCCESS,
                    out_len: fits as u32,
                    failure: None,
                },
            )
        }),
{
    let taken = take::take_on(world.mem, gpa, buf_size).0;
    let asked = World { mem: taken, ..world };
    let fits = complete::fitting(quote, buf_size);
    law_request_is_taken(world.mem, gpa, buf_size, report);
    exchange::law_frame_is_read_back::<E>(resp, rest);
    assert(guest::mapped(taken, gpa as int, 24));
    assert(guest::mapped(taken, gpa + 24, fits));
    worker::law_worker::<E>(gpa, buf_size, report, notify, asked, fuel);
    complete::law_write(taken, gpa, buf_size, TDX_VP_GET_QUOTE_SUCCESS, Some(quote));
    complete::law_write_keeps_guest_fields(
        taken,
        gpa,
        buf_size,
        TDX_VP_GET_QUOTE_SUCCESS,
        Some(quote),
    );
    let after = complete::write_on(
        taken,
        gpa,
        buf_size,
        TDX_VP_GET_QUOTE_SUCCESS,
        Some(quote),
    ).0;
    assert(guest::bytes_at(after, gpa + 24, fits) =~= quote.take(fits as int));
}

/// A guest whose request was taken is never left without an answer, whatever the
/// service sends and whenever the connection fails: the header no longer says in flight,
/// says success if and only if there is a quote, and keeps what the guest wrote; and the
/// guest is interrupted once, if it wants to be.
pub proof fn law_guest_is_answered<E>(
    world: World<E>,
    gpa: u64,
    buf_size: u64,
    notify: bool,
    report: Seq<u8>,
    fuel: nat,
)
    requires
        holds_request(world.mem, gpa, buf_size, report),
        fuel >= world.peer.incoming.len() + 8,
    ensures
        ({
            let (taken, in_message) = take::take_on(world.mem, gpa, buf_size);
            let start = worker::worker_next::<E>(
                WorkerState::Start { gpa, buf_size, in_message: in_message->0->Ok_0, notify },
                WorkerEvent::Begin,
            );
            let (after, done) = worker::run_worker(start, World { mem: taken, ..world }, fuel);
            let answer = worker::answer_of(
                exchange::exchange_result(message::get_quote_req(report), world.peer),
            );
            let header = header_at(after.mem, gpa);
            &&& header == complete::completed(
                header_at(world.mem, gpa),
                buf_size,
                answer.error_code,
                answer.quote,
            )
            &&& header.error_code != TDX_VP_GET_QUOTE_IN_FLIGHT
            &&& header.error_code == TDX_VP_GET_QUOTE_SUCCESS <==> answer.quote is Some
            &&& header.error_code == 0 || header.error_code == 0x8000_0000_0000_0000
                || header.error_code == 0x8000_0000_0000_0001
            &&& header.error_code != 0 ==> header.out_len == 0
            &&& header.structure_version == 1
            &&& header.in_len == report.len()
            &&& after.triggered == if notify {
                world.triggered.push(0)
            } else {
                world.triggered
            }
            &&& done is Some
            &&& done->0.error_code == answer.error_code
            &&& done->0.failure == answer.failure
        }),
{
    let taken = take::take_on(world.mem, gpa, buf_size).0;
    let asked = World { mem: taken, ..world };
    let result = exchange::exchange_result(message::get_quote_req(report), world.peer);
    let answer = worker::answer_of(result);
    law_request_is_taken(world.mem, gpa, buf_size, report);
    assert(guest::mapped(taken, gpa as int, 24));
    worker::law_worker::<E>(gpa, buf_size, report, notify, asked, fuel);
    worker::law_answer_is_final::<E>(result);
    complete::law_write_keeps_guest_fields(
        taken,
        gpa,
        buf_size,
        answer.error_code,
        answer.quote,
    );
}

/// A guest whose request was taken is told that the service is unavailable, after however
/// many actions of the exchange the connection fails: the header says so, gives no quote
/// and keeps what the guest wrote; the rest of the memory is as the guest left it; the
/// guest is interrupted once, if it wants to be; and the error of the connection is
/// reported.
pub proof fn law_guest_is_told_of_failure<E>(
    world: World<E>,
    gpa: u64,
    buf_size: u64,
    notify: bool,
    report: Seq<u8>,
    lasts: nat,
    error: E,
    fuel: nat,
)
    requires
        holds_request(world.mem, gpa, buf_size, report),
        world.peer.fails_after == Some((lasts, error)),
        exchange::breaks_off(message::get_quote_req(report), world.peer),
        fuel >= world.peer.incoming.len() + 8,
    ensures
        ({
            let (taken, in_message) = take::take_on(world.mem, gpa, buf_size);
            let start = worker::worker_next::<E>(
                WorkerState::Start { gpa, buf_size, in_message: in_message->0->Ok_0, notify },
                WorkerEvent::Begin,
            );
            let (after, done) = worker::run_worker(start, World { mem: taken, ..world }, fuel);
            &&& header_at(after.mem, gpa) == complete::completed(
                header_at(world.mem, gpa),
                buf_size,
                TDX_VP_GET_QUOTE_QGS_UNAVAILABLE,
                None,
            )
            &&& header_at(after.mem, gpa) == (QuoteHeader {
                structure_version: 1,
                error_code: 0x8000_0000_0000_0001,
                in_len: report.len() as u32,
                out_len: 0,
            })
            &&& forall|a: int| gpa + 20 <= a < gpa + 24 ==> #[trigger] after.mem[a] == 0
            &&& after.mem.dom() == world.mem.dom()
            &&& forall|a: int|
                world.mem.contains_key(a) && !(gpa <= a < gpa + 24)
                    ==> #[trigger] after.mem[a] == world.mem[a]
            &&& after.triggered == if notify {
                world.triggered.push(0)
            } else {
                world.triggered
            }
            &&& done == Some(
                WorkerReport::<E> {
                    error_code: TDX_VP_GET_QUOTE_QGS_UNAVAILABLE,
                    out_len: 0,
                    failure: Some(Failure::NoResponse(QgsError::Transport(error))),
                },
            )
        }),
{
    let code = TDX_VP_GET_QUOTE_QGS_UNAVAILABLE;
    let taken = take::take_on(world.mem, gpa, buf_size).0;
    let asked = World { mem: taken, ..world };
    law_request_is_taken(world.mem, gpa, buf_size, report);
    assert(guest::mapped(taken, gpa as int, 24));
    worker::law_worker::<E>(gpa, buf_size, report, notify, asked, fuel);
    complete::law_write(taken, gpa, buf_size, code, None);
    complete::law_write_keeps_guest_fields(taken, gpa, buf_size, code, None);
    complete::law_completed_memory(taken, gpa, buf_size, code, None);
}

/// The answer that a connection gives which does not fail, by the bytes that come in.
proof fn lemma_answer_bytes<E>(msg: Seq<u8>, peer: Peer<E>)
    requires
        peer.fails_after is None,
    ensures
        ({
            let answer = worker::answer_of(exchange::exchange_result(msg, peer));
            let came = peer.incoming;
            let size = came[3] + 0x100 * came[2] + 0x1_0000 * came[1] + 0x100_0000 * came[0];
            let responded = 4 <= came.len() && 1 <= size <= 262144 && 4 + size <= came.len();
            let r = came.subrange(4, 4 + size);
            let id_size = r[16] + 0x100 * r[17] + 0x1_0000 * r[18] + 0x100_0000 * r[19];
            let quote_size = r[20] + 0x100 * r[21] + 0x1_0000 * r[22] + 0x100_0000 * r[23];
            let carries = {
                &&& responded
                &&& 24 <= r.len()
                &&& r[4] == 1 && r[5] == 0 && r[6] == 0 && r[7] == 0
                &&& r[12] == 0 && r[13] == 0 && r[14] == 0 && r[15] == 0
                &&& 24 + id_size + quote_size <= r.len()
            };
            &&& answer.failure is None <==> carries
            &&& carries ==> answer.error_code == 0 && answer.quote == Some(
                r.subrange(24 + id_size, 24 + id_size + quote_size),
            )
            &&& !carries ==> answer.quote is None
            &&& !responded ==> answer.error_code == 0x8000_0000_0000_0001
            &&& responded && !carries ==> answer.error_code == 0x8000_0000_0000_0000
        }),
{
    let actions = (peer.incoming.len() + 4) as nat;
    exchange::law_exchange(msg, peer, actions);
    exchange::law_exchange_bytes(msg, peer, actions);
    match exchange::exchange_result(msg, peer) {
        Ok(resp) => {
            worker::law_answer_to_response::<E>(resp);
        },
        Err(error) => {
            worker::law_answer_to_silence::<E>(error);
        },
    }
}

/// What is sent for a report over a connection that does not fail, byte by byte.
proof fn lemma_sent_bytes<E>(report: Seq<u8>, peer: Peer<E>)
    requires
        peer.fails_after is None,
    ensures
        ({
            let msg = message::get_quote_req(report);
            let sent = (peer.sent + exchange::exchange_sends(msg, peer)).skip(
                peer.sent.len() as int,
            );
            &&& sent.len() == 28 + report.len()
            &&& sent[3] + 0x100 * sent[2] + 0x1_0000 * sent[1] + 0x100_0000 * sent[0] == (24
                + report.len()) % 0x1_0000_0000
            &&& sent.subrange(4, 12) == seq![1u8, 0, 1, 0, 0, 0, 0, 0]
            &&& forall|i: int| 0 <= i < report.len() ==> #[trigger] sent[28 + i] == report[i]
        }),
{
    let msg = message::get_quote_req(report);
    let framed = exchange::exchange_sends(msg, peer);
    let sent = (peer.sent + framed).skip(peer.sent.len() as int);
    assert(sent =~= framed);
    bytes::law_four_bytes_show(msg.len());
    message::law_request_bytes(report);
    assert forall|i: int| 0 <= i < report.len() implies #[trigger] sent[28 + i] == report[i] by {
        assert(sent[28 + i] == msg[24 + i]);
    }
    assert(forall|i: int| 0 <= i < msg.len() ==> sent[4 + i] == #[trigger] msg[i]);
    assert(sent.subrange(4, 12) =~= seq![1u8, 0, 1, 0, 0, 0, 0, 0]);
}

/// What a taking and then a completion leave in a memory, byte by byte.
proof fn lemma_memory_bytes(
    mem: GuestMemory,
    gpa: u64,
    buf_size: u64,
    report: Seq<u8>,
    error_code: u64,
    quote: Option<Seq<u8>>,
)
    requires
        gpa + 24 <= u64::MAX,
        forall|a: int| gpa <= a < gpa + buf_size ==> #[trigger] mem.contains_key(a),
        mem[gpa as int] == 1,
        forall|a: int| gpa + 1 <= a < gpa + 8 ==> #[trigger] mem[a] == 0,
        mem[gpa + 16] + 0x100 * mem[gpa + 17] + 0x1_0000 * mem[gpa + 18] + 0x100_0000 * mem[gpa
            + 19] == report.len(),
        0 < report.len(),
        24 + report.len() <= buf_size,
        forall|i: int| 0 <= i < report.len() ==> #[trigger] mem[gpa + 24 + i] == report[i],
        quote is Some ==> quote->0.len() <= 262144,
    ensures
        ({
            let (taken, in_message) = take::take_on(mem, gpa, buf_size);
            let (m, written) = complete::write_on(taken, gpa, buf_size, error_code, quote);
            let fits: int = match quote {
                None => 0,
                Some(data) => if 24 + data.len() <= buf_size {
                    data.len() as int
                } else {
                    buf_size - 24
                },
            };
            &&& in_message == Some(Ok::<Seq<u8>, take::TakeError>(report))
            &&& m.dom() == mem.dom()
            &&& m[gpa + 8] + 0x100 * m[gpa + 9] + 0x1_0000 * m[gpa + 10] + 0x100_0000 * m[gpa
                + 11] + 0x1_0000_0000 * m[gpa + 12] + 0x100_0000_0000 * m[gpa + 13]
                + 0x1_0000_0000_0000 * m[gpa + 14] + 0x100_0000_0000_0000 * m[gpa + 15]
                == error_code
            &&& m[gpa + 20] + 0x100 * m[gpa + 21] + 0x1_0000 * m[gpa + 22] + 0x100_0000 * m[gpa
                + 23] == fits
            &&& forall|i: int| 0 <= i < fits ==> #[trigger] m[gpa + 24 + i] == quote->0[i]
            &&& forall|a: int|
                mem.contains_key(a) && !(gpa + 8 <= a < gpa + 16) && !(gpa + 20 <= a < gpa + 24
                    + fits) ==> #[trigger] m[a] == mem[a]
            &&& written is Some
            &&& written->0 == fits
        }),
{
    let (taken, in_message) = take::take_on(mem, gpa, buf_size);
    take::law_taken_if_written(mem, gpa, buf_size);
    assert(in_message->0->Ok_0 =~= report);
    assert(forall|a: int| gpa <= a < gpa + buf_size ==> #[trigger] taken.contains_key(a));
    complete::law_completed_memory(taken, gpa, buf_size, error_code, quote);
    let (m, _) = complete::write_on(taken, gpa, buf_size, error_code, quote);
    assert(m.dom() =~= mem.dom());
}

/// What a guest finds in its memory in the end, byte by byte, where it wrote a report as a
/// request and the connection to the service does not fail.
///
/// The service is sent the request for exactly that report. Where a whole response comes
/// back that holds a quote, the error code is 0, the length is that of the part of the quote
/// that fits, and that part stands behind the header. Where the response holds none, the
/// error code is `0x8000_0000_0000_0000`, and where no whole response comes back it is
/// `0x8000_0000_0000_0001`; the length is zero then. Nothing else in the memory changes. The
/// guest is interrupted once, if it wants to be.
pub proof fn law_guest_finds<E>(
    world: World<E>,
    gpa: u64,
    buf_size: u64,
    notify: bool,
    report: Seq<u8>,
    fuel: nat,
)
    requires
        gpa + 24 <= u64::MAX,
        forall|a: int| gpa <= a < gpa + buf_size ==> #[trigger] world.mem.contains_key(a),
        world.mem[gpa as int] == 1,
        forall|a: int| gpa + 1 <= a < gpa + 8 ==> #[trigger] world.mem[a] == 0,
        world.mem[gpa + 16] + 0x100 * world.mem[gpa + 17] + 0x1_0000 * world.mem[gpa + 18]
            + 0x100_0000 * world.mem[gpa + 19] == report.len(),
        0 < report.len(),
        24 + report.len() <= buf_size,
        forall|i: int|
            0 <= i < report.len() ==> #[trigger] world.mem[gpa + 24 + i] == report[i],
        world.peer.fails_after is None,
        fuel >= world.peer.incoming.len() + 8,
    ensures
        ({
            let (taken, in_message) = take::take_on(world.mem, gpa, buf_size);
            let start = worker::worker_next::<E>(
                WorkerState::Start { gpa, buf_size, in_message: in_message->0->Ok_0, notify },
                WorkerEvent::Begin,
            );
            let (after, done) = worker::run_worker(start, World { mem: taken, ..world }, fuel);
            let sent = after.peer.sent.skip(world.peer.sent.len() as int);
            let came = world.peer.incoming;
            let size = came[3] + 0x100 * came[2] + 0x1_0000 * came[1] + 0x100_0000 * came[0];
            let responded = 4 <= came.len() && 1 <= size <= 262144 && 4 + size <= came.len();
            let r = came.subrange(4, 4 + size);
            let id_size = r[16] + 0x100 * r[17] + 0x1_0000 * r[18] + 0x100_0000 * r[19];
            let quote_size = r[20] + 0x100 * r[21] + 0x1_0000 * r[22] + 0x100_0000 * r[23];
            let carries = {
                &&& responded
                &&& 24 <= r.len()
                &&& r[4] == 1 && r[5] == 0 && r[6] == 0 && r[7] == 0
                &&& r[12] == 0 && r[13] == 0 && r[14] == 0 && r[15] == 0
                &&& 24 + id_size + quote_size <= r.len()
            };
            let code: int = if !responded {
                0x8000_0000_0000_0001
            } else if !carries {
                0x8000_0000_0000_0000
            } else {
                0
            };
            let fits: int = if !carries {
                0
            } else if 24 + quote_size <= buf_size {
                quote_size
            } else {
                buf_size - 24
            };
            let m = after.mem;
            &&& sent.len() == 28 + report.len()
            &&& sent[3] + 0x100 * sent[2] + 0x1_0000 * sent[1] + 0x100_0000 * sent[0] == (24
                + report.len()) % 0x1_0000_0000
            &&& sent.subrange(4, 12) == seq![1u8, 0, 1, 0, 0, 0, 0, 0]
            &&& forall|i: int| 0 <= i < report.len() ==> #[trigger] sent[28 + i] == report[i]
            &&& m.dom() == world.mem.dom()
            &&& m[gpa + 8] + 0x100 * m[gpa + 9] + 0x1_0000 * m[gpa + 10] + 0x100_0000 * m[gpa
                + 11] + 0x1_0000_0000 * m[gpa + 12] + 0x100_0000_0000 * m[gpa + 13]
                + 0x1_0000_0000_0000 * m[gpa + 14] + 0x100_0000_0000_0000 * m[gpa + 15] == code
            &&& m[gpa + 20] + 0x100 * m[gpa + 21] + 0x1_0000 * m[gpa + 22] + 0x100_0000 * m[gpa
                + 23] == fits
            &&& forall|i: int|
                0 <= i < fits ==> #[trigger] m[gpa + 24 + i] == r[24 + id_size + i]
            &&& forall|a: int|
                world.mem.contains_key(a) && !(gpa + 8 <= a < gpa + 16) && !(gpa + 20 <= a < gpa
                    + 24 + fits) ==> #[trigger] m[a] == world.mem[a]
            &&& after.triggered == if notify {
                world.triggered.push(0)
            } else {
                world.triggered
            }
            &&& done matches Some(told)
            &&& told.error_code == code
            &&& told.out_len == fits
            &&& told.failure is None <==> carries
        }),
{
    let taken = take::take_on(world.mem, gpa, buf_size).0;
    let asked = World { mem: taken, ..world };
    let msg = message::get_quote_req(report);
    let answer = worker::answer_of(exchange::exchange_result(msg, world.peer));
    lemma_answer_bytes(msg, world.peer);
    lemma_sent_bytes(report, world.peer);
    lemma_memory_bytes(
        world.mem,
        gpa,
        buf_size,
        report,
        answer.error_code,
        answer.quote,
    );
    worker::law_worker::<E>(gpa, buf_size, report, notify, asked, fuel);
}

} // verus!

//! Completing a request in the buffer that a guest shares.
use vstd::prelude::*;
use vstd::slice::{slice_subrange, slice_to_vec};
use crate::bytes;
use crate::guest;
use crate::guest::{GuestMemory, MemAction, MemEvent};
use crate::header;
use crate::header::{QuoteHeader, TDX_GET_QUOTE_HDR_SIZE};
use crate::progress::Progress;

verus! {

/// How far the completion of a request has come.
#[derive(Debug)]
pub enum WriteState<B> {
    /// Nothing was accessed yet.
    Start { gpa: u64, buf_size: u64, error_code: u64, quote: Option<B> },
    /// The header is being read.
    ReadHeader { gpa: u64, buf_size: u64, error_code: u64, quote: Option<B> },
    /// The header is being written back.
    WriteHeader { gpa: u64, buf_size: u64, quote: Option<B> },
    /// The quote is being written, of which so many bytes fit.
    WriteQuote { written: u32 },
}

/// The next access, or the number of bytes of the quote that were written.
pub type WriteStep<B> = Progress<WriteState<B>, MemAction<B>, u32>;

/// The contents of a buffer that may be there.
pub open spec fn contents(buffer: Option<Vec<u8>>) -> Option<Seq<u8>> {
    match buffer {
        Some(bytes) => Some(bytes@),
        None => None,
    }
}

impl View for WriteState<Vec<u8>> {
    type V = WriteState<Seq<u8>>;

    open spec fn view(&self) -> WriteState<Seq<u8>> {
        match *self {
            WriteState::Start { gpa, buf_size, error_code, quote } => WriteState::Start {
                gpa,
                buf_size,
                error_code,
                quote: contents(quote),
            },
            WriteState::ReadHeader { gpa, buf_size, error_code, quote } => WriteState::ReadHeader {
                gpa,
                buf_size,
                error_code,
                quote: contents(quote),
            },
            WriteState::WriteHeader { gpa, buf_size, quote } => WriteState::WriteHeader {
                gpa,
                buf_size,
                quote: contents(quote),
            },
            WriteState::WriteQuote { written } => WriteState::WriteQuote { written },
        }
    }
}

impl View for WriteStep<Vec<u8>> {
    type V = WriteStep<Seq<u8>>;

    open spec fn view(&self) -> WriteStep<Seq<u8>> {
        match *self {
            Progress::Perform { action, state } => Progress::Perform {
                action: action@,
                state: state@,
            },
            Progress::Finished(written) => Progress::Finished(written),
        }
    }
}

/// The low 32 bits of a length.
pub open spec fn low_u32(len: nat) -> u32 {
    (len % 0x1_0000_0000) as u32
}

/// How many bytes of a quote fit behind the header, in a buffer of `buf_size` bytes.
pub open spec fn fitting(quote: Seq<u8>, buf_size: u64) -> nat {
    if buf_size <= TDX_GET_QUOTE_HDR_SIZE {
        0
    } else if quote.len() <= buf_size - TDX_GET_QUOTE_HDR_SIZE {
        quote.len()
    } else {
        (buf_size - TDX_GET_QUOTE_HDR_SIZE) as nat
    }
}

/// The header of a completed request: the error code is set, and the length of what the
/// buffer takes of the quote. What the guest set is left as it was.
pub open spec fn completed(
    header: QuoteHeader,
    buf_size: u64,
    error_code: u64,
    quote: Option<Seq<u8>>,
) -> QuoteHeader {
    QuoteHeader {
        error_code,
        out_len: match quote {
            Some(bytes) => low_u32(fitting(bytes, buf_size)),
            None => 0,
        },
        ..header
    }
}

/// Whether `event` is one that the state waits for. The address of a quote that is to
/// be written must be an address.
pub open spec fn write_accepts(state: WriteState<Seq<u8>>, event: MemEvent<Seq<u8>>) -> bool {
    match state {
        WriteState::Start { .. } => event is Begin,
        WriteState::ReadHeader { .. } => guest::answers_read(event, TDX_GET_QUOTE_HDR_SIZE as nat),
        WriteState::WriteHeader { gpa, quote, .. } => {
            &&& guest::answers_write(event)
            &&& event is Written && quote is Some ==> gpa + TDX_GET_QUOTE_HDR_SIZE <= u64::MAX
        },
        WriteState::WriteQuote { .. } => guest::answers_write(event),
    }
}

/// What the completion of a request does next.
pub open spec fn write_next(state: WriteState<Seq<u8>>, event: MemEvent<Seq<u8>>) -> WriteStep<
    Seq<u8>,
> {
    match (state, event) {
        (WriteState::Start { gpa, buf_size, error_code, quote }, _) => Progress::Perform {
            action: MemAction::Read { gpa, len: TDX_GET_QUOTE_HDR_SIZE },
            state: WriteState::ReadHeader { gpa, buf_size, error_code, quote },
        },
        (
            WriteState::ReadHeader { gpa, buf_size, error_code, quote },
            MemEvent::Read(buffer),
        ) => Progress::Perform {
            action: MemAction::Write {
                gpa,
                data: completed(header::header_of(buffer), buf_size, error_code, quote).bytes(),
            },
            state: WriteState::WriteHeader { gpa, buf_size, quote },
        },
        (
            WriteState::WriteHeader { gpa, buf_size, quote: Some(quote) },
            MemEvent::Written,
        ) => Progress::Perform {
            action: MemAction::Write {
                gpa: (gpa + TDX_GET_QUOTE_HDR_SIZE) as u64,
                data: quote.take(fitting(quote, buf_size) as int),
            },
            state: WriteState::WriteQuote { written: low_u32(fitting(quote, buf_size)) },
        },
        (WriteState::WriteQuote { written }, MemEvent::Written) => Progress::Finished(written),
        _ => Progress::Finished(0),
    }
}

/// The low 32 bits of a length.
fn low_32_bits(len: usize) -> (low: u32)
    ensures
        low == low_u32(len as nat),
{
    (len as u64 % 0x1_0000_0000) as u32
}

/// How many bytes of `quote` fit behind the header, in a buffer of `buf_size` bytes.
fn fitting_len(quote: &Vec<u8>, buf_size: u64) -> (len: usize)
    ensures
        len == fitting(quote@, buf_size),
{
    let available: u64 = if buf_size < TDX_GET_QUOTE_HDR_SIZE as u64 {
        0
    } else {
        buf_size - TDX_GET_QUOTE_HDR_SIZE as u64
    };
    if quote.len() as u64 <= available {
        quote.len()
    } else {
        available as usize
    }
}

/// Completes the request in the buffer at `gpa`: sets the error code in the header and,
/// as `out_len`, how much of the quote the buffer holds, leaving the other fields as the
/// guest set them, and then writes that much of the quote. Results in the number of bytes
/// written, which is `out_len`, or in zero where an access failed.
///
/// Called first with `WriteState::Start` and `MemEvent::Begin`, then with each state
/// that it returns and the event that its action led to.
pub fn write_quote_result(state: WriteState<Vec<u8>>, event: MemEvent<Vec<u8>>) -> (step: WriteStep<
    Vec<u8>,
>)
    requires
        write_accepts(state@, event@),
    ensures
        step@ == write_next(state@, event@),
{
    match state {
        WriteState::Start { gpa, buf_size, error_code, quote } => Progress::Perform {
            action: MemAction::Read { gpa, len: TDX_GET_QUOTE_HDR_SIZE },
            state: WriteState::ReadHeader { gpa, buf_size, error_code, quote },
        },
        WriteState::ReadHeader { gpa, buf_size, error_code, quote } => match event {
            MemEvent::Read(buffer) => {
                let out_len: u32 = match &quote {
                    Some(bytes) => low_32_bits(fitting_len(bytes, buf_size)),
                    None => 0,
                };
                let header: QuoteHeader = QuoteHeader {
                    error_code,
                    out_len,
                    ..QuoteHeader::decode(buffer.as_slice())
                };
                Progress::Perform {
                    action: MemAction::Write { gpa, data: header.encode() },
                    state: WriteState::WriteHeader { gpa, buf_size, quote },
                }
            },
            _ => Progress::Finished(0),
        },
        WriteState::WriteHeader { gpa, buf_size, quote } => match (event, quote) {
            (MemEvent::Written, Some(bytes)) => {
                let payload_gpa: u64 = gpa + TDX_GET_QUOTE_HDR_SIZE as u64;
                let write_len: usize = fitting_len(&bytes, buf_size);
                let data: Vec<u8> = slice_to_vec(slice_subrange(bytes.as_slice(), 0, write_len));
                assert(data@ =~= bytes@.take(write_len as int));
                Progress::Perform {
                    action: MemAction::Write { gpa: payload_gpa, data },
                    state: WriteState::WriteQuote { written: low_32_bits(write_len) },
                }
            },
            _ => Progress::Finished(0),
        },
        WriteState::WriteQuote { written } => match event {
            MemEvent::Written => Progress::Finished(written),
            _ => Progress::Finished(0),
        },
    }
}

/// Runs the completion of a request on a memory for at most `fuel` accesses.
pub open spec fn run_write(step: WriteStep<Seq<u8>>, mem: GuestMemory, fuel: nat) -> (
    GuestMemory,
    Option<u32>,
)
    decreases fuel,
{
    match step {
        Progress::Finished(written) => (mem, Some(written)),
        Progress::Perform { action, state } => if fuel == 0 {
            (mem, None)
        } else {
            let (after, event) = guest::serve(mem, action);
            run_write(write_next(state, event), after, (fuel - 1) as nat)
        },
    }
}

/// What the completion of the request in the buffer at `gpa` leaves in a memory, and
/// what it results in: three accesses are enough.
pub open spec fn write_on(
    mem: GuestMemory,
    gpa: u64,
    buf_size: u64,
    error_code: u64,
    quote: Option<Seq<u8>>,
) -> (GuestMemory, Option<u32>) {
    run_write(
        write_next(WriteState::Start { gpa, buf_size, error_code, quote }, MemEvent::Begin),
        mem,
        3,
    )
}

/// The memory with the header at `gpa` completed.
pub open spec fn with_completed_header(
    mem: GuestMemory,
    gpa: u64,
    buf_size: u64,
    error_code: u64,
    quote: Option<Seq<u8>>,
) -> GuestMemory {
    guest::with_bytes(
        mem,
        gpa as int,
        completed(
            header::header_of(guest::bytes_at(mem, gpa as int, 24)),
            buf_size,
            error_code,
            quote,
        ).bytes(),
    )
}

/// What a completion does: nothing where the header is not mapped; else it completes
/// the header, and behind it, where that is mapped, goes the part of the quote that
/// fits.
pub proof fn law_write(
    mem: GuestMemory,
    gpa: u64,
    buf_size: u64,
    error_code: u64,
    quote: Option<Seq<u8>>,
)
    requires
        guest::mapped(mem, gpa as int, 24) && quote is Some ==> gpa + TDX_GET_QUOTE_HDR_SIZE
            <= u64::MAX,
    ensures
        ({
            let result = write_on(mem, gpa, buf_size, error_code, quote);
            let marked = with_completed_header(mem, gpa, buf_size, error_code, quote);
            if !guest::mapped(mem, gpa as int, 24) {
                result == (mem, Some(0u32))
            } else {
                match quote {
                    None => result == (marked, Some(0u32)),
                    Some(bytes) => {
                        let fits = fitting(bytes, buf_size);
                        if guest::mapped(mem, gpa + 24, fits) {
                            result == (
                                guest::with_bytes(marked, gpa + 24, bytes.take(fits as int)),
                                Some(low_u32(fits)),
                            )
                        } else {
                            result == (marked, Some(0u32))
                        }
                    },
                }
            }
        }),
{
    reveal_with_fuel(run_write, 4);
    let header = header::header_of(guest::bytes_at(mem, gpa as int, 24));
    let marked = with_completed_header(mem, gpa, buf_size, error_code, quote);
    header::law_header_decodes(completed(header, buf_size, error_code, quote), Seq::empty());
    if guest::mapped(mem, gpa as int, 24) {
        assert(marked.dom() =~= mem.dom());
        if let Some(bytes) = quote {
            let fits = fitting(bytes, buf_size);
            assert(bytes.take(fits as int).len() == fits);
            assert(guest::mapped(mem, gpa + 24, fits) == guest::mapped(marked, gpa + 24, fits));
        }
    }
}

/// After a completion the guest finds in its header the error code, the length of what
/// its buffer takes of the quote, and the version and the length of the request that it
/// wrote there itself.
pub proof fn law_write_keeps_guest_fields(
    mem: GuestMemory,
    gpa: u64,
    buf_size: u64,
    error_code: u64,
    quote: Option<Seq<u8>>,
)
    requires
        guest::mapped(mem, gpa as int, 24) && quote is Some ==> gpa + TDX_GET_QUOTE_HDR_SIZE
            <= u64::MAX,
        guest::mapped(mem, gpa as int, 24),
    ensures
        ({
            let before = header::header_of(guest::bytes_at(mem, gpa as int, 24));
            let after = header::header_of(
                guest::bytes_at(
                    write_on(mem, gpa, buf_size, error_code, quote).0,
                    gpa as int,
                    24,
                ),
            );
            &&& after.structure_version == before.structure_version
            &&& after.in_len == before.in_len
            &&& after.error_code == error_code
            &&& after == completed(before, buf_size, error_code, quote)
        }),
{
    let before = header::header_of(guest::bytes_at(mem, gpa as int, 24));
    let after = write_on(mem, gpa, buf_size, error_code, quote).0;
    let written = completed(before, buf_size, error_code, quote);
    law_write(mem, gpa, buf_size, error_code, quote);
    header::law_header_decodes(written, Seq::empty());
    assert(guest::bytes_at(after, gpa as int, 24) =~= written.bytes() + Seq::empty());
}

/// A completion changes nothing outside the buffer.
pub proof fn law_write_stays_in_buffer(
    mem: GuestMemory,
    gpa: u64,
    buf_size: u64,
    error_code: u64,
    quote: Option<Seq<u8>>,
    address: int,
)
    requires
        guest::mapped(mem, gpa as int, 24) && quote is Some ==> gpa + TDX_GET_QUOTE_HDR_SIZE
            <= u64::MAX,
        TDX_GET_QUOTE_HDR_SIZE <= buf_size,
        address < gpa || gpa + buf_size <= address,
    ensures
        ({
            let after = write_on(mem, gpa, buf_size, error_code, quote).0;
            &&& after.contains_key(address) == mem.contains_key(address)
            &&& mem.contains_key(address) ==> after[address] == mem[address]
        }),
{
    let header = header::header_of(guest::bytes_at(mem, gpa as int, 24));
    law_write(mem, gpa, buf_size, error_code, quote);
    header::law_header_decodes(completed(header, buf_size, error_code, quote), Seq::empty());
}

/// The state in which an action is asked for accepts every event that the action can
/// lead to.
pub proof fn law_write_goes_on(
    state: WriteState<Seq<u8>>,
    event: MemEvent<Seq<u8>>,
    answer: MemEvent<Seq<u8>>,
)
    requires
        write_accepts(state, event),
        state matches WriteState::ReadHeader { gpa, quote: Some(_), .. } ==> (
        answer is Written ==> gpa + TDX_GET_QUOTE_HDR_SIZE <= u64::MAX),
    ensures
        write_next(state, event) matches Progress::Perform { action, state: next } ==> (
        guest::answers(answer, action) ==> write_accepts(next, answer)),
{
}

/// Runs the completion of a request on whatever the accesses lead to, one event after
/// the other: the accesses that it asks for, and its result.
pub open spec fn write_by(step: WriteStep<Seq<u8>>, events: Seq<MemEvent<Seq<u8>>>) -> (
    Seq<MemAction<Seq<u8>>>,
    Option<u32>,
)
    decreases events.len(),
{
    match step {
        Progress::Finished(written) => (Seq::empty(), Some(written)),
        Progress::Perform { action, state } => if events.len() == 0 {
            (seq![action], None)
        } else {
            let (rest, result) = write_by(write_next(state, events[0]), events.drop_first());
            (seq![action] + rest, result)
        },
    }
}

/// Whatever the memory does, a completion results in the number of bytes of the quote
/// that fit where there is a quote and all accesses succeeded, and in zero otherwise.
/// There is always a result after three accesses.
pub proof fn law_written_if_all_succeed(
    gpa: u64,
    buf_size: u64,
    error_code: u64,
    quote: Option<Seq<u8>>,
    first: MemEvent<Seq<u8>>,
    second: MemEvent<Seq<u8>>,
    third: MemEvent<Seq<u8>>,
)
    ensures
        ({
            let start = write_next(
                WriteState::Start { gpa, buf_size, error_code, quote },
                MemEvent::Begin,
            );
            let all_succeed = first is Read && second is Written && third is Written;
            write_by(start, seq![first, second, third]).1 == Some(
                if quote is Some && all_succeed {
                    low_u32(fitting(quote->0, buf_size))
                } else {
                    0
                },
            )
        }),
{
    let events = seq![first, second, third];
    reveal_with_fuel(write_by, 4);
    assert(events.drop_first() =~= seq![second, third]);
    assert(seq![second, third].drop_first() =~= seq![third]);
}

/// Where all accesses succeed, three numbers are one: the result, the `out_len` in the
/// header that is written, and the number of bytes of the quote that are written behind
/// it. Those bytes are the start of the quote.
pub proof fn law_out_len_is_what_was_written(
    gpa: u64,
    buf_size: u64,
    error_code: u64,
    quote: Seq<u8>,
    buffer: Seq<u8>,
)
    requires
        gpa + TDX_GET_QUOTE_HDR_SIZE <= u64::MAX,
        quote.len() <= u32::MAX,
    ensures
        ({
            let start = write_next(
                WriteState::Start { gpa, buf_size, error_code, quote: Some(quote) },
                MemEvent::Begin,
            );
            let (actions, result) = write_by(
                start,
                seq![MemEvent::Read(buffer), MemEvent::Written, MemEvent::Written],
            );
            &&& actions.len() == 3
            &&& actions[1] matches MemAction::Write { gpa: at, data: head }
            &&& at == gpa
            &&& head.len() == TDX_GET_QUOTE_HDR_SIZE
            &&& actions[2] matches MemAction::Write { gpa: behind, data }
            &&& behind == gpa + TDX_GET_QUOTE_HDR_SIZE
            &&& data == quote.take(data.len() as int)
            &&& result is Some
            &&& header::header_of(head).out_len == result->0
            &&& bytes::le_value(head.subrange(20, 24)) == result->0
            &&& data.len() == result->0
        }),
{
    let first = MemEvent::Read(buffer);
    let done = MemEvent::<Seq<u8>>::Written;
    let start = write_next(
        WriteState::Start { gpa, buf_size, error_code, quote: Some(quote) },
        MemEvent::Begin,
    );
    let written = completed(header::header_of(buffer), buf_size, error_code, Some(quote));
    let head = written.bytes();
    reveal_with_fuel(write_by, 4);
    assert(seq![first, done, done].drop_first() =~= seq![done, done]);
    assert(seq![done, done].drop_first() =~= seq![done]);
    header::law_header_decodes(written, Seq::empty());
    assert(head + Seq::empty() =~= head);
    bytes::lemma_byte_limits();
    bytes::lemma_le_value_bound(head.subrange(20, 24));
}

/// How much of a quote fits: all of it where there is room behind the 24 bytes of the
/// header, else as much as there is room for.
pub proof fn law_fitting(quote: Seq<u8>, buf_size: u64)
    ensures
        fitting(quote, buf_size) <= quote.len(),
        buf_size <= 24 ==> fitting(quote, buf_size) == 0,
        24 <= buf_size ==> 24 + fitting(quote, buf_size) <= buf_size,
        24 + quote.len() <= buf_size ==> fitting(quote, buf_size) == quote.len(),
        24 + quote.len() > buf_size && 24 <= buf_size ==> 24 + fitting(quote, buf_size)
            == buf_size,
{
}

/// What a completed header is byte by byte: the bytes that the guest set are those that were
/// read, bytes 8 to 16 show the error code, and bytes 20 to 24 show how much of the quote
/// fits; all of these are zero where there is no quote.
proof fn lemma_completed_bytes(
    buffer: Seq<u8>,
    buf_size: u64,
    error_code: u64,
    quote: Option<Seq<u8>>,
)
    requires
        buffer.len() == 24,
    ensures
        ({
            let d = completed(header::header_of(buffer), buf_size, error_code, quote).bytes();
            let out_len = d[20] + 0x100 * d[21] + 0x1_0000 * d[22] + 0x100_0000 * d[23];
            &&& d.len() == 24
            &&& forall|i: int| 0 <= i < 8 || 16 <= i < 20 ==> #[trigger] d[i] == buffer[i]
            &&& d[8] + 0x100 * d[9] + 0x1_0000 * d[10] + 0x100_0000 * d[11] + 0x1_0000_0000
                * d[12] + 0x100_0000_0000 * d[13] + 0x1_0000_0000_0000 * d[14]
                + 0x100_0000_0000_0000 * d[15] == error_code
            &&& match quote {
                None => d[20] == 0 && d[21] == 0 && d[22] == 0 && d[23] == 0,
                Some(bytes) => out_len == fitting(bytes, buf_size) % 0x1_0000_0000,
            }
        }),
{
    let before = header::header_of(buffer);
    let after = completed(before, buf_size, error_code, quote);
    let d = after.bytes();
    let code = bytes::le_bytes(error_code as nat, 8);
    let out = bytes::le_bytes(after.out_len as nat, 4);
    broadcast use crate::bytes::lemma_le_bytes_len;

    header::law_header_encodes(buffer);
    bytes::law_eight_bytes_show(error_code);
    bytes::law_four_bytes_show(after.out_len as nat);
    assert(forall|i: int| 0 <= i < 8 ==> d[i] == before.bytes()[i]);
    assert(forall|i: int| 16 <= i < 20 ==> d[i] == before.bytes()[i]);
    assert(forall|i: int| 8 <= i < 16 ==> d[i] == code[i - 8]);
    assert(forall|i: int| 20 <= i < 24 ==> d[i] == out[i - 20]);
}

/// A completion asks for three accesses: the header is read; it is written back with the
/// bytes that the guest set as they were read, with the error code, and with the length of
/// what fits of the quote; and that much of the quote is written behind it. Without a quote
/// the length is zero, and the third access is not asked for.
pub proof fn law_write_accesses(
    gpa: u64,
    buf_size: u64,
    error_code: u64,
    quote: Option<Seq<u8>>,
    buffer: Seq<u8>,
)
    requires
        buffer.len() == 24,
        quote is Some ==> gpa + 24 <= u64::MAX,
    ensures
        ({
            let fits: int = match quote {
                None => 0,
                Some(bytes) => if buf_size <= 24 {
                    0
                } else if 24 + bytes.len() <= buf_size {
                    bytes.len() as int
                } else {
                    buf_size - 24
                },
            };
            let first = write_next(
                WriteState::Start { gpa, buf_size, error_code, quote },
                MemEvent::Begin,
            );
            let second = write_next(
                WriteState::ReadHeader { gpa, buf_size, error_code, quote },
                MemEvent::Read(buffer),
            );
            let third = write_next(
                WriteState::WriteHeader { gpa, buf_size, quote },
                MemEvent::Written,
            );
            &&& first == WriteStep::<Seq<u8>>::Perform {
                action: MemAction::Read { gpa, len: 24 },
                state: WriteState::ReadHeader { gpa, buf_size, error_code, quote },
            }
            &&& second matches Progress::Perform { action, state }
            &&& state == WriteState::WriteHeader { gpa, buf_size, quote }
            &&& action matches MemAction::Write { gpa: at, data: d }
            &&& at == gpa
            &&& d.len() == 24
            &&& forall|i: int| 0 <= i < 8 || 16 <= i < 20 ==> #[trigger] d[i] == buffer[i]
            &&& d[8] + 0x100 * d[9] + 0x1_0000 * d[10] + 0x100_0000 * d[11] + 0x1_0000_0000
                * d[12] + 0x100_0000_0000 * d[13] + 0x1_0000_0000_0000 * d[14]
                + 0x100_0000_0000_0000 * d[15] == error_code
            &&& d[20] + 0x100 * d[21] + 0x1_0000 * d[22] + 0x100_0000 * d[23] == fits
                % 0x1_0000_0000
            &&& quote is None ==> third == WriteStep::<Seq<u8>>::Finished(0)
            &&& quote matches Some(bytes) ==> {
                &&& third matches Progress::Perform { action, state }
                &&& action matches MemAction::Write { gpa: behind, data }
                &&& behind == gpa + 24
                &&& data.len() == fits
                &&& forall|i: int| 0 <= i < fits ==> #[trigger] data[i] == bytes[i]
                &&& state matches WriteState::WriteQuote { written }
                &&& written == fits % 0x1_0000_0000
            }
        }),
{
    lemma_completed_bytes(buffer, buf_size, error_code, quote);
}

/// A completion ends with the number of bytes of the quote after the last access, and with
/// zero wherever an access fails.
pub proof fn law_write_ends(
    gpa: u64,
    buf_size: u64,
    error_code: u64,
    quote: Option<Seq<u8>>,
    written: u32,
)
    ensures
        write_next(WriteState::WriteQuote { written }, MemEvent::Written) == WriteStep::<
            Seq<u8>,
        >::Finished(written),
        write_next(
            WriteState::ReadHeader { gpa, buf_size, error_code, quote },
            MemEvent::Failed,
        ) == WriteStep::<Seq<u8>>::Finished(0),
        write_next(WriteState::WriteHeader { gpa, buf_size, quote }, MemEvent::Failed)
            == WriteStep::<Seq<u8>>::Finished(0),
        write_next(WriteState::WriteQuote { written }, MemEvent::Failed) == WriteStep::<
            Seq<u8>,
        >::Finished(0),
{
}

/// A completion can begin with any buffer, code and quote, and goes on with all that its
/// accesses lead to. Only where there is a quote to be written must the address behind the
/// header be an address.
pub proof fn law_write_accepts(
    gpa: u64,
    buf_size: u64,
    error_code: u64,
    quote: Option<Seq<u8>>,
    written: u32,
    buffer: Seq<u8>,
)
    requires
        buffer.len() == 24,
    ensures
        ({
            let reading = WriteState::ReadHeader { gpa, buf_size, error_code, quote };
            let writing = WriteState::WriteHeader { gpa, buf_size, quote };
            let ending = WriteState::<Seq<u8>>::WriteQuote { written };
            &&& write_accepts(
                WriteState::Start { gpa, buf_size, error_code, quote },
                MemEvent::Begin,
            )
            &&& write_accepts(reading, MemEvent::Read(buffer))
            &&& write_accepts(reading, MemEvent::Failed)
            &&& quote is None || gpa + 24 <= u64::MAX ==> write_accepts(
                writing,
                MemEvent::Written,
            )
            &&& write_accepts(writing, MemEvent::Failed)
            &&& write_accepts(ending, MemEvent::Written)
            &&& write_accepts(ending, MemEvent::Failed)
        }),
{
}

/// What a completion leaves in the memory, byte by byte, where the header is mapped: bytes 8
/// to 16 show the error code; bytes 20 to 24 show how many bytes of the quote fit behind the
/// header, and are all zero where there is no quote, whatever stood there before; behind the
/// header stands the part of the quote that fits, where that is mapped. Nothing else
/// changes. The result is how many bytes of the quote were written.
pub proof fn law_completed_memory(
    mem: GuestMemory,
    gpa: u64,
    buf_size: u64,
    error_code: u64,
    quote: Option<Seq<u8>>,
)
    requires
        forall|a: int| gpa <= a < gpa + 24 ==> #[trigger] mem.contains_key(a),
        quote is Some ==> gpa + 24 <= u64::MAX,
    ensures
        ({
            let (after, result) = write_on(mem, gpa, buf_size, error_code, quote);
            let fits: int = match quote {
                None => 0,
                Some(bytes) => if buf_size <= 24 {
                    0
                } else if 24 + bytes.len() <= buf_size {
                    bytes.len() as int
                } else {
                    buf_size - 24
                },
            };
            let room = forall|a: int|
                gpa + 24 <= a < gpa + 24 + fits ==> #[trigger] mem.contains_key(a);
            &&& after.dom() == mem.dom()
            &&& after[gpa + 8] + 0x100 * after[gpa + 9] + 0x1_0000 * after[gpa + 10] + 0x100_0000
                * after[gpa + 11] + 0x1_0000_0000 * after[gpa + 12] + 0x100_0000_0000 * after[gpa
                + 13] + 0x1_0000_0000_0000 * after[gpa + 14] + 0x100_0000_0000_0000 * after[gpa
                + 15] == error_code
            &&& after[gpa + 20] + 0x100 * after[gpa + 21] + 0x1_0000 * after[gpa + 22]
                + 0x100_0000 * after[gpa + 23] == fits % 0x1_0000_0000
            &&& quote is None ==> after[gpa + 20] == 0 && after[gpa + 21] == 0 && after[gpa + 22]
                == 0 && after[gpa + 23] == 0
            &&& quote is Some && room ==> forall|i: int|
                0 <= i < fits ==> #[trigger] after[gpa + 24 + i] == quote->0[i]
            &&& forall|a: int|
                mem.contains_key(a) && !(gpa + 8 <= a < gpa + 16) && !(gpa + 20 <= a < gpa + 24)
                    && !(room && gpa + 24 <= a < gpa + 24 + fits) ==> #[trigger] after[a]
                    == mem[a]
            &&& result == Some(
                if room {
                    (fits % 0x1_0000_0000) as u32
                } else {
                    0u32
                },
            )
        }),
{
    let buffer = guest::bytes_at(mem, gpa as int, 24);
    let (after, result) = write_on(mem, gpa, buf_size, error_code, quote);
    let d = completed(header::header_of(buffer), buf_size, error_code, quote).bytes();
    assert(guest::mapped(mem, gpa as int, 24));
    law_write(mem, gpa, buf_size, error_code, quote);
    lemma_completed_bytes(buffer, buf_size, error_code, quote);
    assert(forall|i: int| 0 <= i < 24 ==> buffer[i] == mem[gpa + i]);
    assert(forall|i: int| 0 <= i < 24 ==> d[i] == #[trigger] after[gpa + i]);
    assert(after.dom() =~= mem.dom());
    assert forall|a: int|
        gpa <= a < gpa + 8 || gpa + 16 <= a < gpa + 20 implies #[trigger] after[a] == mem[a] by {
        assert(after[gpa + (a - gpa)] == d[a - gpa]);
        assert(buffer[a - gpa] == mem[gpa + (a - gpa)]);
    }
}

/// A completion whose header is not mapped changes nothing and results in zero.
pub proof fn law_no_header_no_completion(
    mem: GuestMemory,
    gpa: u64,
    buf_size: u64,
    error_code: u64,
    quote: Option<Seq<u8>>,
)
    requires
        exists|a: int| gpa <= a < gpa + 24 && !#[trigger] mem.contains_key(a),
    ensures
        write_on(mem, gpa, buf_size, error_code, quote) == (mem, Some(0u32)),
{
    assert(!guest::mapped(mem, gpa as int, 24));
    law_write(mem, gpa, buf_size, error_code, quote);
}

/// A step of a completion is seen with the contents of its buffers, and as it is otherwise.
pub proof fn law_write_views(
    gpa: u64,
    buf_size: u64,
    error_code: u64,
    quote: Option<Vec<u8>>,
    written: u32,
    action: MemAction<Vec<u8>>,
    state: WriteState<Vec<u8>>,
)
    ensures
        quote is None ==> contents(quote) is None,
        quote is Some ==> contents(quote) == Some(quote->0@),
        (WriteState::Start { gpa, buf_size, error_code, quote })@ == (WriteState::Start {
            gpa,
            buf_size,
            error_code,
            quote: contents(quote),
        }),
        (WriteState::ReadHeader { gpa, buf_size, error_code, quote })@ == (
        WriteState::ReadHeader { gpa, buf_size, error_code, quote: contents(quote) }),
        (WriteState::WriteHeader { gpa, buf_size, quote })@ == (WriteState::WriteHeader {
            gpa,
            buf_size,
            quote: contents(quote),
        }),
        (WriteState::<Vec<u8>>::WriteQuote { written })@ == (WriteState::<
            Seq<u8>,
        >::WriteQuote { written }),
        (WriteStep::<Vec<u8>>::Perform { action, state })@ == (WriteStep::<Seq<u8>>::Perform {
            action: action@,
            state: state@,
        }),
        WriteStep::<Vec<u8>>::Finished(written)@ == WriteStep::<Seq<u8>>::Finished(written),
{
}

} // verus!

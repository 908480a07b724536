//! Taking a request out of the buffer that a guest shares.
use vstd::prelude::*;
use crate::bytes;
use crate::guest;
use crate::guest::{GuestMemory, MemAction, MemEvent};
use crate::header;
use crate::header::{QuoteHeader, TDX_GET_QUOTE_HDR_SIZE, TDX_VP_GET_QUOTE_IN_FLIGHT};
use crate::progress::Progress;

verus! {

broadcast use crate::bytes::lemma_le_bytes_len;

/// Why no request was taken.
#[derive(Debug, Clone, Copy, PartialEq, Eq, Structural)]
pub enum TakeError {
    /// The buffer does not even hold a header.
    BufferTooSmall,
    /// The header could not be read.
    HeaderUnreadable,
    /// The header has this structure version, which is not 1.
    UnexpectedVersion(u64),
    /// The header gives this length of the request, which is zero or more than the
    /// buffer holds.
    InvalidLength(u32),
    /// The request could not be read.
    MessageUnreadable,
    /// The buffer could not be marked as in flight.
    MarkFailed,
}

/// How far the taking of a request has come.
#[derive(Debug)]
pub enum TakeState<B> {
    /// Nothing was accessed yet.
    Start { gpa: u64, buf_size: u64 },
    /// The header is being read.
    Header { gpa: u64, buf_size: u64 },
    /// The request is being read.
    Message { gpa: u64, header: QuoteHeader },
    /// The header is being written back, marked as in flight.
    Mark { message: B },
}

/// The next access, or the request that was taken.
pub type TakeStep<B> = Progress<TakeState<B>, MemAction<B>, Result<B, TakeError>>;

impl View for TakeState<Vec<u8>> {
    type V = TakeState<Seq<u8>>;

    open spec fn view(&self) -> TakeState<Seq<u8>> {
        match *self {
            TakeState::Start { gpa, buf_size } => TakeState::Start { gpa, buf_size },
            TakeState::Header { gpa, buf_size } => TakeState::Header { gpa, buf_size },
            TakeState::Message { gpa, header } => TakeState::Message { gpa, header },
            TakeState::Mark { message } => TakeState::Mark { message: message@ },
        }
    }
}

impl View for TakeStep<Vec<u8>> {
    type V = TakeStep<Seq<u8>>;

    open spec fn view(&self) -> TakeStep<Seq<u8>> {
        match *self {
            Progress::Perform { action, state } => Progress::Perform {
                action: action@,
                state: state@,
            },
            Progress::Finished(Ok(message)) => Progress::Finished(Ok(message@)),
            Progress::Finished(Err(error)) => Progress::Finished(Err(error)),
        }
    }
}

/// The header that marks a request as in flight.
pub open spec fn in_flight(header: QuoteHeader) -> QuoteHeader {
    QuoteHeader { error_code: TDX_VP_GET_QUOTE_IN_FLIGHT, ..header }
}

/// Why a header does not announce a request, in a buffer of `buf_size` bytes.
pub open spec fn refusal(header: QuoteHeader, buf_size: u64) -> Option<TakeError> {
    if header.structure_version != 1 {
        Some(TakeError::UnexpectedVersion(header.structure_version))
    } else if header.in_len == 0 || TDX_GET_QUOTE_HDR_SIZE + header.in_len > buf_size {
        Some(TakeError::InvalidLength(header.in_len))
    } else {
        None
    }
}

/// Whether `event` is one that the state waits for. The address of a request that is
/// announced must be an address.
pub open spec fn take_accepts(state: TakeState<Seq<u8>>, event: MemEvent<Seq<u8>>) -> bool {
    match state {
        TakeState::Start { .. } => event is Begin,
        TakeState::Header { gpa, buf_size } => {
            &&& TDX_GET_QUOTE_HDR_SIZE <= buf_size
            &&& guest::answers_read(event, TDX_GET_QUOTE_HDR_SIZE as nat)
            &&& (event matches MemEvent::Read(buffer) && refusal(
                header::header_of(buffer),
                buf_size,
            ) is None) ==> gpa + TDX_GET_QUOTE_HDR_SIZE <= u64::MAX
        },
        TakeState::Message { header, .. } => guest::answers_read(event, header.in_len as nat),
        TakeState::Mark { .. } => guest::answers_write(event),
    }
}

/// What the taking of a request does next.
pub open spec fn take_next(state: TakeState<Seq<u8>>, event: MemEvent<Seq<u8>>) -> TakeStep<
    Seq<u8>,
> {
    match (state, event) {
        (TakeState::Start { gpa, buf_size }, _) => if buf_size < TDX_GET_QUOTE_HDR_SIZE {
            Progress::Finished(Err(TakeError::BufferTooSmall))
        } else {
            Progress::Perform {
                action: MemAction::Read { gpa, len: TDX_GET_QUOTE_HDR_SIZE },
                state: TakeState::Header { gpa, buf_size },
            }
        },
        (TakeState::Header { gpa, buf_size }, MemEvent::Read(buffer)) => {
            let header = header::header_of(buffer);
            match refusal(header, buf_size) {
                Some(error) => Progress::Finished(Err(error)),
                None => Progress::Perform {
                    action: MemAction::Read {
                        gpa: (gpa + TDX_GET_QUOTE_HDR_SIZE) as u64,
                        len: header.in_len as usize,
                    },
                    state: TakeState::Message { gpa, header },
                },
            }
        },
        (TakeState::Header { .. }, _) => Progress::Finished(Err(TakeError::HeaderUnreadable)),
        (TakeState::Message { gpa, header }, MemEvent::Read(message)) => Progress::Perform {
            action: MemAction::Write { gpa, data: in_flight(header).bytes() },
            state: TakeState::Mark { message },
        },
        (TakeState::Message { .. }, _) => Progress::Finished(Err(TakeError::MessageUnreadable)),
        (TakeState::Mark { message }, MemEvent::Written) => Progress::Finished(Ok(message)),
        (TakeState::Mark { .. }, _) => Progress::Finished(Err(TakeError::MarkFailed)),
    }
}

/// Why a header does not announce a request, in a buffer of `buf_size` bytes.
pub fn check_header(header: &QuoteHeader, buf_size: u64) -> (error: Option<TakeError>)
    ensures
        error == refusal(*header, buf_size),
{
    if header.structure_version != 1 {
        return Some(TakeError::UnexpectedVersion(header.structure_version));
    }
    let in_len: u64 = header.in_len as u64;
    if in_len == 0 || buf_size < TDX_GET_QUOTE_HDR_SIZE as u64 || in_len > buf_size
        - TDX_GET_QUOTE_HDR_SIZE as u64 {
        return Some(TakeError::InvalidLength(header.in_len));
    }
    None
}

/// Takes the request out of the buffer at `gpa`: reads the header, checks it, reads
/// the request, and marks the buffer as in flight.
///
/// Called first with `TakeState::Start` and `MemEvent::Begin`, then with each state
/// that it returns and the event that its action led to.
pub fn take_in_message(state: TakeState<Vec<u8>>, event: MemEvent<Vec<u8>>) -> (step: TakeStep<
    Vec<u8>,
>)
    requires
        take_accepts(state@, event@),
    ensures
        step@ == take_next(state@, event@),
{
    match state {
        TakeState::Start { gpa, buf_size } => {
            if buf_size < TDX_GET_QUOTE_HDR_SIZE as u64 {
                return Progress::Finished(Err(TakeError::BufferTooSmall));
            }
            Progress::Perform {
                action: MemAction::Read { gpa, len: TDX_GET_QUOTE_HDR_SIZE },
                state: TakeState::Header { gpa, buf_size },
            }
        },
        TakeState::Header { gpa, buf_size } => match event {
            MemEvent::Read(buffer) => {
                let header: QuoteHeader = QuoteHeader::decode(buffer.as_slice());
                if let Some(error) = check_header(&header, buf_size) {
                    return Progress::Finished(Err(error));
                }
                let payload_gpa: u64 = gpa + TDX_GET_QUOTE_HDR_SIZE as u64;
                Progress::Perform {
                    action: MemAction::Read { gpa: payload_gpa, len: header.in_len as usize },
                    state: TakeState::Message { gpa, header },
                }
            },
            _ => Progress::Finished(Err(TakeError::HeaderUnreadable)),
        },
        TakeState::Message { gpa, header } => match event {
            MemEvent::Read(message) => {
                let marked: QuoteHeader = QuoteHeader {
                    error_code: TDX_VP_GET_QUOTE_IN_FLIGHT,
                    ..header
                };
                Progress::Perform {
                    action: MemAction::Write { gpa, data: marked.encode() },
                    state: TakeState::Mark { message },
                }
            },
            _ => Progress::Finished(Err(TakeError::MessageUnreadable)),
        },
        TakeState::Mark { message } => match event {
            MemEvent::Written => Progress::Finished(Ok(message)),
            _ => Progress::Finished(Err(TakeError::MarkFailed)),
        },
    }
}

/// Runs the taking of a request on a memory for at most `fuel` accesses.
pub open spec fn run_take(step: TakeStep<Seq<u8>>, mem: GuestMemory, fuel: nat) -> (
    GuestMemory,
    Option<Result<Seq<u8>, TakeError>>,
)
    decreases fuel,
{
    match step {
        Progress::Finished(result) => (mem, Some(result)),
        Progress::Perform { action, state } => if fuel == 0 {
            (mem, None)
        } else {
            let (after, event) = guest::serve(mem, action);
            run_take(take_next(state, event), after, (fuel - 1) as nat)
        },
    }
}

/// What the taking of a request from the buffer at `gpa` leaves in a memory, and what
/// it results in: three accesses are enough.
pub open spec fn take_on(mem: GuestMemory, gpa: u64, buf_size: u64) -> (
    GuestMemory,
    Option<Result<Seq<u8>, TakeError>>,
) {
    run_take(take_next(TakeState::Start { gpa, buf_size }, MemEvent::Begin), mem, 3)
}

/// Whether there is a header at `gpa` that announces a request.
pub open spec fn announces_request(mem: GuestMemory, gpa: u64, buf_size: u64) -> bool {
    &&& TDX_GET_QUOTE_HDR_SIZE <= buf_size
    &&& guest::mapped(mem, gpa as int, 24)
    &&& refusal(header::header_of(guest::bytes_at(mem, gpa as int, 24)), buf_size) is None
}

/// Why no request can be taken from the buffer at `gpa`.
pub open spec fn take_refusal(mem: GuestMemory, gpa: u64, buf_size: u64) -> Option<TakeError> {
    let header = header::header_of(guest::bytes_at(mem, gpa as int, 24));
    if buf_size < TDX_GET_QUOTE_HDR_SIZE {
        Some(TakeError::BufferTooSmall)
    } else if !guest::mapped(mem, gpa as int, 24) {
        Some(TakeError::HeaderUnreadable)
    } else if refusal(header, buf_size) is Some {
        refusal(header, buf_size)
    } else if !guest::mapped(mem, gpa + 24, header.in_len as nat) {
        Some(TakeError::MessageUnreadable)
    } else {
        None
    }
}

/// Writing a header with another error code changes the bytes of that field only.
proof fn lemma_mark_is_local(mem: GuestMemory, gpa: int)
    requires
        guest::mapped(mem, gpa, 24),
    ensures
        guest::with_bytes(
            mem,
            gpa,
            in_flight(header::header_of(guest::bytes_at(mem, gpa, 24))).bytes(),
        ) == guest::with_bytes(
            mem,
            gpa + 8,
            bytes::le_bytes(TDX_VP_GET_QUOTE_IN_FLIGHT as nat, 8),
        ),
{
    let buffer = guest::bytes_at(mem, gpa, 24);
    let old_header = header::header_of(buffer);
    let code = bytes::le_bytes(TDX_VP_GET_QUOTE_IN_FLIGHT as nat, 8);
    let marked = in_flight(old_header).bytes();
    header::law_header_encodes(buffer);
    assert(forall|i: int| 0 <= i < 8 ==> marked[i] == buffer[i]);
    assert(forall|i: int| 8 <= i < 16 ==> marked[i] == code[i - 8]);
    assert(forall|i: int| 16 <= i < 24 ==> marked[i] == buffer[i]);
    assert(guest::with_bytes(mem, gpa, marked) =~= guest::with_bytes(mem, gpa + 8, code));
}

/// A request is taken from every buffer whose header announces one that can be read:
/// the result is the request as the guest wrote it, and nothing changes in the memory
/// but the error code, which now says in flight. In every other case the reason is
/// given and the memory is left alone.
pub proof fn law_take(mem: GuestMemory, gpa: u64, buf_size: u64)
    requires
        announces_request(mem, gpa, buf_size) ==> gpa + TDX_GET_QUOTE_HDR_SIZE <= u64::MAX,
    ensures
        match take_refusal(mem, gpa, buf_size) {
            Some(error) => take_on(mem, gpa, buf_size) == (
                mem,
                Some(Err::<Seq<u8>, TakeError>(error)),
            ),
            None => take_on(mem, gpa, buf_size) == (
                guest::with_bytes(
                    mem,
                    gpa + 8,
                    bytes::le_bytes(TDX_VP_GET_QUOTE_IN_FLIGHT as nat, 8),
                ),
                Some(
                    Ok::<Seq<u8>, TakeError>(
                        guest::bytes_at(
                            mem,
                            gpa + 24,
                            header::header_of(
                                guest::bytes_at(mem, gpa as int, 24),
                            ).in_len as nat,
                        ),
                    ),
                ),
            ),
        },
{
    reveal_with_fuel(run_take, 4);
    let header = header::header_of(guest::bytes_at(mem, gpa as int, 24));
    if take_refusal(mem, gpa, buf_size) is None {
        lemma_mark_is_local(mem, gpa as int);
        header::law_header_decodes(in_flight(header), Seq::empty());
    }
}

/// The state in which an action is asked for accepts every event that the action can
/// lead to.
pub proof fn law_take_goes_on(
    state: TakeState<Seq<u8>>,
    event: MemEvent<Seq<u8>>,
    answer: MemEvent<Seq<u8>>,
)
    requires
        take_accepts(state, event),
        state matches TakeState::Start { gpa, buf_size } ==> (
        answer matches MemEvent::Read(buffer) ==> refusal(
            header::header_of(buffer),
            buf_size,
        ) is None ==> gpa + TDX_GET_QUOTE_HDR_SIZE <= u64::MAX),
    ensures
        take_next(state, event) matches Progress::Perform { action, state: next } ==> (
        guest::answers(answer, action) ==> take_accepts(next, answer)),
{
}

/// Runs the taking of a request on whatever the accesses lead to, one event after the
/// other.
pub open spec fn take_by(step: TakeStep<Seq<u8>>, events: Seq<MemEvent<Seq<u8>>>) -> Option<
    Result<Seq<u8>, TakeError>,
>
    decreases events.len(),
{
    match step {
        Progress::Finished(result) => Some(result),
        Progress::Perform { state, .. } => if events.len() == 0 {
            None
        } else {
            take_by(take_next(state, events[0]), events.drop_first())
        },
    }
}

/// Whatever the memory does, a request is taken if and only if a header was read that
/// announces one, then the request was read, and then the mark was written; the result
/// is what was read. There is always a result after three accesses.
pub proof fn law_taken_if_read_and_marked(
    gpa: u64,
    buf_size: u64,
    first: MemEvent<Seq<u8>>,
    second: MemEvent<Seq<u8>>,
    third: MemEvent<Seq<u8>>,
    message: Seq<u8>,
)
    ensures
        ({
            let start = take_next(TakeState::Start { gpa, buf_size }, MemEvent::Begin);
            let result = take_by(start, seq![first, second, third]);
            &&& result is Some
            &&& result == Some(Ok::<Seq<u8>, TakeError>(message)) <==> {
                &&& TDX_GET_QUOTE_HDR_SIZE <= buf_size
                &&& first matches MemEvent::Read(buffer)
                &&& refusal(header::header_of(buffer), buf_size) is None
                &&& second == MemEvent::Read(message)
                &&& third is Written
            }
        }),
{
    let events = seq![first, second, third];
    reveal_with_fuel(take_by, 4);
    assert(events.drop_first() =~= seq![second, third]);
    assert(seq![second, third].drop_first() =~= seq![third]);
}

/// Which headers announce a request: those of version 1 with a length that is not zero and
/// does not reach over the end of the buffer. What is wrong with the others is told with
/// the field that is wrong, the version before the length.
pub proof fn law_header_is_judged(header: QuoteHeader, buf_size: u64)
    ensures
        refusal(header, buf_size) is None <==> {
            &&& header.structure_version == 1
            &&& 0 < header.in_len
            &&& 24 + header.in_len <= buf_size
        },
        header.structure_version != 1 ==> refusal(header, buf_size) == Some(
            TakeError::UnexpectedVersion(header.structure_version),
        ),
        header.structure_version == 1 && (header.in_len == 0 || 24 + header.in_len > buf_size)
            ==> refusal(header, buf_size) == Some(TakeError::InvalidLength(header.in_len)),
{
}

/// A larger buffer refuses no header that a smaller one does not refuse, and a shorter
/// request is never refused where a longer one is not, unless it is empty.
pub proof fn law_room_never_hurts(
    header: QuoteHeader,
    buf_size: u64,
    shorter: QuoteHeader,
    larger: u64,
)
    requires
        refusal(header, buf_size) is None,
        buf_size <= larger,
        0 < shorter.in_len <= header.in_len,
        shorter.structure_version == header.structure_version,
    ensures
        refusal(shorter, larger) is None,
{
}

/// A taking asks for three accesses: the header, the `in_len` bytes behind it that the
/// header announces, and the header again, in which only the bytes of the error code
/// differ, and all of them are `0xff`. Where no request is announced it ends after the
/// first.
pub proof fn law_take_accesses(
    gpa: u64,
    buf_size: u64,
    buffer: Seq<u8>,
    message: Seq<u8>,
)
    requires
        buffer.len() == 24,
    ensures
        ({
            let b = buffer;
            let in_len = b[16] + 0x100 * b[17] + 0x1_0000 * b[18] + 0x100_0000 * b[19];
            let announced = {
                &&& b[0] == 1
                &&& forall|i: int| 1 <= i < 8 ==> #[trigger] b[i] == 0
                &&& 0 < in_len
                &&& 24 + in_len <= buf_size
            };
            let first = take_next(TakeState::Start { gpa, buf_size }, MemEvent::Begin);
            let second = take_next(TakeState::Header { gpa, buf_size }, MemEvent::Read(buffer));
            let header = header::header_of(buffer);
            let third = take_next(TakeState::Message { gpa, header }, MemEvent::Read(message));
            let last = take_next(TakeState::Mark { message }, MemEvent::Written);
            &&& buf_size < 24 <==> first is Finished
            &&& 24 <= buf_size ==> first == TakeStep::<Seq<u8>>::Perform {
                action: MemAction::Read { gpa, len: 24 },
                state: TakeState::Header { gpa, buf_size },
            }
            &&& second is Perform <==> announced
            &&& header.structure_version != 1 ==> second == TakeStep::<Seq<u8>>::Finished(
                Err(TakeError::UnexpectedVersion(header.structure_version)),
            )
            &&& header.structure_version == 1 && !announced ==> {
                &&& second matches Progress::Finished(Err(TakeError::InvalidLength(len)))
                &&& len == in_len
            }
            &&& announced && gpa + 24 <= u64::MAX ==> {
                &&& second matches Progress::Perform { action, state }
                &&& action matches MemAction::Read { gpa: at, len }
                &&& at == gpa + 24
                &&& len == in_len
                &&& state == TakeState::<Seq<u8>>::Message { gpa, header }
            }
            &&& third matches Progress::Perform { action, state }
            &&& action matches MemAction::Write { gpa: at, data }
            &&& at == gpa
            &&& data.len() == 24
            &&& forall|i: int| 0 <= i < 8 || 16 <= i < 24 ==> #[trigger] data[i] == buffer[i]
            &&& forall|i: int| 8 <= i < 16 ==> #[trigger] data[i] == 0xff
            &&& state == TakeState::Mark { message }
            &&& last == TakeStep::<Seq<u8>>::Finished(Ok(message))
        }),
{
    let header = header::header_of(buffer);
    let code = bytes::le_bytes(TDX_VP_GET_QUOTE_IN_FLIGHT as nat, 8);
    let data = in_flight(header).bytes();
    header::law_header_layout(buffer);
    header::law_header_encodes(buffer);
    bytes::law_eight_bytes_show(TDX_VP_GET_QUOTE_IN_FLIGHT);
    assert(forall|i: int| 0 <= i < 8 ==> data[i] == header.bytes()[i]);
    assert(forall|i: int| 16 <= i < 24 ==> data[i] == header.bytes()[i]);
    assert(forall|i: int| 8 <= i < 16 ==> data[i] == code[i - 8]);
    assert(forall|i: int| 0 <= i < 8 ==> code[i] == 0xff);
    assert(header.structure_version == 1 ==> buffer[0] == 1 && buffer[1] == 0 && buffer[2] == 0
        && buffer[3] == 0 && buffer[4] == 0 && buffer[5] == 0 && buffer[6] == 0 && buffer[7]
        == 0);
}

/// An access that fails ends a taking, with the reason that belongs to the access.
pub proof fn law_take_fails_at_each_access(
    gpa: u64,
    buf_size: u64,
    header: QuoteHeader,
    message: Seq<u8>,
)
    ensures
        buf_size < 24 ==> take_next(TakeState::Start { gpa, buf_size }, MemEvent::Begin)
            == TakeStep::<Seq<u8>>::Finished(Err(TakeError::BufferTooSmall)),
        take_next(TakeState::Header { gpa, buf_size }, MemEvent::Failed) == TakeStep::<
            Seq<u8>,
        >::Finished(Err(TakeError::HeaderUnreadable)),
        take_next(TakeState::Message { gpa, header }, MemEvent::Failed) == TakeStep::<
            Seq<u8>,
        >::Finished(Err(TakeError::MessageUnreadable)),
        take_next(TakeState::Mark { message }, MemEvent::Failed) == TakeStep::<
            Seq<u8>,
        >::Finished(Err(TakeError::MarkFailed)),
{
}

/// A taking can begin with any buffer, and goes on with all that its accesses lead to. Only
/// where a request is announced must the address behind the header be an address.
pub proof fn law_take_accepts(
    gpa: u64,
    buf_size: u64,
    buffer: Seq<u8>,
    header: QuoteHeader,
    message: Seq<u8>,
)
    requires
        buffer.len() == 24,
    ensures
        ({
            let b = buffer;
            let in_len = b[16] + 0x100 * b[17] + 0x1_0000 * b[18] + 0x100_0000 * b[19];
            let header_read = TakeState::Header { gpa, buf_size };
            let message_read = TakeState::Message { gpa, header };
            &&& take_accepts(TakeState::Start { gpa, buf_size }, MemEvent::Begin)
            &&& 24 <= buf_size ==> take_accepts(header_read, MemEvent::Failed)
            &&& 24 <= buf_size && gpa + 24 <= u64::MAX ==> take_accepts(
                header_read,
                MemEvent::Read(buffer),
            )
            &&& 24 <= buf_size && (header::header_of(b).structure_version != 1 || in_len == 0 || 24
                + in_len > buf_size) ==> take_accepts(header_read, MemEvent::Read(buffer))
            &&& message.len() == header.in_len ==> take_accepts(
                message_read,
                MemEvent::Read(message),
            )
            &&& take_accepts(message_read, MemEvent::Failed)
            &&& take_accepts(TakeState::Mark { message }, MemEvent::Written)
            &&& take_accepts(TakeState::Mark { message }, MemEvent::Failed)
        }),
{
    header::law_header_layout(buffer);
}

/// A request is taken if and only if the guest wrote one, by the bytes of its memory: the
/// buffer holds a header of version 1 and as many bytes behind it as the header announces,
/// at least one, and all of them can be read. The result is those bytes; of the memory only
/// the bytes of the error code change, and all of them are `0xff`. Otherwise the memory is
/// left as it was.
pub proof fn law_taken_if_written(mem: GuestMemory, gpa: u64, buf_size: u64)
    requires
        gpa + 24 <= u64::MAX,
    ensures
        ({
            let (after, result) = take_on(mem, gpa, buf_size);
            let in_len = mem[gpa + 16] + 0x100 * mem[gpa + 17] + 0x1_0000 * mem[gpa + 18]
                + 0x100_0000 * mem[gpa + 19];
            let written = {
                &&& forall|a: int| gpa <= a < gpa + 24 + in_len ==> #[trigger] mem.contains_key(a)
                &&& mem[gpa as int] == 1
                &&& forall|a: int| gpa + 1 <= a < gpa + 8 ==> #[trigger] mem[a] == 0
                &&& 0 < in_len
                &&& 24 + in_len <= buf_size
            };
            &&& result is Some
            &&& result->0 is Ok <==> written
            &&& result->0 matches Ok(message) ==> {
                &&& message.len() == in_len
                &&& forall|i: int|
                    0 <= i < in_len ==> #[trigger] message[i] == mem[gpa + 24 + i]
                &&& after.dom() == mem.dom()
                &&& forall|a: int| gpa + 8 <= a < gpa + 16 ==> #[trigger] after[a] == 0xff
                &&& forall|a: int|
                    mem.contains_key(a) && !(gpa + 8 <= a < gpa + 16) ==> #[trigger] after[a]
                        == mem[a]
            }
            &&& result->0 is Err ==> after == mem
        }),
{
    let buffer = guest::bytes_at(mem, gpa as int, 24);
    let code = bytes::le_bytes(TDX_VP_GET_QUOTE_IN_FLIGHT as nat, 8);
    let (after, result) = take_on(mem, gpa, buf_size);
    law_take(mem, gpa, buf_size);
    header::law_header_layout(buffer);
    bytes::law_eight_bytes_show(TDX_VP_GET_QUOTE_IN_FLIGHT);
    assert(forall|i: int| 0 <= i < 8 ==> code[i] == 0xff);
    assert(forall|i: int| 0 <= i < 24 ==> buffer[i] == mem[gpa + i]);
    let header = header::header_of(buffer);
    assert(header.in_len == mem[gpa + 16] + 0x100 * mem[gpa + 17] + 0x1_0000 * mem[gpa + 18]
        + 0x100_0000 * mem[gpa + 19]);
    assert(header.structure_version == 1 ==> buffer[0] == 1 && buffer[1] == 0 && buffer[2] == 0
        && buffer[3] == 0 && buffer[4] == 0 && buffer[5] == 0 && buffer[6] == 0 && buffer[7]
        == 0);
    if mem[gpa as int] == 1 && forall|a: int| gpa + 1 <= a < gpa + 8 ==> #[trigger] mem[a] == 0 {
        assert(forall|i: int| 1 <= i < 8 ==> buffer[i] == mem[gpa + i]);
        assert(header.structure_version == 1);
    }
    if header.structure_version == 1 {
        assert forall|a: int| gpa + 1 <= a < gpa + 8 implies #[trigger] mem[a] == 0 by {
            assert(mem[a] == buffer[a - gpa]);
        }
    }
    if result->0 is Ok {
        assert(guest::mapped(mem, gpa as int, 24));
        assert(after.dom() =~= mem.dom());
    }
}

/// Wherever the buffer lies, a header that is not there, has another version, announces
/// nothing, or announces more than the buffer holds behind it results in an error and leaves
/// the memory as it was.
pub proof fn law_bad_header_is_refused(mem: GuestMemory, gpa: u64, buf_size: u64)
    requires
        ({
            let in_len = mem[gpa + 16] + 0x100 * mem[gpa + 17] + 0x1_0000 * mem[gpa + 18]
                + 0x100_0000 * mem[gpa + 19];
            ||| buf_size < 24
            ||| exists|a: int| gpa <= a < gpa + 24 && !#[trigger] mem.contains_key(a)
            ||| mem[gpa as int] != 1
            ||| exists|a: int| gpa + 1 <= a < gpa + 8 && #[trigger] mem[a] != 0
            ||| in_len == 0
            ||| 24 + in_len > buf_size
        }),
    ensures
        take_on(mem, gpa, buf_size).0 == mem,
        take_on(mem, gpa, buf_size).1 is Some,
        take_on(mem, gpa, buf_size).1->0 is Err,
{
    let buffer = guest::bytes_at(mem, gpa as int, 24);
    header::law_header_layout(buffer);
    let header = header::header_of(buffer);
    if header.structure_version == 1 {
        assert forall|a: int| gpa <= a < gpa + 8 implies #[trigger] mem[a] == if a == gpa {
            1u8
        } else {
            0u8
        } by {
            assert(mem[a] == buffer[a - gpa]);
        }
    }
    assert(!announces_request(mem, gpa, buf_size));
    law_take(mem, gpa, buf_size);
}

/// A step of a taking is seen with the contents of its buffers, and as it is otherwise.
pub proof fn law_take_views(
    gpa: u64,
    buf_size: u64,
    header: QuoteHeader,
    message: Vec<u8>,
    action: MemAction<Vec<u8>>,
    state: TakeState<Vec<u8>>,
    error: TakeError,
)
    ensures
        (TakeState::<Vec<u8>>::Start { gpa, buf_size })@ == (TakeState::<Seq<u8>>::Start {
            gpa,
            buf_size,
        }),
        (TakeState::<Vec<u8>>::Header { gpa, buf_size })@ == (TakeState::<Seq<u8>>::Header {
            gpa,
            buf_size,
        }),
        (TakeState::<Vec<u8>>::Message { gpa, header })@ == (TakeState::<Seq<u8>>::Message {
            gpa,
            header,
        }),
        (TakeState::Mark { message })@ == (TakeState::Mark { message: message@ }),
        (TakeStep::<Vec<u8>>::Perform { action, state })@ == (TakeStep::<Seq<u8>>::Perform {
            action: action@,
            state: state@,
        }),
        TakeStep::<Vec<u8>>::Finished(Ok(message))@ == TakeStep::<Seq<u8>>::Finished(
            Ok(message@),
        ),
        TakeStep::<Vec<u8>>::Finished(Err(error))@ == TakeStep::<Seq<u8>>::Finished(Err(error)),
{
}

} // verus!

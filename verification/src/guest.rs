//! Accesses to the memory of a guest.
use vstd::prelude::*;

verus! {

/// An access to guest memory. `B` is a buffer: `Vec<u8>`, or its contents.
#[derive(Debug)]
pub enum MemAction<B> {
    /// Fill a zeroed buffer of `len` bytes from the address `gpa` on.
    Read { gpa: u64, len: usize },
    /// Write `data` from the address `gpa` on.
    Write { gpa: u64, data: B },
}

/// What a procedure on guest memory goes on with.
#[derive(Debug)]
pub enum MemEvent<B> {
    /// Nothing was asked for yet.
    Begin,
    /// The read succeeded, and left this in the buffer.
    Read(B),
    /// The write succeeded.
    Written,
    /// The access failed.
    Failed,
}

impl View for MemAction<Vec<u8>> {
    type V = MemAction<Seq<u8>>;

    open spec fn view(&self) -> MemAction<Seq<u8>> {
        match *self {
            MemAction::Read { gpa, len } => MemAction::Read { gpa, len },
            MemAction::Write { gpa, data } => MemAction::Write { gpa, data: data@ },
        }
    }
}

impl View for MemEvent<Vec<u8>> {
    type V = MemEvent<Seq<u8>>;

    open spec fn view(&self) -> MemEvent<Seq<u8>> {
        match *self {
            MemEvent::Begin => MemEvent::Begin,
            MemEvent::Read(buffer) => MemEvent::Read(buffer@),
            MemEvent::Written => MemEvent::Written,
            MemEvent::Failed => MemEvent::Failed,
        }
    }
}

/// Whether `event` is what a read of `len` bytes can lead to.
pub open spec fn answers_read(event: MemEvent<Seq<u8>>, len: nat) -> bool {
    match event {
        MemEvent::Read(buffer) => buffer.len() == len,
        MemEvent::Failed => true,
        _ => false,
    }
}

/// Whether `event` is what a write can lead to.
pub open spec fn answers_write(event: MemEvent<Seq<u8>>) -> bool {
    event is Written || event is Failed
}

/// Whether `event` is what `action` can lead to.
pub open spec fn answers(event: MemEvent<Seq<u8>>, action: MemAction<Seq<u8>>) -> bool {
    match action {
        MemAction::Read { len, .. } => answers_read(event, len as nat),
        MemAction::Write { .. } => answers_write(event),
    }
}

/// The bytes of a guest memory, by address. What is not in it is not mapped.
pub type GuestMemory = Map<int, u8>;

/// Whether the `len` addresses from `gpa` on are mapped.
pub open spec fn mapped(mem: GuestMemory, gpa: int, len: nat) -> bool {
    forall|a: int| gpa <= a < gpa + len ==> #[trigger] mem.contains_key(a)
}

/// The `len` bytes from `gpa` on.
pub open spec fn bytes_at(mem: GuestMemory, gpa: int, len: nat) -> Seq<u8> {
    Seq::new(len, |i: int| mem[gpa + i])
}

/// The memory with `data` from `gpa` on.
pub open spec fn with_bytes(mem: GuestMemory, gpa: int, data: Seq<u8>) -> GuestMemory {
    Map::new(
        |a: int| mem.contains_key(a) || gpa <= a < gpa + data.len(),
        |a: int|
            if gpa <= a < gpa + data.len() {
                data[a - gpa]
            } else {
                mem[a]
            },
    )
}

/// What `action` does to a memory that serves each access whole or, where an address
/// is not mapped, not at all; and the event that it leads to.
pub open spec fn serve(mem: GuestMemory, action: MemAction<Seq<u8>>) -> (
    GuestMemory,
    MemEvent<Seq<u8>>,
) {
    match action {
        MemAction::Read { gpa, len } => if mapped(mem, gpa as int, len as nat) {
            (mem, MemEvent::Read(bytes_at(mem, gpa as int, len as nat)))
        } else {
            (mem, MemEvent::Failed)
        },
        MemAction::Write { gpa, data } => if mapped(mem, gpa as int, data.len()) {
            (with_bytes(mem, gpa as int, data), MemEvent::Written)
        } else {
            (mem, MemEvent::Failed)
        },
    }
}

/// An access and what it led to are seen with the contents of their buffers, and as they are
/// otherwise.
pub proof fn law_guest_views(gpa: u64, len: usize, data: Vec<u8>)
    ensures
        (MemAction::<Vec<u8>>::Read { gpa, len })@ == (MemAction::<Seq<u8>>::Read { gpa, len }),
        (MemAction::Write { gpa, data })@ == (MemAction::Write { gpa, data: data@ }),
        MemEvent::<Vec<u8>>::Begin@ == MemEvent::<Seq<u8>>::Begin,
        MemEvent::Read(data)@ == MemEvent::Read(data@),
        MemEvent::<Vec<u8>>::Written@ == MemEvent::<Seq<u8>>::Written,
        MemEvent::<Vec<u8>>::Failed@ == MemEvent::<Seq<u8>>::Failed,
{
}

/// Where an access succeeds, and what it does: a read gives the bytes that stand there, a
/// write changes those and no others.
pub proof fn law_serve(mem: GuestMemory, gpa: u64, len: usize, data: Seq<u8>)
    ensures
        ({
            let (after, event) = serve(mem, MemAction::Read { gpa, len });
            &&& after == mem
            &&& event is Read <==> forall|a: int|
                gpa <= a < gpa + len ==> #[trigger] mem.contains_key(a)
            &&& event is Read || event is Failed
            &&& event matches MemEvent::Read(buffer) ==> buffer.len() == len && forall|i: int|
                0 <= i < len ==> #[trigger] buffer[i] == mem[gpa + i]
        }),
        ({
            let (after, event) = serve(mem, MemAction::Write { gpa, data });
            &&& after.dom() == mem.dom()
            &&& event is Written <==> forall|a: int|
                gpa <= a < gpa + data.len() ==> #[trigger] mem.contains_key(a)
            &&& event is Failed ==> after == mem
            &&& event is Written || event is Failed
            &&& event is Written ==> forall|a: int|
                mem.contains_key(a) ==> #[trigger] after[a] == if gpa <= a < gpa + data.len() {
                    data[a - gpa]
                } else {
                    mem[a]
                }
        }),
{
    let (after, _) = serve(mem, MemAction::Write { gpa, data });
    assert(after.dom() =~= mem.dom());
}

} // verus!

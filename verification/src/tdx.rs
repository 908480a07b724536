//! Structures that KVM and the VMM exchange about TDX guests.
use vstd::prelude::*;

verus! {

/// The commands of the TDX interface of KVM.
#[derive(Debug, Clone, Copy, PartialEq, Eq, Structural)]
pub enum TdxCommand {
    Capabilities,
    InitVm,
    InitVcpu,
    InitMemRegion,
    Finalize,
}

impl TdxCommand {
    /// The number by which KVM knows a command.
    pub open spec fn number(self) -> u32 {
        match self {
            TdxCommand::Capabilities => 0,
            TdxCommand::InitVm => 1,
            TdxCommand::InitVcpu => 2,
            TdxCommand::InitMemRegion => 3,
            TdxCommand::Finalize => 4,
        }
    }

    /// The number by which KVM knows a command.
    pub fn id(self) -> (id: u32)
        ensures
            id == self.number(),
    {
        match self {
            TdxCommand::Capabilities => 0,
            TdxCommand::InitVm => 1,
            TdxCommand::InitVcpu => 2,
            TdxCommand::InitMemRegion => 3,
            TdxCommand::Finalize => 4,
        }
    }
}

/// What a guest wants when it leaves to the VMM.
#[derive(Debug, Clone, Copy, PartialEq, Eq, Structural)]
pub enum TdxExitDetails {
    /// A quote for the request in the buffer at `gpa`, of `size` bytes.
    GetQuote { gpa: u64, size: u64 },
    /// To be told of completions by this interrupt.
    SetupEventNotifyInterrupt { vector: u8 },
}

/// What a guest is told when it goes on.
#[derive(Debug, Clone, Copy, PartialEq, Eq, Structural)]
pub enum TdxExitStatus {
    Success,
    InvalidOperand,
}

/// How many CPUID leaves a list can hold.
pub const TDX_MAX_NR_CPUID_CONFIGS: usize = 80;

/// One CPUID leaf: what `kvm_bindings::kvm_cpuid_entry2` holds.
#[derive(Debug, Clone, Copy, PartialEq, Eq)]
pub struct CpuidEntry {
    pub function: u32,
    pub index: u32,
    pub flags: u32,
    pub eax: u32,
    pub ebx: u32,
    pub ecx: u32,
    pub edx: u32,
    pub padding: [u32; 3],
}

impl CpuidEntry {
    /// Whether nothing is set in the leaf.
    pub open spec fn is_zero(self) -> bool {
        &&& self.function == 0
        &&& self.index == 0
        &&& self.flags == 0
        &&& self.eax == 0
        &&& self.ebx == 0
        &&& self.ecx == 0
        &&& self.edx == 0
        &&& self.padding@ == seq![0u32, 0u32, 0u32]
    }
}

/// `kvm_bindings::kvm_cpuid_entry2::default`, field by field. That impl is derived, so
/// every field is zero.
#[verifier::external_body]
fn default_cpuid_entry() -> (entry: CpuidEntry)
    ensures
        entry.is_zero(),
{
    let entry = kvm_bindings::kvm_cpuid_entry2::default();
    CpuidEntry {
        function: entry.function,
        index: entry.index,
        flags: entry.flags,
        eax: entry.eax,
        ebx: entry.ebx,
        ecx: entry.ecx,
        edx: entry.edx,
        padding: entry.padding,
    }
}

/// A list of CPUID leaves.
#[allow(non_camel_case_types)]
#[derive(Debug)]
pub struct kvm_cpuid2 {
    pub nent: u32,
    pub padding: u32,
    pub entries: [CpuidEntry; TDX_MAX_NR_CPUID_CONFIGS],
}

impl kvm_cpuid2 {
    /// Whether the list offers all its room, and no leaf is set.
    pub open spec fn is_blank(self) -> bool {
        &&& self.nent == TDX_MAX_NR_CPUID_CONFIGS
        &&& self.padding == 0
        &&& forall|i: int|
            0 <= i < TDX_MAX_NR_CPUID_CONFIGS ==> (#[trigger] self.entries@[i]).is_zero()
    }
}

impl Default for kvm_cpuid2 {
    fn default() -> (list: Self)
        ensures
            list.is_blank(),
    {
        let entry: CpuidEntry = default_cpuid_entry();
        kvm_cpuid2 {
            nent: TDX_MAX_NR_CPUID_CONFIGS as u32,
            padding: 0,
            entries: [entry; TDX_MAX_NR_CPUID_CONFIGS],
        }
    }
}

/// What the TDX module and KVM can do.
#[allow(non_camel_case_types)]
#[derive(Debug)]
pub struct kvm_tdx_capabilities {
    pub supported_attrs: u64,
    pub supported_xfam: u64,
    pub kernel_tdvmcallinfo_1_r11: u64,
    pub user_tdvmcallinfo_1_r11: u64,
    pub kernel_tdvmcallinfo_1_r12: u64,
    pub user_tdvmcallinfo_1_r12: u64,
    pub reserved: [u64; 250],
    pub cpuid: kvm_cpuid2,
}

impl Default for kvm_tdx_capabilities {
    fn default() -> (caps: Self)
        ensures
            caps.supported_attrs == 0,
            caps.supported_xfam == 0,
            caps.kernel_tdvmcallinfo_1_r11 == 0,
            caps.user_tdvmcallinfo_1_r11 == 0,
            caps.kernel_tdvmcallinfo_1_r12 == 0,
            caps.user_tdvmcallinfo_1_r12 == 0,
            forall|i: int| 0 <= i < 250 ==> #[trigger] caps.reserved@[i] == 0,
            caps.cpuid.is_blank(),
    {
        kvm_tdx_capabilities {
            supported_attrs: 0,
            supported_xfam: 0,
            kernel_tdvmcallinfo_1_r11: 0,
            user_tdvmcallinfo_1_r11: 0,
            kernel_tdvmcallinfo_1_r12: 0,
            user_tdvmcallinfo_1_r12: 0,
            reserved: [0u64; 250],
            cpuid: kvm_cpuid2::default(),
        }
    }
}

/// A command to KVM.
#[derive(Debug)]
pub struct KvmTdxCmd {
    pub id: TdxCommand,
    pub flags: u32,
    pub data: u64,
    pub hw_error: u64,
}

/// The argument of `TdxCommand::InitVm`.
#[derive(Debug)]
pub struct KvmTdxInitVm {
    pub attributes: u64,
    pub xfam: u64,
    pub mrconfigid: [u64; 6],
    pub mrowner: [u64; 6],
    pub mrownerconfig: [u64; 6],
    pub reserved: [u64; 12],
    pub cpuid: kvm_cpuid2,
}

/// The argument of `TdxCommand::InitMemRegion`.
#[derive(Debug)]
pub struct KvmTdxInitMemRegion {
    pub source_addr: u64,
    pub gpa: u64,
    pub nr_pages: u64,
}

/// A TDX exit.
#[derive(Debug, Clone, Copy)]
pub struct KvmTdxExit {
    pub flags: u64,
    /// The number of the call that the guest made.
    pub nr: u64,
    pub u: KvmTdxExitU,
}

/// The part of a TDX exit that depends on the call: six words, of which each call has
/// its own reading. The first word is `ret` in every one of them.
#[derive(Debug, Clone, Copy)]
pub struct KvmTdxExitU {
    pub words: [u64; 6],
}

/// The words of a call that is not known.
#[derive(Debug, Clone, Copy)]
pub struct KvmTdxExitUnknown {
    pub ret: u64,
    pub data: [u64; 5],
}

/// The words of a request for a quote.
#[derive(Debug, Clone, Copy, PartialEq, Eq, Structural)]
pub struct KvmTdxExitGetQuote {
    pub ret: u64,
    pub gpa: u64,
    pub size: u64,
}

/// The words of a question for what calls there are.
#[derive(Debug, Clone, Copy, PartialEq, Eq, Structural)]
pub struct KvmTdxExitGetTdVmCallInfo {
    pub ret: u64,
    pub leaf: u64,
    pub r11: u64,
    pub r12: u64,
    pub r13: u64,
    pub r14: u64,
}

/// The words of a request to be told of completions.
#[derive(Debug, Clone, Copy, PartialEq, Eq, Structural)]
pub struct KvmTdxExitSetupEventNotify {
    pub ret: u64,
    pub vector: u64,
}

impl View for KvmTdxExitU {
    type V = Seq<u64>;

    open spec fn view(&self) -> Seq<u64> {
        self.words@
    }
}

impl KvmTdxExitUnknown {
    /// The words, in order.
    pub open spec fn words(self) -> Seq<u64> {
        seq![self.ret] + self.data@
    }
}

impl KvmTdxExitGetQuote {
    /// The words, in order.
    pub open spec fn words(self) -> Seq<u64> {
        seq![self.ret, self.gpa, self.size]
    }
}

impl KvmTdxExitGetTdVmCallInfo {
    /// The words, in order.
    pub open spec fn words(self) -> Seq<u64> {
        seq![self.ret, self.leaf, self.r11, self.r12, self.r13, self.r14]
    }
}

impl KvmTdxExitSetupEventNotify {
    /// The words, in order.
    pub open spec fn words(self) -> Seq<u64> {
        seq![self.ret, self.vector]
    }
}

/// The words of `all` with `first` in front, in place of as many.
pub open spec fn overlay(all: Seq<u64>, first: Seq<u64>) -> Seq<u64> {
    first + all.skip(first.len() as int)
}

impl KvmTdxExitU {
    /// Reads the words as those of a call that is not known.
    pub fn unknown(&self) -> (call: KvmTdxExitUnknown)
        ensures
            call.words() == self@,
            call.ret == self.words@[0],
            forall|i: int| 0 <= i < 5 ==> #[trigger] call.data@[i] == self.words@[1 + i],
    {
        let w: [u64; 6] = self.words;
        let call: KvmTdxExitUnknown = KvmTdxExitUnknown {
            ret: w[0],
            data: [w[1], w[2], w[3], w[4], w[5]],
        };
        assert(call.words() =~= self@);
        call
    }

    /// Reads the words as those of a request for a quote.
    pub fn get_quote(&self) -> (call: KvmTdxExitGetQuote)
        ensures
            call.words() == self@.take(3),
            call.ret == self.words@[0],
            call.gpa == self.words@[1],
            call.size == self.words@[2],
    {
        let call: KvmTdxExitGetQuote = KvmTdxExitGetQuote {
            ret: self.words[0],
            gpa: self.words[1],
            size: self.words[2],
        };
        assert(call.words() =~= self@.take(3));
        call
    }

    /// Reads the words as those of a question for what calls there are.
    pub fn get_tdvmcall_info(&self) -> (call: KvmTdxExitGetTdVmCallInfo)
        ensures
            call.words() == self@,
            call.ret == self.words@[0],
            call.leaf == self.words@[1],
            call.r11 == self.words@[2],
            call.r12 == self.words@[3],
            call.r13 == self.words@[4],
            call.r14 == self.words@[5],
    {
        let call: KvmTdxExitGetTdVmCallInfo = KvmTdxExitGetTdVmCallInfo {
            ret: self.words[0],
            leaf: self.words[1],
            r11: self.words[2],
            r12: self.words[3],
            r13: self.words[4],
            r14: self.words[5],
        };
        assert(call.words() =~= self@);
        call
    }

    /// Reads the words as those of a request to be told of completions.
    pub fn setup_event_notify(&self) -> (call: KvmTdxExitSetupEventNotify)
        ensures
            call.words() == self@.take(2),
            call.ret == self.words@[0],
            call.vector == self.words@[1],
    {
        let call: KvmTdxExitSetupEventNotify = KvmTdxExitSetupEventNotify {
            ret: self.words[0],
            vector: self.words[1],
        };
        assert(call.words() =~= self@.take(2));
        call
    }

    /// Writes the words of a call that is not known.
    pub fn set_unknown(&mut self, call: KvmTdxExitUnknown)
        ensures
            final(self)@ == overlay(old(self)@, call.words()),
            final(self).words@[0] == call.ret,
            forall|i: int| 0 <= i < 5 ==> #[trigger] final(self).words@[1 + i] == call.data@[i],
    {
        let d: [u64; 5] = call.data;
        self.words = [call.ret, d[0], d[1], d[2], d[3], d[4]];
        assert(self@ =~= overlay(old(self)@, call.words()));
    }

    /// Writes the words of a request for a quote.
    pub fn set_get_quote(&mut self, call: KvmTdxExitGetQuote)
        ensures
            final(self)@ == overlay(old(self)@, call.words()),
            final(self).words@[0] == call.ret,
            final(self).words@[1] == call.gpa,
            final(self).words@[2] == call.size,
            forall|i: int| 3 <= i < 6 ==> #[trigger] final(self).words@[i] == old(self).words@[i],
    {
        let w: [u64; 6] = self.words;
        self.words = [call.ret, call.gpa, call.size, w[3], w[4], w[5]];
        assert(self@ =~= overlay(old(self)@, call.words()));
    }

    /// Writes the words of a question for what calls there are.
    pub fn set_get_tdvmcall_info(&mut self, call: KvmTdxExitGetTdVmCallInfo)
        ensures
            final(self)@ == overlay(old(self)@, call.words()),
            final(self).words@[0] == call.ret,
            final(self).words@[1] == call.leaf,
            final(self).words@[2] == call.r11,
            final(self).words@[3] == call.r12,
            final(self).words@[4] == call.r13,
            final(self).words@[5] == call.r14,
    {
        self.words = [call.ret, call.leaf, call.r11, call.r12, call.r13, call.r14];
        assert(self@ =~= overlay(old(self)@, call.words()));
    }

    /// Writes the words of a request to be told of completions.
    pub fn set_setup_event_notify(&mut self, call: KvmTdxExitSetupEventNotify)
        ensures
            final(self)@ == overlay(old(self)@, call.words()),
            final(self).words@[0] == call.ret,
            final(self).words@[1] == call.vector,
            forall|i: int| 2 <= i < 6 ==> #[trigger] final(self).words@[i] == old(self).words@[i],
    {
        let w: [u64; 6] = self.words;
        self.words = [call.ret, call.vector, w[2], w[3], w[4], w[5]];
        assert(self@ =~= overlay(old(self)@, call.words()));
    }
}

/// Whichever call the words are read as, `ret` is the same.
pub proof fn law_ret_is_shared(
    u: KvmTdxExitU,
    unknown: KvmTdxExitUnknown,
    get_quote: KvmTdxExitGetQuote,
    info: KvmTdxExitGetTdVmCallInfo,
    notify: KvmTdxExitSetupEventNotify,
)
    requires
        unknown.words() == u@,
        get_quote.words() == u@.take(3),
        info.words() == u@,
        notify.words() == u@.take(2),
    ensures
        unknown.ret == u@[0],
        get_quote.ret == u@[0],
        info.ret == u@[0],
        notify.ret == u@[0],
{
    assert(unknown.words()[0] == unknown.ret);
    assert(get_quote.words()[0] == get_quote.ret);
    assert(info.words()[0] == info.ret);
    assert(notify.words()[0] == notify.ret);
}

/// A status that is written through one reading of the words, all else being put back
/// as it was read, arrives in every other, and changes nothing else.
pub proof fn law_ret_is_written_through_any(
    u: KvmTdxExitU,
    unknown: KvmTdxExitUnknown,
    get_quote: KvmTdxExitGetQuote,
    info: KvmTdxExitGetTdVmCallInfo,
    notify: KvmTdxExitSetupEventNotify,
    ret: u64,
)
    requires
        unknown.words() == u@,
        get_quote.words() == u@.take(3),
        info.words() == u@,
        notify.words() == u@.take(2),
    ensures
        overlay(u@, KvmTdxExitUnknown { ret, ..unknown }.words()) == u@.update(0, ret),
        overlay(u@, KvmTdxExitGetQuote { ret, ..get_quote }.words()) == u@.update(0, ret),
        overlay(u@, KvmTdxExitGetTdVmCallInfo { ret, ..info }.words()) == u@.update(0, ret),
        overlay(u@, KvmTdxExitSetupEventNotify { ret, ..notify }.words()) == u@.update(0, ret),
{
    let by_unknown = KvmTdxExitUnknown { ret, ..unknown }.words();
    let by_quote = KvmTdxExitGetQuote { ret, ..get_quote }.words();
    let by_info = KvmTdxExitGetTdVmCallInfo { ret, ..info }.words();
    let by_notify = KvmTdxExitSetupEventNotify { ret, ..notify }.words();
    assert(forall|i: int| 0 < i < 6 ==> by_unknown[i] == unknown.words()[i]);
    assert(forall|i: int| 0 < i < 3 ==> by_quote[i] == get_quote.words()[i]);
    assert(forall|i: int| 0 < i < 6 ==> by_info[i] == info.words()[i]);
    assert(forall|i: int| 0 < i < 2 ==> by_notify[i] == notify.words()[i]);
    assert(overlay(u@, by_unknown) =~= u@.update(0, ret));
    assert(overlay(u@, by_quote) =~= u@.update(0, ret));
    assert(overlay(u@, by_info) =~= u@.update(0, ret));
    assert(overlay(u@, by_notify) =~= u@.update(0, ret));
}

/// The commands have the numbers that KVM gives them, and no two have the same.
pub proof fn law_command_numbers(a: TdxCommand, b: TdxCommand)
    ensures
        TdxCommand::Capabilities.number() == 0,
        TdxCommand::InitVm.number() == 1,
        TdxCommand::InitVcpu.number() == 2,
        TdxCommand::InitMemRegion.number() == 3,
        TdxCommand::Finalize.number() == 4,
        a.number() == b.number() <==> a == b,
{
}

/// A blank list offers 80 leaves, and there is nothing in any of them.
pub proof fn law_blank_list(list: kvm_cpuid2, i: int)
    requires
        list.is_blank(),
        0 <= i < 80,
    ensures
        list.nent == 80,
        list.padding == 0,
        list.entries@.len() == 80,
        ({
            let entry = list.entries@[i];
            &&& entry.function == 0 && entry.index == 0 && entry.flags == 0
            &&& entry.eax == 0 && entry.ebx == 0 && entry.ecx == 0 && entry.edx == 0
            &&& entry.padding@[0] == 0 && entry.padding@[1] == 0 && entry.padding@[2] == 0
        }),
{
    assert(list.entries@[i].is_zero());
}

/// Each call has its words in the order of its fields.
pub proof fn law_words_of_calls(
    unknown: KvmTdxExitUnknown,
    get_quote: KvmTdxExitGetQuote,
    info: KvmTdxExitGetTdVmCallInfo,
    notify: KvmTdxExitSetupEventNotify,
)
    ensures
        unknown.words().len() == 6,
        unknown.words()[0] == unknown.ret,
        forall|i: int| 0 <= i < 5 ==> #[trigger] unknown.words()[1 + i] == unknown.data@[i],
        get_quote.words() == seq![get_quote.ret, get_quote.gpa, get_quote.size],
        info.words() == seq![info.ret, info.leaf, info.r11, info.r12, info.r13, info.r14],
        notify.words() == seq![notify.ret, notify.vector],
{
}

/// Words that are put in front replace as many, and leave the others where they were.
pub proof fn law_overlay(all: Seq<u64>, first: Seq<u64>, i: int)
    requires
        first.len() <= all.len(),
        0 <= i < all.len(),
    ensures
        overlay(all, first).len() == all.len(),
        overlay(all, first)[i] == if i < first.len() {
            first[i]
        } else {
            all[i]
        },
{
}

} // verus!

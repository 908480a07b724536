use tdx_qgs::tdx::{
    kvm_cpuid2, kvm_tdx_capabilities, KvmTdxExitGetQuote, KvmTdxExitGetTdVmCallInfo,
    KvmTdxExitSetupEventNotify, KvmTdxExitU, KvmTdxExitUnknown, TdxCommand,
    TDX_MAX_NR_CPUID_CONFIGS,
};

#[test]
fn commands_have_their_numbers() {
    assert_eq!(TdxCommand::Capabilities.id(), 0);
    assert_eq!(TdxCommand::InitVm.id(), 1);
    assert_eq!(TdxCommand::InitVcpu.id(), 2);
    assert_eq!(TdxCommand::InitMemRegion.id(), 3);
    assert_eq!(TdxCommand::Finalize.id(), 4);
}

#[test]
fn blank_list_holds_default_leaves() {
    let list = kvm_cpuid2::default();
    assert_eq!(list.nent, 80);
    assert_eq!(list.padding, 0);
    assert_eq!(list.entries.len(), TDX_MAX_NR_CPUID_CONFIGS);
    let leaf = kvm_bindings::kvm_cpuid_entry2::default();
    for entry in list.entries.iter() {
        assert_eq!(entry.function, leaf.function);
        assert_eq!(entry.index, leaf.index);
        assert_eq!(entry.flags, leaf.flags);
        assert_eq!(entry.eax, leaf.eax);
        assert_eq!(entry.ebx, leaf.ebx);
        assert_eq!(entry.ecx, leaf.ecx);
        assert_eq!(entry.edx, leaf.edx);
        assert_eq!(entry.padding, leaf.padding);
        assert_eq!((entry.function, entry.eax, entry.padding), (0, 0, [0, 0, 0]));
    }
}

#[test]
fn blank_capabilities_are_zero() {
    let caps = kvm_tdx_capabilities::default();
    assert_eq!(caps.supported_attrs, 0);
    assert_eq!(caps.supported_xfam, 0);
    assert_eq!(caps.kernel_tdvmcallinfo_1_r11, 0);
    assert_eq!(caps.user_tdvmcallinfo_1_r11, 0);
    assert_eq!(caps.kernel_tdvmcallinfo_1_r12, 0);
    assert_eq!(caps.user_tdvmcallinfo_1_r12, 0);
    assert_eq!(caps.reserved, [0u64; 250]);
    assert_eq!(caps.cpuid.nent, 80);
}

#[test]
fn words_are_read_as_any_call() {
    let u = KvmTdxExitU { words: [1, 2, 3, 4, 5, 6] };
    let unknown = u.unknown();
    assert_eq!((unknown.ret, unknown.data), (1, [2, 3, 4, 5, 6]));
    assert_eq!(u.get_quote(), KvmTdxExitGetQuote { ret: 1, gpa: 2, size: 3 });
    assert_eq!(
        u.get_tdvmcall_info(),
        KvmTdxExitGetTdVmCallInfo { ret: 1, leaf: 2, r11: 3, r12: 4, r13: 5, r14: 6 }
    );
    assert_eq!(u.setup_event_notify(), KvmTdxExitSetupEventNotify { ret: 1, vector: 2 });
}

#[test]
fn words_of_a_call_leave_the_others() {
    let mut u = KvmTdxExitU { words: [1, 2, 3, 4, 5, 6] };
    u.set_setup_event_notify(KvmTdxExitSetupEventNotify { ret: 10, vector: 20 });
    assert_eq!(u.words, [10, 20, 3, 4, 5, 6]);
    u.set_get_quote(KvmTdxExitGetQuote { ret: 11, gpa: 21, size: 31 });
    assert_eq!(u.words, [11, 21, 31, 4, 5, 6]);
    u.set_get_tdvmcall_info(KvmTdxExitGetTdVmCallInfo {
        ret: 1,
        leaf: 2,
        r11: 3,
        r12: 4,
        r13: 5,
        r14: 7,
    });
    assert_eq!(u.words, [1, 2, 3, 4, 5, 7]);
    u.set_unknown(KvmTdxExitUnknown { ret: 9, data: [8, 7, 6, 5, 4] });
    assert_eq!(u.words, [9, 8, 7, 6, 5, 4]);
}

#[test]
fn status_arrives_through_any_call() {
    let mut u = KvmTdxExitU { words: [1, 2, 3, 4, 5, 6] };
    u.set_get_quote(KvmTdxExitGetQuote { ret: 77, ..u.get_quote() });
    assert_eq!(u.words, [77, 2, 3, 4, 5, 6]);
    assert_eq!(u.unknown().ret, 77);
    assert_eq!(u.get_tdvmcall_info().ret, 77);
    assert_eq!(u.setup_event_notify().ret, 77);
    u.set_setup_event_notify(KvmTdxExitSetupEventNotify { ret: 78, ..u.setup_event_notify() });
    assert_eq!(u.get_quote().ret, 78);
}

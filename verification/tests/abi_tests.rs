use syscall_test::abi::{
    stack_needs_more, AuxEntry, AuxRendering, AT_BASE_PLATFORM, AT_ENTRY, AT_EXECFD, AT_EXECFN,
    AT_NULL, AT_PHDR, AT_PHENT, AT_PHNUM, AT_PLATFORM, AT_UID,
};
use syscall_test::AbiContext;

const START_ADDRESS: u64 = 0x5555_5555_4abc;

/// argc, argv..., NULL, envp..., NULL, (type, value)..., AT_NULL entry.
fn layout(args: &[u64], envs: &[u64], aux: &[(u64, u64)]) -> Vec<u64> {
    let mut words = vec![args.len() as u64];
    words.extend_from_slice(args);
    words.push(0);
    words.extend_from_slice(envs);
    words.push(0);
    for (t, v) in aux {
        words.push(*t);
        words.push(*v);
    }
    words.push(AT_NULL as u64);
    words.push(0);
    words
}

fn sample() -> Vec<u64> {
    layout(
        &[0x7000, 0x7010],
        &[0x7100, 0x7110, 0x7120],
        &[
            (AT_PHDR as u64, 0x4000_0040),
            (AT_PHENT as u64, 56),
            (AT_PHNUM as u64, 13),
            (AT_ENTRY as u64, 0x4000_1000),
            (AT_UID as u64, 1000),
        ],
    )
}

fn read_until_complete(words: &[u64]) -> Vec<u64> {
    let mut read = Vec::new();
    while stack_needs_more(&read) {
        read.push(words[read.len()]);
    }
    read
}

#[test]
fn reading_stops_after_the_null_aux_type() {
    let words = sample();
    let read = read_until_complete(&words);
    // The value word of the AT_NULL entry is not needed.
    assert_eq!(read.len(), words.len() - 1);
    assert!(stack_needs_more(&Vec::new()));
    assert!(stack_needs_more(&vec![5, 1, 2]));
}

#[test]
fn counts_are_read_from_the_layout() {
    let ctx = AbiContext::new(0x7ffe_0000, sample());
    assert_eq!(ctx.argc(), 2);
    assert_eq!(ctx.envc(), 3);
    assert_eq!(ctx.auxc(), 5);
    assert_eq!(ctx.rsp(), 0x7ffe_0000);
    assert_eq!(ctx.argv_pointer(1), 0x7010);
    assert_eq!(ctx.env_pointer(2), 0x7120);
}

#[test]
fn aux_entries_are_found_by_type() {
    let ctx = AbiContext::new(0, sample());
    assert_eq!(ctx.get_auxv_index(AT_PHDR), Some(0));
    assert_eq!(ctx.get_auxv_index(AT_ENTRY), Some(3));
    assert_eq!(ctx.get_auxv_index(AT_EXECFN), None);
    assert_eq!(ctx.get_auxv_index(AT_NULL), Some(5));
    let e = ctx.auxv(4);
    assert_eq!((e.a_type, e.a_val), (AT_UID, 1000));
}

#[test]
fn phdr_triple() {
    let ctx = AbiContext::new(0, sample());
    assert_eq!(ctx.get_phdr(), Some((0x4000_0040, 56, 13)));
    let no_phnum = layout(&[], &[], &[(AT_PHDR as u64, 1), (AT_PHENT as u64, 2)]);
    assert_eq!(AbiContext::new(0, no_phnum).get_phdr(), None);
}

#[test]
fn interpreter_when_entry_is_elsewhere() {
    let ctx = AbiContext::new(0, sample());
    assert!(ctx.is_interpreter(START_ADDRESS));
    assert!(!ctx.is_interpreter(0x4000_1000));
    assert_eq!(ctx.entry(), 0x4000_1000);
    let no_entry = layout(&[], &[], &[(AT_UID as u64, 0)]);
    assert!(!AbiContext::new(0, no_entry).is_interpreter(START_ADDRESS));
}

#[test]
fn aux_type_is_low_half_of_word() {
    // Only the low 32 bits of the type word count; the high half is padding.
    let words = layout(&[], &[], &[((0xdead_beef_u64 << 32) | AT_ENTRY as u64, 77)]);
    let ctx = AbiContext::new(0, words);
    assert_eq!(ctx.get_auxv_index(AT_ENTRY), Some(0));
    assert_eq!(ctx.entry(), 77);
}

#[test]
fn argument_and_environment_text() {
    let ctx = AbiContext::new(0, sample());
    let memory = b"./test\0ignored";
    assert_eq!(ctx.argv_bytes(0, memory), b"./test");
    assert_eq!(ctx.argv(0, memory).ok(), Some("./test"));
    assert_eq!(ctx.env_bytes(1, b"HOME=/root\0"), b"HOME=/root");
    assert_eq!(ctx.env(1, b"PATH=/bin\0").ok(), Some("PATH=/bin"));
    assert!(ctx.env(0, &[0xC3, 0x28, 0]).is_err());
}

#[test]
fn aux_labels_and_renderings() {
    let cases = [
        (AT_NULL, "NULL", AuxRendering::Zero),
        (AT_EXECFD, "AT_EXECFD", AuxRendering::Hex),
        (AT_PHDR, "AT_PHDR", AuxRendering::Pointer),
        (AT_PHENT, "AT_PHENT", AuxRendering::Hex),
        (AT_PHNUM, "AT_PHNUM", AuxRendering::Hex),
        (AT_ENTRY, "AT_ENTRY", AuxRendering::Pointer),
        (AT_UID, "AT_UID", AuxRendering::Hex),
        (AT_PLATFORM, "AT_PLATFORM", AuxRendering::Text),
        (AT_BASE_PLATFORM, "AT_BASE_PLATFORM", AuxRendering::Text),
        (AT_EXECFN, "AT_EXECFN", AuxRendering::Text),
        (6, "-", AuxRendering::Other),
    ];
    for (t, label, rendering) in cases.iter() {
        let e = AuxEntry { a_type: *t, a_val: 0 };
        assert_eq!(e.label(), *label);
        assert_eq!(e.rendering(), *rendering);
    }
}

#[test]
fn reading_past_the_layout_changes_nothing() {
    let mut words = sample();
    let before = AbiContext::new(0, words.clone());
    words.extend_from_slice(&[1, 2, 3, 0, 9]);
    let after = AbiContext::new(0, words);
    assert_eq!(before.argc(), after.argc());
    assert_eq!(before.envc(), after.envc());
    assert_eq!(before.auxc(), after.auxc());
    assert_eq!(before.get_phdr(), after.get_phdr());
}

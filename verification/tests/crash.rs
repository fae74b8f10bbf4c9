use ozone::crash::{
    abort_report, annotate, describe, esr_description, exception_summary, exception_type_name, nso_module_name,
    nso_name_length, register_dump, stack_scan_range, stack_section, ExceptionState, MemoryRegion, StackScan,
    StaticModule,
};
use ozone::loader::LoadedPlugins;

fn plugins() -> LoadedPlugins {
    let mut p = LoadedPlugins::new();
    p.record("plugin".to_string(), 0x1000, 0x100);
    p
}

fn modules() -> Vec<StaticModule> {
    vec![
        StaticModule { start: 0x800_0000, size: 0x1000, name: None },
        StaticModule { start: 0x900_0000, size: 0x100, name: Some("main".to_string()) },
        StaticModule { start: 0x900_0000, size: 0x1000, name: Some("shadowed".to_string()) },
    ]
}

const RULE: &str = "===============================================================\n";

#[test]
fn exception_type_names() {
    assert_eq!(exception_type_name(0x100), "InstructionAbort");
    assert_eq!(exception_type_name(0x101), "DataAbort");
    assert_eq!(exception_type_name(0x105), "ExceptionInstruction (brk / Rust abort or panic)");
    assert_eq!(exception_type_name(0x200), "FpuException");
    assert_eq!(exception_type_name(0x302), "SystemCallBreak");
    assert_eq!(exception_type_name(0x107), "Unknown");
    assert_eq!(exception_type_name(0), "Unknown");
}

#[test]
fn esr_descriptions() {
    assert_eq!(esr_description(0x9200_0007), "data abort on read, translation fault (unmapped)");
    assert_eq!(esr_description(0x9200_0047), "data abort on write, translation fault (unmapped)");
    assert_eq!(esr_description(0x9600_004F), "data abort on write, permission fault (no rw/x permission)");
    assert_eq!(esr_description(0x8200_000F), "instruction abort, permission fault (no rw/x permission)");
    assert_eq!(esr_description(0x8600_0000), "instruction abort, address size fault");
    assert_eq!(esr_description(0x8600_0009), "instruction abort, access flag fault");
    assert_eq!(esr_description(0x8600_0010), "instruction abort, other");
    assert_eq!(esr_description(0xF000_1234), "brk #0x1234");
    assert_eq!(esr_description(0xF201_0000), "brk #0x0");
    assert_eq!(esr_description(0x5400_0000), "svc");
    assert_eq!(esr_description(0x0000_0000), "unknown reason");
    assert_eq!(esr_description(0x3800_0000), "illegal execution state");
    assert_eq!(esr_description(0x6000_0000), "system register trap");
    assert_eq!(esr_description(0x8800_0000), "pc alignment fault");
    assert_eq!(esr_description(0x9800_0000), "sp alignment fault");
    assert_eq!(esr_description(0xB000_0000), "floating point exception");
    assert_eq!(esr_description(0xC400_0000), "breakpoint");
    assert_eq!(esr_description(0xCC00_0000), "software step");
    assert_eq!(esr_description(0xD400_0000), "watchpoint");
    assert_eq!(esr_description(0xFC00_0000), "ec 0x3f");
    assert_eq!(esr_description(0x0400_0000), "ec 0x1");
}

#[test]
fn describe_prefers_plugins_then_the_first_static_module() {
    let p = plugins();
    let m = modules();
    assert_eq!(describe(0x1010, &p, &m), Some("plugin + 0x10".to_string()));
    assert_eq!(describe(0x800_0010, &p, &m), Some("module0 + 0x10".to_string()));
    assert_eq!(describe(0x900_0000, &p, &m), Some("main + 0x0".to_string()));
    assert_eq!(describe(0x900_0100, &p, &m), Some("shadowed + 0x100".to_string()));
    assert_eq!(describe(0x5, &p, &m), None);
    assert_eq!(describe(0x1100, &p, &m), None);
}

#[test]
fn annotate_pads_and_describes() {
    let p = plugins();
    let m = modules();
    assert_eq!(annotate(0x1010, &p, &m), "0x0000000000001010 (plugin + 0x10)");
    assert_eq!(annotate(5, &p, &m), "0x0000000000000005");
}

#[test]
fn nso_name_lengths() {
    assert_eq!(nso_name_length(0), None);
    assert_eq!(nso_name_length(1), Some(1));
    assert_eq!(nso_name_length(0x80), Some(0x80));
    assert_eq!(nso_name_length(0x81), None);
    assert_eq!(nso_name_length(u32::MAX), None);
}

#[test]
fn nso_module_names() {
    assert_eq!(nso_module_name(b"main\0junk"), Some("main".to_string()));
    assert_eq!(nso_module_name(b"rtld"), Some("rtld".to_string()));
    assert_eq!(nso_module_name(b"\0abc"), None);
    assert_eq!(nso_module_name(b""), None);
    assert_eq!(nso_module_name(b"ma in"), None);
    assert_eq!(nso_module_name(b"caf\xc3\xa9"), None);
    assert_eq!(nso_module_name(b"ok\0\xff"), Some("ok".to_string()));
}

#[test]
fn abort_report_text() {
    let report = abort_report(0x2A8, "R_SUCCEEDED(rc)", "main.cpp", 42, "Load");
    let expected = String::new()
        + "==================== ozone: exlaunch abort ====================\n"
        + "value: 0x2a8 (module 168, description 1)\n"
        + "expr:  R_SUCCEEDED(rc)\n"
        + "at:    main.cpp:42 in Load\n"
        + RULE;
    assert_eq!(report, expected);

    let report = abort_report(u64::MAX, "", "", -3, "");
    let expected = format!(
        "==================== ozone: exlaunch abort ====================\nvalue: {:#x} (module {}, description {})\nexpr:  \nat:    :-3 in \n{}",
        u64::MAX,
        u64::MAX & 0x1FF,
        (u64::MAX >> 9) & 0x1FFF,
        RULE
    );
    assert_eq!(report, expected);
}

#[test]
fn exception_summary_text() {
    let st = ExceptionState {
        error_description: 0x101,
        fp: 0x10,
        lr: 0x5,
        sp: 0x20,
        pc: 0x800_0010,
        pstate: 0x6000_0000,
        esr: 0x9200_0007,
        far: 0x1010,
    };
    let expected = String::new()
        + "==================== ozone: user exception ====================\n"
        + "Type:  0x101 (DataAbort)\n"
        + "ESR:   0x92000007 (data abort on read, translation fault (unmapped))\n"
        + "FAR:   0x0000000000001010 (plugin + 0x10)\n"
        + "PC:    0x0000000008000010 (module0 + 0x10)\n"
        + "LR:    0x0000000000000005\n"
        + "FP:    0x0000000000000010\n"
        + "SP:    0x0000000000000020\n"
        + "PSTATE 0x60000000\n";
    assert_eq!(exception_summary(&st, &plugins(), &modules()), expected);
}

#[test]
fn register_dump_text() {
    let text = register_dump(&[0x1010, 0x5], &plugins(), &modules());
    assert_eq!(text, "X[00]: 0x0000000000001010 (plugin + 0x10)\nX[01]: 0x0000000000000005\n");
    let many: Vec<u64> = (0..29).collect();
    let text = register_dump(&many, &plugins(), &modules());
    assert_eq!(text.lines().count(), 29);
    assert_eq!(text.lines().last(), Some("X[28]: 0x000000000000001c"));
    assert_eq!(register_dump(&[], &plugins(), &modules()), "");
}

#[test]
fn stack_scan_ranges() {
    let region = MemoryRegion { addr: 0x1000, size: 0x2000, perm: 3 };
    assert_eq!(stack_scan_range(0x1004, Some(region)), StackScan::Words { start: 0x1000, end: 0x2000 });
    assert_eq!(stack_scan_range(0x2800, Some(region)), StackScan::Words { start: 0x2800, end: 0x3000 });
    let small = MemoryRegion { addr: 0x1000, size: 0x800, perm: 1 };
    assert_eq!(stack_scan_range(0x1000, Some(small)), StackScan::Words { start: 0x1000, end: 0x1800 });
    let write_only = MemoryRegion { addr: 0x1000, size: 0x800, perm: 2 };
    assert_eq!(stack_scan_range(0x1000, Some(write_only)), StackScan::Unreadable);
    assert_eq!(stack_scan_range(0x0fff, Some(small)), StackScan::Unreadable);
    assert_eq!(stack_scan_range(0x1800, Some(small)), StackScan::Unreadable);
    assert_eq!(stack_scan_range(0x1000, None), StackScan::QueryFailed);
}

#[test]
fn stack_section_lists_code_pointers() {
    let words = [0x1010u64, 7, 0x800_0010];
    let text = stack_section(0x1000, StackScan::Words { start: 0x1000, end: 0x1018 }, &words, &plugins(), &modules());
    let expected = String::new()
        + "Code pointers on the stack (newest first):\n"
        + "  [sp+0x0000] 0x0000000000001010 (plugin + 0x10)\n"
        + "  [sp+0x0010] 0x0000000008000010 (module0 + 0x10)\n"
        + RULE;
    assert_eq!(text, expected);
}

#[test]
fn stack_section_offsets_from_an_unaligned_sp() {
    // sp = 0x1004: the first word is read at 0x1000 and is no code pointer
    let words = [1u64, 0x1020];
    let text = stack_section(0x1004, StackScan::Words { start: 0x1000, end: 0x1010 }, &words, &plugins(), &modules());
    let expected = String::new()
        + "Code pointers on the stack (newest first):\n"
        + "  [sp+0x0004] 0x0000000000001020 (plugin + 0x20)\n"
        + RULE;
    assert_eq!(text, expected);
}

#[test]
fn stack_section_without_pointers() {
    let text = stack_section(0x1000, StackScan::Words { start: 0x1000, end: 0x1010 }, &[1, 2], &plugins(), &modules());
    let expected = String::new()
        + "Code pointers on the stack (newest first):\n"
        + "  (no code pointers found in 0x10 bytes)\n"
        + RULE;
    assert_eq!(text, expected);
}

#[test]
fn stack_section_when_the_stack_cannot_be_read() {
    let text = stack_section(0x1000, StackScan::QueryFailed, &[], &plugins(), &modules());
    assert_eq!(text, String::new() + "Code pointers on the stack (newest first):\n  (stack region query failed)\n" + RULE);
    let text = stack_section(0x1000, StackScan::Unreadable, &[], &plugins(), &modules());
    assert_eq!(text, String::new() + "Code pointers on the stack (newest first):\n  (sp is not in readable memory)\n" + RULE);
}

#[test]
fn stack_section_word_below_an_unaligned_sp_wraps() {
    let words = [0x1010u64];
    let text = stack_section(0x1004, StackScan::Words { start: 0x1000, end: 0x1008 }, &words, &plugins(), &modules());
    let expected = String::new()
        + "Code pointers on the stack (newest first):\n"
        + &format!("  [sp+{:#06x}] 0x0000000000001010 (plugin + 0x10)\n", 0x1000u64.wrapping_sub(0x1004))
        + RULE;
    assert_eq!(text, expected);
    assert!(text.contains("[sp+0xfffffffffffffffc]"));
}

//! Text of crash reports: user exceptions (CPU faults, `brk` aborts) and exlaunch aborts.
//! Addresses are annotated with the plugin or static module that holds them.

use vstd::prelude::*;

use crate::fmt::{dec_text, hex_text, push_char, push_decimal, push_hex, push_signed, push_str, signed_text};
use crate::loader::{
    entry_contains, first_containing, lemma_first_containing_bounds, lemma_first_containing_least, plugin_for_address, plugin_location,
    LoadedPlugins,
};

verus! {

/// Name of the kind of exception that nnSdk reports in a frame's error description.
pub open spec fn exception_type_text(desc: u32) -> Seq<char> {
    if desc == 0x100 {
        "InstructionAbort"@
    } else if desc == 0x101 {
        "DataAbort"@
    } else if desc == 0x102 {
        "UnalignedInstruction"@
    } else if desc == 0x103 {
        "UnalignedData"@
    } else if desc == 0x104 {
        "UndefinedInstruction"@
    } else if desc == 0x105 {
        "ExceptionInstruction (brk / Rust abort or panic)"@
    } else if desc == 0x106 {
        "MemorySystemError"@
    } else if desc == 0x200 {
        "FpuException"@
    } else if desc == 0x301 {
        "InvalidSystemCall"@
    } else if desc == 0x302 {
        "SystemCallBreak"@
    } else {
        "Unknown"@
    }
}

/// Whether nnSdk reports `desc` as one of its ten kinds of exception.
pub open spec fn known_exception(desc: u32) -> bool {
    desc == 0x100 || desc == 0x101 || desc == 0x102 || desc == 0x103 || desc == 0x104 || desc == 0x105 || desc
        == 0x106 || desc == 0x200 || desc == 0x301 || desc == 0x302
}

/// Every one of the ten kinds of exception has a name of its own, none of them `Unknown`;
/// every other error description is `Unknown`.
pub proof fn law_exception_names_distinct(a: u32, b: u32)
    ensures
        exception_type_text(a) == "Unknown"@ <==> !known_exception(a),
        known_exception(a) && known_exception(b) && a != b ==> exception_type_text(a) != exception_type_text(b),
{
    reveal_strlit("InstructionAbort");
    reveal_strlit("DataAbort");
    reveal_strlit("UnalignedInstruction");
    reveal_strlit("UnalignedData");
    reveal_strlit("UndefinedInstruction");
    reveal_strlit("ExceptionInstruction (brk / Rust abort or panic)");
    reveal_strlit("MemorySystemError");
    reveal_strlit("FpuException");
    reveal_strlit("InvalidSystemCall");
    reveal_strlit("SystemCallBreak");
    reveal_strlit("Unknown");
    let ta = exception_type_text(a);
    let tb = exception_type_text(b);
    if known_exception(a) {
        assert(ta.len() != 7 || ta[0] != 'U' || ta[1] != 'n' || ta[2] != 'k');
    }
    if known_exception(a) && known_exception(b) && a != b {
        assert(ta.len() != tb.len() || ta[0] != tb[0] || ta[2] != tb[2]);
    }
}

/// Names the kind of exception of an error description.
pub fn exception_type_name(desc: u32) -> (name: &'static str)
    ensures
        name@ == exception_type_text(desc),
{
    match desc {
        0x100 => "InstructionAbort",
        0x101 => "DataAbort",
        0x102 => "UnalignedInstruction",
        0x103 => "UnalignedData",
        0x104 => "UndefinedInstruction",
        0x105 => "ExceptionInstruction (brk / Rust abort or panic)",
        0x106 => "MemorySystemError",
        0x200 => "FpuException",
        0x301 => "InvalidSystemCall",
        0x302 => "SystemCallBreak",
        _ => "Unknown",
    }
}

/// Exception class of an ESR value (its top six bits).
pub open spec fn esr_class(esr: u32) -> int {
    esr as int / 0x4000000
}

/// Instruction-specific syndrome of an ESR value (its low 25 bits).
pub open spec fn esr_syndrome(esr: u32) -> int {
    esr as int % 0x2000000
}

/// Meaning of a fault status code.
pub open spec fn fault_status_text(fsc: int) -> Seq<char> {
    if fsc / 4 == 0 {
        "address size fault"@
    } else if fsc / 4 == 1 {
        "translation fault (unmapped)"@
    } else if fsc / 4 == 2 {
        "access flag fault"@
    } else if fsc / 4 == 3 {
        "permission fault (no rw/x permission)"@
    } else {
        "other"@
    }
}

/// Describes an ESR value: its exception class and, for aborts and `brk`, the details
/// that its syndrome gives.
pub open spec fn esr_text(esr: u32) -> Seq<char> {
    let ec = esr_class(esr);
    let iss = esr_syndrome(esr);
    if ec == 0x00 {
        "unknown reason"@
    } else if ec == 0x0e {
        "illegal execution state"@
    } else if ec == 0x15 {
        "svc"@
    } else if ec == 0x18 {
        "system register trap"@
    } else if ec == 0x20 || ec == 0x21 {
        "instruction abort, "@ + fault_status_text(iss % 64)
    } else if ec == 0x22 {
        "pc alignment fault"@
    } else if ec == 0x24 || ec == 0x25 {
        "data abort on "@ + (if (iss / 64) % 2 == 1 { "write"@ } else { "read"@ }) + ", "@
            + fault_status_text(iss % 64)
    } else if ec == 0x26 {
        "sp alignment fault"@
    } else if ec == 0x2c {
        "floating point exception"@
    } else if ec == 0x30 || ec == 0x31 {
        "breakpoint"@
    } else if ec == 0x32 || ec == 0x33 {
        "software step"@
    } else if ec == 0x34 || ec == 0x35 {
        "watchpoint"@
    } else if ec == 0x3c {
        "brk #"@ + hex_text((iss % 0x10000) as nat, 0)
    } else {
        "ec "@ + hex_text(ec as nat, 0)
    }
}

fn fault_status(fsc: u32) -> (text: &'static str)
    ensures
        text@ == fault_status_text(fsc as int),
{
    match fsc / 4 {
        0 => "address size fault",
        1 => "translation fault (unmapped)",
        2 => "access flag fault",
        3 => "permission fault (no rw/x permission)",
        _ => "other",
    }
}

/// Describes an ESR value.
pub fn esr_description(esr: u32) -> (text: String)
    ensures
        text@ == esr_text(esr),
{
    let ec = esr >> 26;
    let iss = esr & 0x1FF_FFFF;
    assert(ec == esr / 0x4000000) by (bit_vector)
        requires ec == esr >> 26;
    assert(iss == esr % 0x2000000) by (bit_vector)
        requires iss == esr & 0x1FF_FFFF;
    match ec {
        0x00 => "unknown reason".to_owned(),
        0x0e => "illegal execution state".to_owned(),
        0x15 => "svc".to_owned(),
        0x18 => "system register trap".to_owned(),
        0x20 | 0x21 => {
            let mut s = "instruction abort, ".to_owned();
            push_str(&mut s, fault_status(iss % 64));
            s
        },
        0x22 => "pc alignment fault".to_owned(),
        0x24 | 0x25 => {
            let mut s = "data abort on ".to_owned();
            push_str(&mut s, if (iss / 64) % 2 == 1 { "write" } else { "read" });
            push_str(&mut s, ", ");
            push_str(&mut s, fault_status(iss % 64));
            s
        },
        0x26 => "sp alignment fault".to_owned(),
        0x2c => "floating point exception".to_owned(),
        0x30 | 0x31 => "breakpoint".to_owned(),
        0x32 | 0x33 => "software step".to_owned(),
        0x34 | 0x35 => "watchpoint".to_owned(),
        0x3c => {
            let mut s = "brk #".to_owned();
            push_hex(&mut s, (iss % 0x10000) as u64, 0);
            s
        },
        _ => {
            let mut s = "ec ".to_owned();
            push_hex(&mut s, ec as u64, 0);
            s
        },
    }
}


// ---------------------------------------------------------------------------
// Naming addresses
// ---------------------------------------------------------------------------

/// A static (NSO) module of the process: its address range and, if its rodata carries a
/// valid `.nx-module-name`, that name.
pub struct StaticModule {
    pub start: u64,
    pub size: u64,
    pub name: Option<String>,
}

/// Whether the module's range holds `addr`.
pub open spec fn module_contains(m: StaticModule, addr: u64) -> bool {
    m.start <= addr && addr < m.start + m.size
}

/// Index of the first module whose range holds `addr`.
pub open spec fn first_module(modules: Seq<StaticModule>, addr: u64) -> Option<int>
    decreases modules.len(),
{
    if modules.len() == 0 {
        None
    } else if module_contains(modules[0], addr) {
        Some(0)
    } else {
        match first_module(modules.drop_first(), addr) {
            Some(i) => Some(i + 1),
            None => None,
        }
    }
}

/// How a module is named in reports: its own name, or `module<index>`.
pub open spec fn module_label(m: StaticModule, index: int) -> Seq<char> {
    match m.name {
        Some(n) => n@,
        None => "module"@ + dec_text(index as nat, 0),
    }
}

/// Whether the end of every module's range fits in 64 bits.
pub open spec fn module_ranges_fit(modules: Seq<StaticModule>) -> bool {
    forall|i: int| 0 <= i < modules.len() ==> #[trigger] modules[i].start + modules[i].size <= u64::MAX
}

/// `addr` as `module + offset`, when a mounted plugin (looked up first) or a static module
/// holds it.
pub open spec fn describe_text(addr: u64, plugins: Seq<(Seq<char>, usize, usize)>, modules: Seq<StaticModule>) -> Option<
    Seq<char>,
> {
    match plugin_location(plugins, addr as usize) {
        Some(l) => Some(l.0 + " + "@ + hex_text(l.1 as nat, 0)),
        None => match first_module(modules, addr) {
            Some(i) => Some(module_label(modules[i], i) + " + "@ + hex_text((addr - modules[i].start) as nat, 0)),
            None => None,
        },
    }
}

proof fn lemma_first_module(modules: Seq<StaticModule>, addr: u64, i: int)
    requires
        0 <= i <= modules.len(),
        forall|k: int| 0 <= k < i ==> !module_contains(#[trigger] modules[k], addr),
    ensures
        i < modules.len() && module_contains(modules[i], addr) ==> first_module(modules, addr) == Some(i),
        i == modules.len() ==> first_module(modules, addr) is None,
    decreases modules.len(),
{
    if modules.len() > 0 && i > 0 {
        assert forall|k: int| 0 <= k < i - 1 implies !module_contains(#[trigger] modules.drop_first()[k], addr) by {
            assert(modules.drop_first()[k] == modules[k + 1]);
        }
        lemma_first_module(modules.drop_first(), addr, i - 1);
    }
}

/// Describes `addr` as `module + offset` when it lies inside a plugin or a static module.
pub fn describe(addr: u64, plugins: &LoadedPlugins, modules: &Vec<StaticModule>) -> (text: Option<String>)
    requires
        module_ranges_fit(modules@),
    ensures
        text matches Some(t) ==> describe_text(addr, plugins@, modules@) == Some(t@),
        text is None ==> describe_text(addr, plugins@, modules@) is None,
{
    let located = plugin_for_address(plugins, addr as usize);
    match located {
        Some((name, offset)) => {
            let mut s = name;
            push_str(&mut s, " + ");
            push_hex(&mut s, offset as u64, 0);
            return Some(s);
        },
        None => {},
    }
    assert(plugin_location(plugins@, addr as usize) is None);
    let n = modules.len();
    let mut index: usize = 0;
    while index < n
        invariant
            n == modules@.len(),
            index <= n,
            module_ranges_fit(modules@),
            plugin_location(plugins@, addr as usize) is None,
            forall|k: int| 0 <= k < index ==> !module_contains(#[trigger] modules@[k], addr),
        decreases n - index,
    {
        let m = &modules[index];
        assert(modules@[index as int].start + modules@[index as int].size <= u64::MAX);
        let start = m.start;
        let end = start + m.size;
        if start <= addr && addr < end {
            proof {
                lemma_first_module(modules@, addr, index as int);
            }
            let mut s = match &m.name {
                Some(name) => name.clone(),
                None => {
                    let mut t = "module".to_owned();
                    push_decimal(&mut t, index as u64, 0);
                    t
                },
            };
            let ghost label = s@;
            assert(label == module_label(modules@[index as int], index as int));
            push_str(&mut s, " + ");
            push_hex(&mut s, addr - start, 0);
            assert(s@ =~= label + " + "@ + hex_text((addr - start) as nat, 0));
            assert(first_module(modules@, addr) == Some(index as int));
            assert(start == modules@[index as int].start);
            assert(module_label(modules@[index as int], index as int) + " + "@ + hex_text(
                (addr - modules@[index as int].start) as nat,
                0,
            ) == s@);
            return Some(s);
        }
        index = index + 1;
    }
    proof {
        lemma_first_module(modules@, addr, n as int);
    }
    None
}

/// An address inside a mounted plugin is named after the first plugin whose range holds it
/// (the address taken at its full width), at its offset from that plugin's base.
pub proof fn law_describe_names_plugin(
    addr: u64,
    plugins: Seq<(Seq<char>, usize, usize)>,
    modules: Seq<StaticModule>,
    i: int,
)
    requires
        0 <= i < plugins.len(),
        plugins[i].1 <= addr < plugins[i].2,
        forall|k: int| 0 <= k < i ==> !(#[trigger] plugins[k].1 <= addr < plugins[k].2),
    ensures
        describe_text(addr, plugins, modules) == Some(
            plugins[i].0 + " + "@ + hex_text((addr - plugins[i].1) as nat, 0),
        ),
{
    let a = addr as usize;
    assert(a == addr);
    assert forall|k: int| 0 <= k < i implies !entry_contains(#[trigger] plugins[k], a) by {}
    lemma_first_containing_least(plugins, a, i);
}

/// An address that no mounted plugin and no static module holds gets no name (on a target
/// whose addresses fit in `usize`).
pub proof fn law_describe_outside_everything(
    addr: u64,
    plugins: Seq<(Seq<char>, usize, usize)>,
    modules: Seq<StaticModule>,
)
    requires
        addr <= usize::MAX,
        forall|k: int| 0 <= k < plugins.len() ==> !(#[trigger] plugins[k].1 <= addr < plugins[k].2),
        forall|k: int|
            0 <= k < modules.len() ==> !(#[trigger] modules[k].start <= addr < modules[k].start + modules[k].size),
    ensures
        describe_text(addr, plugins, modules) is None,
{
    let a = addr as usize;
    lemma_first_containing_bounds(plugins, a);
    if first_containing(plugins, a) is Some {
        let j = first_containing(plugins, a).unwrap();
        assert(entry_contains(plugins[j], a));
        assert(a == addr);
        assert(plugins[j].1 <= addr < plugins[j].2);
    }
    assert forall|k: int| 0 <= k < modules.len() implies !module_contains(#[trigger] modules[k], addr) by {}
    lemma_first_module(modules, addr, modules.len() as int);
}

/// `addr` as `{:#018x}`, followed by its description in parentheses when it has one.
pub open spec fn annotate_text(addr: u64, description: Option<Seq<char>>) -> Seq<char> {
    match description {
        Some(d) => hex_text(addr as nat, 18) + " ("@ + d + ")"@,
        None => hex_text(addr as nat, 18),
    }
}

/// Writes `addr` for a report, annotated with the module that holds it.
pub fn annotate(addr: u64, plugins: &LoadedPlugins, modules: &Vec<StaticModule>) -> (text: String)
    requires
        module_ranges_fit(modules@),
    ensures
        text@ == annotate_text(addr, describe_text(addr, plugins@, modules@)),
{
    let mut s = String::new();
    push_hex(&mut s, addr, 18);
    match describe(addr, plugins, modules) {
        Some(desc) => {
            push_str(&mut s, " (");
            push_str(&mut s, desc.as_str());
            push_str(&mut s, ")");
        },
        None => {},
    }
    s
}

/// Length of the `.nx-module-name` of a static module, from the length field at the start
/// of its rodata: accepted when it is between 1 and 0x80 bytes.
pub fn nso_name_length(len_field: u32) -> (len: Option<usize>)
    ensures
        len == (if 0 < len_field <= 0x80 { Some(len_field as usize) } else { None::<usize> }),
{
    if len_field == 0 || len_field > 0x80 {
        None
    } else {
        Some(len_field as usize)
    }
}

/// Whether `b` is a printable ASCII character other than space.
pub open spec fn is_ascii_graphic(b: u8) -> bool {
    0x21 <= b <= 0x7E
}

/// The name held in a `.nx-module-name` payload: the bytes before the first NUL, if they
/// are not empty and all printable ASCII.
pub open spec fn nso_name_text(bytes: Seq<u8>) -> Option<Seq<char>> {
    let name = crate::loader::until_nul(bytes);
    if name.len() == 0 || exists|i: int| 0 <= i < name.len() && !is_ascii_graphic(#[trigger] name[i]) {
        None
    } else {
        Some(name.map_values(|b: u8| b as char))
    }
}

/// Reads the module name of a static module from its `.nx-module-name` payload.
pub fn nso_module_name(bytes: &[u8]) -> (name: Option<String>)
    ensures
        name matches Some(n) ==> nso_name_text(bytes@) == Some(n@),
        name is None ==> nso_name_text(bytes@) is None,
{
    let n = bytes.len();
    let mut end: usize = 0;
    let mut s = String::new();
    let mut graphic = true;
    assert(bytes@.skip(0) == bytes@);
    assert(bytes@.take(0) =~= Seq::<u8>::empty());
    assert(s@ =~= bytes@.take(0).map_values(|b: u8| b as char));
    while end < n && bytes[end] != 0
        invariant
            end <= n == bytes@.len(),
            crate::loader::until_nul(bytes@) == bytes@.take(end as int) + crate::loader::until_nul(bytes@.skip(end as int)),
            s@ == bytes@.take(end as int).map_values(|b: u8| b as char),
            graphic == forall|i: int| 0 <= i < end ==> is_ascii_graphic(#[trigger] bytes@[i]),
        decreases n - end,
    {
        let b = bytes[end];
        if !(0x21 <= b && b <= 0x7E) {
            graphic = false;
        }
        push_char(&mut s, b as char);
        assert(bytes@.skip(end as int).drop_first() == bytes@.skip(end + 1));
        assert(bytes@.take(end + 1) == bytes@.take(end as int).push(b));
        assert(bytes@.take(end + 1).map_values(|b: u8| b as char) =~= bytes@.take(end as int).map_values(
            |b: u8| b as char,
        ).push(b as char));
        end = end + 1;
    }
    assert(crate::loader::until_nul(bytes@.skip(end as int)) == Seq::<u8>::empty());
    assert(crate::loader::until_nul(bytes@) =~= bytes@.take(end as int));
    if end == 0 || !graphic {
        proof {
            if end != 0 {
                let i = choose|i: int| 0 <= i < end && !is_ascii_graphic(#[trigger] bytes@[i]);
                assert(crate::loader::until_nul(bytes@)[i] == bytes@[i]);
            }
        }
        None
    } else {
        Some(s)
    }
}

// ---------------------------------------------------------------------------
// exlaunch aborts
// ---------------------------------------------------------------------------

/// Opening line of an exlaunch abort report.
pub open spec fn abort_banner() -> Seq<char> {
    "==================== ozone: exlaunch abort ===================="@
}

/// Closing line of every report.
pub open spec fn closing_rule() -> Seq<char> {
    "==============================================================="@
}

/// The report written when exlaunch aborts with result `value` because `expr` failed in
/// `func`, at `file:line`. The result's module and description are its low 9 bits and the
/// 13 bits above them.
pub open spec fn abort_report_text(value: u64, expr: Seq<char>, file: Seq<char>, line: i32, func: Seq<char>) -> Seq<char> {
    abort_banner() + "\n"@
        + "value: "@ + hex_text(value as nat, 0) + " (module "@ + dec_text((value % 0x200) as nat, 0)
        + ", description "@ + dec_text(((value / 0x200) % 0x2000) as nat, 0) + ")\n"@
        + "expr:  "@ + expr + "\n"@
        + "at:    "@ + file + ":"@ + signed_text(line as int) + " in "@ + func + "\n"@
        + closing_rule() + "\n"@
}

/// Writes the report of an exlaunch abort.
pub fn abort_report(value: u64, expr: &str, file: &str, line: i32, func: &str) -> (report: String)
    ensures
        report@ == abort_report_text(value, expr@, file@, line, func@),
{
    let mut s = String::new();
    push_str(&mut s, "==================== ozone: exlaunch abort ====================");
    push_str(&mut s, "\n");
    push_str(&mut s, "value: ");
    push_hex(&mut s, value, 0);
    push_str(&mut s, " (module ");
    let module = value & 0x1FF;
    let description = (value >> 9) & 0x1FFF;
    assert(module == value % 0x200) by (bit_vector)
        requires module == value & 0x1FF;
    assert(description == (value / 0x200) % 0x2000) by (bit_vector)
        requires description == (value >> 9) & 0x1FFF;
    push_decimal(&mut s, module, 0);
    push_str(&mut s, ", description ");
    push_decimal(&mut s, description, 0);
    push_str(&mut s, ")\n");
    push_str(&mut s, "expr:  ");
    push_str(&mut s, expr);
    push_str(&mut s, "\n");
    push_str(&mut s, "at:    ");
    push_str(&mut s, file);
    push_str(&mut s, ":");
    push_signed(&mut s, line as i64);
    push_str(&mut s, " in ");
    push_str(&mut s, func);
    push_str(&mut s, "\n");
    push_str(&mut s, "===============================================================");
    push_str(&mut s, "\n");
    assert(s@ =~= abort_report_text(value, expr@, file@, line, func@));
    s
}


// ---------------------------------------------------------------------------
// User exceptions
// ---------------------------------------------------------------------------

/// The registers of a user exception frame that its first report section shows.
pub struct ExceptionState {
    pub error_description: u32,
    pub fp: u64,
    pub lr: u64,
    pub sp: u64,
    pub pc: u64,
    pub pstate: u32,
    pub esr: u32,
    pub far: u64,
}

/// Opening line of a user exception report.
pub open spec fn exception_banner() -> Seq<char> {
    "==================== ozone: user exception ===================="@
}

/// The first section of a user exception report: kind, syndrome, fault address and the
/// special registers, addresses annotated with the modules that hold them.
pub open spec fn exception_summary_text(
    st: ExceptionState,
    plugins: Seq<(Seq<char>, usize, usize)>,
    modules: Seq<StaticModule>,
) -> Seq<char> {
    exception_banner() + "\n"@
        + "Type:  "@ + hex_text(st.error_description as nat, 0) + " ("@ + exception_type_text(st.error_description) + ")\n"@
        + "ESR:   "@ + hex_text(st.esr as nat, 10) + " ("@ + esr_text(st.esr) + ")\n"@
        + "FAR:   "@ + annotate_text(st.far, describe_text(st.far, plugins, modules)) + "\n"@
        + "PC:    "@ + annotate_text(st.pc, describe_text(st.pc, plugins, modules)) + "\n"@
        + "LR:    "@ + annotate_text(st.lr, describe_text(st.lr, plugins, modules)) + "\n"@
        + "FP:    "@ + hex_text(st.fp as nat, 18) + "\n"@
        + "SP:    "@ + hex_text(st.sp as nat, 18) + "\n"@
        + "PSTATE "@ + hex_text(st.pstate as nat, 10) + "\n"@
}

/// Writes the first section of a user exception report.
pub fn exception_summary(st: &ExceptionState, plugins: &LoadedPlugins, modules: &Vec<StaticModule>) -> (section: String)
    requires
        module_ranges_fit(modules@),
    ensures
        section@ == exception_summary_text(*st, plugins@, modules@),
{
    let mut s = String::new();
    push_str(&mut s, "==================== ozone: user exception ====================");
    push_str(&mut s, "\n");
    push_str(&mut s, "Type:  ");
    push_hex(&mut s, st.error_description as u64, 0);
    push_str(&mut s, " (");
    push_str(&mut s, exception_type_name(st.error_description));
    push_str(&mut s, ")\n");
    push_str(&mut s, "ESR:   ");
    push_hex(&mut s, st.esr as u64, 10);
    push_str(&mut s, " (");
    let esr = esr_description(st.esr);
    push_str(&mut s, esr.as_str());
    push_str(&mut s, ")\n");
    push_str(&mut s, "FAR:   ");
    let far = annotate(st.far, plugins, modules);
    push_str(&mut s, far.as_str());
    push_str(&mut s, "\n");
    push_str(&mut s, "PC:    ");
    let pc = annotate(st.pc, plugins, modules);
    push_str(&mut s, pc.as_str());
    push_str(&mut s, "\n");
    push_str(&mut s, "LR:    ");
    let lr = annotate(st.lr, plugins, modules);
    push_str(&mut s, lr.as_str());
    push_str(&mut s, "\n");
    push_str(&mut s, "FP:    ");
    push_hex(&mut s, st.fp, 18);
    push_str(&mut s, "\n");
    push_str(&mut s, "SP:    ");
    push_hex(&mut s, st.sp, 18);
    push_str(&mut s, "\n");
    push_str(&mut s, "PSTATE ");
    push_hex(&mut s, st.pstate as u64, 10);
    push_str(&mut s, "\n");
    assert(s@ =~= exception_summary_text(*st, plugins@, modules@));
    s
}

/// One line per general-purpose register: `X[nn]: ` and the annotated value.
pub open spec fn register_lines(
    registers: Seq<u64>,
    plugins: Seq<(Seq<char>, usize, usize)>,
    modules: Seq<StaticModule>,
) -> Seq<char>
    decreases registers.len(),
{
    if registers.len() == 0 {
        Seq::<char>::empty()
    } else {
        let i = registers.len() - 1;
        register_lines(registers.drop_last(), plugins, modules) + "X["@ + dec_text(i as nat, 2) + "]: "@
            + annotate_text(registers[i], describe_text(registers[i], plugins, modules)) + "\n"@
    }
}

/// Writes the register section of a user exception report.
pub fn register_dump(registers: &[u64], plugins: &LoadedPlugins, modules: &Vec<StaticModule>) -> (section: String)
    requires
        module_ranges_fit(modules@),
    ensures
        section@ == register_lines(registers@, plugins@, modules@),
{
    let mut s = String::new();
    let n = registers.len();
    let mut i: usize = 0;
    assert(registers@.take(0) =~= Seq::<u64>::empty());
    while i < n
        invariant
            n == registers@.len(),
            i <= n,
            module_ranges_fit(modules@),
            s@ == register_lines(registers@.take(i as int), plugins@, modules@),
        decreases n - i,
    {
        let ghost before = s@;
        push_str(&mut s, "X[");
        push_decimal(&mut s, i as u64, 2);
        push_str(&mut s, "]: ");
        let a = annotate(registers[i], plugins, modules);
        push_str(&mut s, a.as_str());
        push_str(&mut s, "\n");
        let ghost next = registers@.take(i + 1);
        assert(next.drop_last() == registers@.take(i as int));
        assert(next[i as int] == registers@[i as int]);
        assert(s@ =~= register_lines(next, plugins@, modules@));
        i = i + 1;
    }
    assert(registers@.take(n as int) == registers@);
    s
}

/// A memory region as the kernel reports it.
#[derive(Clone, Copy)]
pub struct MemoryRegion {
    pub addr: u64,
    pub size: u64,
    pub perm: u32,
}

/// Where the stack scan looks.
#[derive(Clone, Copy, PartialEq, Eq, Structural, Debug)]
pub enum StackScan {
    /// The memory region of the stack pointer could not be queried.
    QueryFailed,
    /// The stack pointer is not in readable memory.
    Unreadable,
    /// The 8-byte words from `start` (the stack pointer rounded down to 8) up to `end`
    /// (at most 0x1000 bytes further, and within the region).
    Words { start: u64, end: u64 },
}

/// Whether the bounds of a scan fit in 64 bits: the region's end does, and so does the
/// page scanned above a readable stack pointer.
pub open spec fn scan_bounds_fit(sp: u64, region: Option<MemoryRegion>) -> bool {
    match region {
        Some(r) => r.addr + r.size <= u64::MAX && ((r.perm % 2 == 1 && r.addr <= sp < r.addr + r.size)
            ==> sp - sp % 8 + 0x1000 <= u64::MAX),
        None => true,
    }
}

/// Where the stack scan looks, given the region that holds the stack pointer.
pub open spec fn stack_scan_spec(sp: u64, region: Option<MemoryRegion>) -> StackScan {
    match region {
        None => StackScan::QueryFailed,
        Some(r) => if r.perm % 2 == 0 || sp < r.addr || sp >= r.addr + r.size {
            StackScan::Unreadable
        } else {
            let start = sp - sp % 8;
            let end = if r.addr + r.size < start + 0x1000 { r.addr + r.size } else { start + 0x1000 };
            StackScan::Words { start: start as u64, end: end as u64 }
        },
    }
}

/// Decides where the stack scan looks.
pub fn stack_scan_range(sp: u64, region: Option<MemoryRegion>) -> (scan: StackScan)
    requires
        scan_bounds_fit(sp, region),
    ensures
        scan == stack_scan_spec(sp, region),
{
    match region {
        None => StackScan::QueryFailed,
        Some(r) => {
            let region_end = r.addr + r.size;
            let perm = r.perm;
            let readable = perm & 1;
            assert(readable == perm % 2) by (bit_vector)
                requires readable == perm & 1;
            if readable == 0 || sp < r.addr || sp >= region_end {
                StackScan::Unreadable
            } else {
                let start = sp & !7u64;
                assert(start == sp - sp % 8) by (bit_vector)
                    requires start == sp & !7u64;
                let limit = start + 0x1000;
                let end = if region_end < limit { region_end } else { limit };
                StackScan::Words { start, end }
            }
        },
    }
}

/// Number of words a scan from `start` to `end` reads.
pub open spec fn scan_word_count(start: u64, end: u64) -> int {
    if end <= start { 0 } else { (end - start + 7) / 8 }
}

/// The offset of `addr` from the stack pointer as a 64-bit subtraction gives it: a word
/// read below an unaligned stack pointer has an offset that wraps around.
pub open spec fn sp_offset(addr: int, sp: u64) -> nat {
    if addr >= sp {
        (addr - sp) as nat
    } else {
        (addr - sp + 0x1_0000_0000_0000_0000) as nat
    }
}

/// The lines for the words `words[from..]`, read at `start + 8 * k`, that point into a
/// known module.
pub open spec fn pointer_lines(
    sp: u64,
    start: u64,
    words: Seq<u64>,
    plugins: Seq<(Seq<char>, usize, usize)>,
    modules: Seq<StaticModule>,
) -> Seq<char>
    decreases words.len(),
{
    if words.len() == 0 {
        Seq::<char>::empty()
    } else {
        let k = words.len() - 1;
        let value = words[k];
        pointer_lines(sp, start, words.drop_last(), plugins, modules) + match describe_text(value, plugins, modules) {
            Some(d) => "  [sp+"@ + hex_text(sp_offset(start + 8 * k, sp), 6) + "] "@ + hex_text(value as nat, 18)
                + " ("@ + d + ")\n"@,
            None => Seq::<char>::empty(),
        }
    }
}

/// Number of words among `words` that point into a known module.
pub open spec fn pointer_count(
    words: Seq<u64>,
    plugins: Seq<(Seq<char>, usize, usize)>,
    modules: Seq<StaticModule>,
) -> nat
    decreases words.len(),
{
    if words.len() == 0 {
        0
    } else {
        pointer_count(words.drop_last(), plugins, modules) + if describe_text(words.last(), plugins, modules) is Some {
            1nat
        } else {
            0nat
        }
    }
}

/// The third section of a user exception report: every word of the scanned stack that
/// points into a known module, newest first.
pub open spec fn stack_section_text(
    sp: u64,
    scan: StackScan,
    words: Seq<u64>,
    plugins: Seq<(Seq<char>, usize, usize)>,
    modules: Seq<StaticModule>,
) -> Seq<char> {
    "Code pointers on the stack (newest first):\n"@ + match scan {
        StackScan::QueryFailed => "  (stack region query failed)\n"@,
        StackScan::Unreadable => "  (sp is not in readable memory)\n"@,
        StackScan::Words { start, end } => pointer_lines(sp, start, words, plugins, modules) + if pointer_count(
            words,
            plugins,
            modules,
        ) == 0 {
            "  (no code pointers found in "@ + hex_text((end - start) as nat, 0) + " bytes)\n"@
        } else {
            Seq::<char>::empty()
        },
    } + closing_rule() + "\n"@
}

/// Whether `words` are the words a scan reads: one per 8 bytes from `start` up to `end`,
/// and none when the stack could not be read.
pub open spec fn scan_words_fit(scan: StackScan, words: Seq<u64>) -> bool {
    match scan {
        StackScan::Words { start, end } => start <= end && words.len() == scan_word_count(start, end),
        _ => words.len() == 0,
    }
}

/// The address of every word a scan reads lies below the end of the scan.
proof fn lemma_scan_address(start: u64, end: u64, k: int)
    requires
        start <= end,
        0 <= k < scan_word_count(start, end),
    ensures
        start + 8 * k < end,
{
    let d = end - start;
    assert(8 * k < d) by (nonlinear_arith)
        requires
            0 <= k < (d + 7) / 8,
            d > 0,
    ;
}

/// Writes the stack section of a user exception report from the words the scan read.
#[verifier::rlimit(50)]
pub fn stack_section(
    sp: u64,
    scan: StackScan,
    words: &[u64],
    plugins: &LoadedPlugins,
    modules: &Vec<StaticModule>,
) -> (section: String)
    requires
        module_ranges_fit(modules@),
        scan_words_fit(scan, words@),
    ensures
        section@ == stack_section_text(sp, scan, words@, plugins@, modules@),
{
    let mut s = String::new();
    push_str(&mut s, "Code pointers on the stack (newest first):\n");
    let ghost head = s@;
    match scan {
        StackScan::QueryFailed => {
            push_str(&mut s, "  (stack region query failed)\n");
        },
        StackScan::Unreadable => {
            push_str(&mut s, "  (sp is not in readable memory)\n");
        },
        StackScan::Words { start, end } => {
            let n = words.len();
            let mut found: u64 = 0;
            let mut k: usize = 0;
            assert(words@.take(0) =~= Seq::<u64>::empty());
            assert(s@ =~= head + pointer_lines(sp, start, words@.take(0), plugins@, modules@));
            while k < n
                invariant
                    n == words@.len(),
                    k <= n,
                    module_ranges_fit(modules@),
                    scan_words_fit(scan, words@),
                    scan == (StackScan::Words { start, end }),
                    found == pointer_count(words@.take(k as int), plugins@, modules@),
                    found <= k,
                    s@ == head + pointer_lines(sp, start, words@.take(k as int), plugins@, modules@),
                decreases n - k,
            {
                let ghost before = s@;
                let value = words[k];
                proof {
                    lemma_scan_address(start, end, k as int);
                }
                let addr = start + 8 * (k as u64);
                let ghost next = words@.take(k + 1);
                assert(next.drop_last() == words@.take(k as int));
                assert(next[k as int] == value);
                assert(next.last() == value);
                match describe(value, plugins, modules) {
                    Some(d) => {
                        let offset = if addr >= sp { addr - sp } else { u64::MAX - (sp - addr) + 1 };
                        assert(offset == sp_offset(addr as int, sp));
                        push_str(&mut s, "  [sp+");
                        push_hex(&mut s, offset, 6);
                        push_str(&mut s, "] ");
                        push_hex(&mut s, value, 18);
                        push_str(&mut s, " (");
                        push_str(&mut s, d.as_str());
                        push_str(&mut s, ")\n");
                        found = found + 1;
                        assert(s@ =~= head + pointer_lines(sp, start, next, plugins@, modules@));
                    },
                    None => {
                        assert(s@ =~= head + pointer_lines(sp, start, next, plugins@, modules@));
                    },
                }
                k = k + 1;
            }
            assert(words@.take(n as int) == words@);
            if found == 0 {
                push_str(&mut s, "  (no code pointers found in ");
                push_hex(&mut s, end - start, 0);
                push_str(&mut s, " bytes)\n");
            }
        },
    }
    push_str(&mut s, "===============================================================");
    push_str(&mut s, "\n");
    assert(s@ =~= stack_section_text(sp, scan, words@, plugins@, modules@));
    s
}

} // verus!

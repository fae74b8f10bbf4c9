//! Descriptions of the process's memory shared with the exlaunch runtime and the kernel.

use vstd::prelude::*;

verus! {

/// A part of a module's image.
#[derive(Clone, Copy, PartialEq, Eq, Structural, Debug)]
pub enum Region {
    Text,
    Rodata,
    Data,
    Bss,
    Heap,
}

/// Index of a well-known static module.
#[derive(Clone, Copy, PartialEq, Eq, Structural, Debug)]
pub enum ModuleIndex {
    Rtld,
    Main,
}

impl ModuleIndex {
    /// The module's index in exlaunch's module table.
    pub fn index(&self) -> (index: i32)
        ensures
            index == (match *self {
                ModuleIndex::Rtld => 0i32,
                ModuleIndex::Main => 1i32,
            }),
    {
        match self {
            ModuleIndex::Rtld => 0,
            ModuleIndex::Main => 1,
        }
    }
}

/// An address range: its first byte and its length.
#[derive(Clone, Copy, PartialEq, Eq, Structural, Debug)]
pub struct Range {
    pub start: usize,
    pub size: usize,
}

/// The ranges of a static module: the whole image and its segments.
#[derive(Clone, Copy, PartialEq, Eq, Structural, Debug)]
pub struct ModuleInfo {
    pub total: Range,
    pub text: Range,
    pub rodata: Range,
    pub data: Range,
}

/// Kinds of information `svcGetInfo` reports.
#[derive(Clone, Copy, PartialEq, Eq, Structural, Debug)]
pub enum InfoType {
    CoreMask,
    PriorityMask,
    AliasRegionAddress,
    AliasRegionSize,
    HeapRegionAddress,
    HeapRegionSize,
    TotalMemorySize,
    UsedMemorySize,
    DebuggerAttached,
    ResourceLimit,
    IdleTickCount,
    RandomEntropy,
    AslrRegionAddress,
    AslrRegionSize,
    StackRegionAddress,
    StackRegionSize,
    SystemResourceSizeTotal,
    SystemResourceSizeUsed,
    ProgramId,
    InitialProcessIdRange,
    UserExceptionContextAddress,
    TotalNonSystemMemorySize,
    UsedNonSystemMemorySize,
    IsApplication,
    MesosphereCurrentProcess,
    ThreadTickCount,
}

/// The kernel's id of each kind of information.
pub open spec fn info_type_id(t: InfoType) -> u32 {
    match t {
        InfoType::CoreMask => 0,
        InfoType::PriorityMask => 1,
        InfoType::AliasRegionAddress => 2,
        InfoType::AliasRegionSize => 3,
        InfoType::HeapRegionAddress => 4,
        InfoType::HeapRegionSize => 5,
        InfoType::TotalMemorySize => 6,
        InfoType::UsedMemorySize => 7,
        InfoType::DebuggerAttached => 8,
        InfoType::ResourceLimit => 9,
        InfoType::IdleTickCount => 10,
        InfoType::RandomEntropy => 11,
        InfoType::AslrRegionAddress => 12,
        InfoType::AslrRegionSize => 13,
        InfoType::StackRegionAddress => 14,
        InfoType::StackRegionSize => 15,
        InfoType::SystemResourceSizeTotal => 16,
        InfoType::SystemResourceSizeUsed => 17,
        InfoType::ProgramId => 18,
        InfoType::InitialProcessIdRange => 19,
        InfoType::UserExceptionContextAddress => 20,
        InfoType::TotalNonSystemMemorySize => 21,
        InfoType::UsedNonSystemMemorySize => 22,
        InfoType::IsApplication => 23,
        InfoType::MesosphereCurrentProcess => 65001,
        InfoType::ThreadTickCount => 0xF0000002,
    }
}

impl InfoType {
    /// The id that `svcGetInfo` takes for this kind of information.
    pub fn id(&self) -> (id: u32)
        ensures
            id == info_type_id(*self),
    {
        match self {
            InfoType::CoreMask => 0,
            InfoType::PriorityMask => 1,
            InfoType::AliasRegionAddress => 2,
            InfoType::AliasRegionSize => 3,
            InfoType::HeapRegionAddress => 4,
            InfoType::HeapRegionSize => 5,
            InfoType::TotalMemorySize => 6,
            InfoType::UsedMemorySize => 7,
            InfoType::DebuggerAttached => 8,
            InfoType::ResourceLimit => 9,
            InfoType::IdleTickCount => 10,
            InfoType::RandomEntropy => 11,
            InfoType::AslrRegionAddress => 12,
            InfoType::AslrRegionSize => 13,
            InfoType::StackRegionAddress => 14,
            InfoType::StackRegionSize => 15,
            InfoType::SystemResourceSizeTotal => 16,
            InfoType::SystemResourceSizeUsed => 17,
            InfoType::ProgramId => 18,
            InfoType::InitialProcessIdRange => 19,
            InfoType::UserExceptionContextAddress => 20,
            InfoType::TotalNonSystemMemorySize => 21,
            InfoType::UsedNonSystemMemorySize => 22,
            InfoType::IsApplication => 23,
            InfoType::MesosphereCurrentProcess => 65001,
            InfoType::ThreadTickCount => 0xF0000002,
        }
    }
}

} // verus!

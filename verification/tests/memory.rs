use ozone::memory::{InfoType, ModuleIndex, ModuleInfo, Range, Region};

#[test]
fn info_type_ids() {
    assert_eq!(InfoType::CoreMask.id(), 0);
    assert_eq!(InfoType::AslrRegionAddress.id(), 12);
    assert_eq!(InfoType::ProgramId.id(), 18);
    assert_eq!(InfoType::IsApplication.id(), 23);
    assert_eq!(InfoType::MesosphereCurrentProcess.id(), 65001);
    assert_eq!(InfoType::ThreadTickCount.id(), 0xF000_0002);
}

#[test]
fn module_indices() {
    assert_eq!(ModuleIndex::Rtld.index(), 0);
    assert_eq!(ModuleIndex::Main.index(), 1);
}

#[test]
fn ranges_compare_by_value() {
    let r = Range { start: 0x1000, size: 0x200 };
    let info = ModuleInfo { total: r, text: r, rodata: Range { start: 0x1100, size: 0x80 }, data: r };
    assert_eq!(info.total, Range { start: 0x1000, size: 0x200 });
    assert_ne!(info.rodata, info.text);
    assert_ne!(Region::Text, Region::Rodata);
}

use delink::analysis::{analyze_external_references, find_symbol_candidates, RelocationResult};
use delink::config::{autoload_name, code_hash_string, make_config_module};
use delink::errors::AnalysisError;
use delink::modules::{AutoloadKind, Module, ModuleKind};
use delink::names::pointer_name;
use delink::relocations::{RelocationKind, RelocationModule, Relocations};
use delink::scan::{find_local_data_from_pools, find_local_data_from_section};
use delink::sections::{CallSite, Function, PoolConstant, Section, SectionKind, Sections};
use delink::symbols::{SymDataKind, SymbolKind, SymbolMap, SymbolMaps};

fn code_section(start: u32, end: u32, functions: Vec<Function>) -> Section {
    Section { kind: SectionKind::Code, start, end, functions }
}

fn data_section(start: u32, end: u32) -> Section {
    Section { kind: SectionKind::Data, start, end, functions: Vec::new() }
}

fn bss_section(start: u32, end: u32) -> Section {
    Section { kind: SectionKind::Bss, start, end, functions: Vec::new() }
}

fn func(start: u32, end: u32, thumb: bool) -> Function {
    Function { start, end, thumb, calls: Vec::new(), pools: Vec::new() }
}

fn main_module(sections: Vec<Section>, base: u32, code: Vec<u8>) -> Module {
    Module { kind: ModuleKind::Main, base_address: base, code, sections: Sections { sections } }
}

fn overlay_module(id: u16, sections: Vec<Section>, base: u32) -> Module {
    Module {
        kind: ModuleKind::Overlay(id),
        base_address: base,
        code: Vec::new(),
        sections: Sections { sections },
    }
}

fn maps_for(modules: &[Module]) -> SymbolMaps {
    let mut maps = SymbolMaps::new();
    for _ in modules {
        maps.push(SymbolMap::new());
    }
    maps
}

#[test]
fn pointer_name_formats_address_as_hex() {
    assert_eq!(pointer_name("data_", 0x02005004), "data_02005004");
    assert_eq!(pointer_name("x", 0), "x00000000");
    assert_eq!(pointer_name("", 0xdeadbeef), "deadbeef");
}

#[test]
fn local_pool_load_to_data() {
    // A pool constant pointing into the module's own data section promotes a
    // named data symbol and emits a load against the current module.
    let mut f = func(0x02000800, 0x02001100, false);
    f.pools.push(PoolConstant { address: 0x02001000, value: 0x02005004 });
    let sections = Sections {
        sections: vec![
            code_section(0x02000000, 0x02002000, Vec::new()),
            data_section(0x02005000, 0x02006000),
        ],
    };
    let mut symbol_map = SymbolMap::new();
    let mut relocations = Relocations::new();
    let r = find_local_data_from_pools(&f, &sections, &mut symbol_map, &mut relocations, "data_");
    assert!(r.is_ok());
    assert_eq!(symbol_map.symbols.len(), 1);
    let sym = &symbol_map.symbols[0];
    assert_eq!(sym.name, "data_02005004");
    assert_eq!(sym.addr, 0x02005004);
    assert!(matches!(sym.kind, SymbolKind::Data { kind: SymDataKind::Any }));
    assert_eq!(relocations.relocations.len(), 1);
    let reloc = &relocations.relocations[0];
    assert_eq!(reloc.site, 0x02001000);
    assert_eq!(reloc.target, 0x02005004);
    assert_eq!(reloc.addend, 0);
    assert!(matches!(reloc.kind, RelocationKind::Load));
    assert!(matches!(reloc.destination, RelocationModule::Current));
}

#[test]
fn pool_function_pointer_is_load_not_symbol() {
    // A pool constant pointing at a known function in a code section is
    // relocated as a function pointer, adding no symbol.
    let mut f = func(0x02000800, 0x02001100, false);
    f.pools.push(PoolConstant { address: 0x02001000, value: 0x02000900 });
    let sections = Sections { sections: vec![code_section(0x02000000, 0x02002000, Vec::new())] };
    let mut symbol_map = SymbolMap::new();
    symbol_map.add_function("f".to_string(), 0x02000900, false, 0x40).unwrap();
    let mut relocations = Relocations::new();
    find_local_data_from_pools(&f, &sections, &mut symbol_map, &mut relocations, "data_").unwrap();
    assert_eq!(symbol_map.symbols.len(), 1);
    assert_eq!(relocations.relocations.len(), 1);
    assert_eq!(relocations.relocations[0].target, 0x02000900);
}

#[test]
fn pool_code_pointer_without_function_is_skipped() {
    let mut f = func(0x02000800, 0x02001100, false);
    f.pools.push(PoolConstant { address: 0x02001000, value: 0x02000900 });
    let sections = Sections { sections: vec![code_section(0x02000000, 0x02002000, Vec::new())] };
    let mut symbol_map = SymbolMap::new();
    let mut relocations = Relocations::new();
    find_local_data_from_pools(&f, &sections, &mut symbol_map, &mut relocations, "data_").unwrap();
    assert_eq!(symbol_map.symbols.len(), 0);
    assert_eq!(relocations.relocations.len(), 0);
}

#[test]
fn data_section_words_promote_bss_pointer() {
    // The word 0x02008010 read little-endian from the data section points
    // into the bss section and is promoted to a bss symbol.
    let base = 0x02000000u32;
    let mut code = vec![0u8; 0x5008];
    code[0x5000] = 0x10;
    code[0x5001] = 0x80;
    code[0x5002] = 0x00;
    code[0x5003] = 0x02;
    let sections = Sections {
        sections: vec![
            data_section(0x02005000, 0x02005004),
            bss_section(0x02008000, 0x02009000),
        ],
    };
    let section = sections.sections[0].clone();
    let mut symbol_map = SymbolMap::new();
    let mut relocations = Relocations::new();
    find_local_data_from_section(
        &sections,
        &section,
        &code,
        base,
        &mut symbol_map,
        &mut relocations,
        "data_",
    )
    .unwrap();
    assert_eq!(symbol_map.symbols.len(), 1);
    let sym = &symbol_map.symbols[0];
    assert_eq!(sym.name, "data_02008010");
    assert_eq!(sym.addr, 0x02008010);
    assert!(matches!(sym.kind, SymbolKind::Bss { size: None }));
    assert_eq!(relocations.relocations.len(), 1);
    assert_eq!(relocations.relocations[0].site, 0x02005000);
}

#[test]
fn missing_section_bytes_is_fatal() {
    let base = 0x02000000u32;
    let code = vec![0u8; 4];
    let sections = Sections { sections: vec![data_section(0x02005000, 0x02006000)] };
    let section = sections.sections[0].clone();
    let mut symbol_map = SymbolMap::new();
    let mut relocations = Relocations::new();
    let r = find_local_data_from_section(
        &sections,
        &section,
        &code,
        base,
        &mut symbol_map,
        &mut relocations,
        "data_",
    );
    assert_eq!(
        r,
        Err(AnalysisError::MissingSectionBytes { start: 0x02005000, end: 0x02006000 })
    );
}

#[test]
fn conditional_call_skipped() {
    // No relocation is emitted for a call site whose instruction is
    // conditional.
    let mut f = func(0x02001000, 0x02001400, false);
    f.calls.push(CallSite { address: 0x02001100, target: 0x02002000, thumb: false, conditional: true });
    let m = main_module(
        vec![code_section(0x02000000, 0x02003000, vec![f])],
        0x02000000,
        Vec::new(),
    );
    let modules = vec![m];
    let mut maps = maps_for(&modules);
    let result = analyze_external_references(&modules, 0, &mut maps).unwrap();
    assert_eq!(result.relocations.len(), 0);
    assert_eq!(result.external_symbols.len(), 0);
}

#[test]
fn mid_function_call_adds_external_label() {
    // A local call into the middle of a known function records an external
    // label and emits a call against the current module.
    let mut f = func(0x02001000, 0x02001400, false);
    f.calls.push(CallSite { address: 0x02001200, target: 0x02002008, thumb: false, conditional: false });
    let m = main_module(
        vec![code_section(0x02000000, 0x02003000, vec![f])],
        0x02000000,
        Vec::new(),
    );
    let modules = vec![m];
    let mut maps = maps_for(&modules);
    maps.maps[0].add_function("g".to_string(), 0x02002000, false, 0x20).unwrap();
    let result = analyze_external_references(&modules, 0, &mut maps).unwrap();
    assert_eq!(result.relocations.len(), 1);
    let reloc = &result.relocations[0];
    assert_eq!(reloc.site, 0x02001200);
    assert_eq!(reloc.target, 0x02002008);
    assert!(matches!(reloc.kind, RelocationKind::Call));
    assert!(matches!(reloc.destination, RelocationModule::Current));
    let label = maps.maps[0]
        .symbols
        .iter()
        .find(|s| s.addr == 0x02002008)
        .expect("external label symbol");
    assert!(matches!(label.kind, SymbolKind::ExternalLabel { thumb: false }));
}

#[test]
fn call_to_function_start_adds_no_label() {
    let mut f = func(0x02001000, 0x02001400, false);
    f.calls.push(CallSite { address: 0x02001200, target: 0x02002000, thumb: false, conditional: false });
    let m = main_module(
        vec![code_section(0x02000000, 0x02003000, vec![f])],
        0x02000000,
        Vec::new(),
    );
    let modules = vec![m];
    let mut maps = maps_for(&modules);
    maps.maps[0].add_function("g".to_string(), 0x02002000, false, 0x20).unwrap();
    let result = analyze_external_references(&modules, 0, &mut maps).unwrap();
    assert_eq!(result.relocations.len(), 1);
    assert_eq!(maps.maps[0].symbols.len(), 1);
}

#[test]
fn dangling_local_call_is_fatal() {
    // The target lies inside the module's own code section but no function
    // covers it.
    let mut f = func(0x02001000, 0x02001400, false);
    f.calls.push(CallSite { address: 0x02001200, target: 0x02002800, thumb: false, conditional: false });
    let m = main_module(
        vec![code_section(0x02000000, 0x02003000, vec![f])],
        0x02000000,
        Vec::new(),
    );
    let modules = vec![m];
    let mut maps = maps_for(&modules);
    let r = analyze_external_references(&modules, 0, &mut maps);
    assert_eq!(
        r.err(),
        Some(AnalysisError::DanglingCall { site: 0x02001200, target: 0x02002800 })
    );
}

#[test]
fn call_outside_every_module_gets_no_destination() {
    // The target lies in no section of any module: the relocation is still
    // emitted, with no destination.
    let mut f = func(0x02001000, 0x02001400, false);
    f.calls.push(CallSite { address: 0x02001200, target: 0x02009000, thumb: false, conditional: false });
    let m = main_module(
        vec![code_section(0x02000000, 0x02003000, vec![f])],
        0x02000000,
        Vec::new(),
    );
    let modules = vec![m];
    let mut maps = maps_for(&modules);
    let result = analyze_external_references(&modules, 0, &mut maps).unwrap();
    assert_eq!(result.relocations.len(), 1);
    assert!(matches!(
        result.relocations[0].destination,
        RelocationModule::NoDestination
    ));
}

#[test]
fn ambiguous_overlay_pointer_resolves_to_any() {
    // Two overlays share the target range, both with a Thumb function at the
    // masked pointer: the load resolves to Any([3, 4]) and the external
    // symbol lists both candidates.
    let mut f = func(0x02000800, 0x02001400, false);
    f.pools.push(PoolConstant { address: 0x02001300, value: 0x02100041 });
    let m = main_module(
        vec![code_section(0x02000000, 0x02003000, vec![f])],
        0x02000000,
        Vec::new(),
    );
    let ov3 = overlay_module(
        3,
        vec![code_section(0x02100000, 0x02101000, vec![func(0x02100040, 0x02100080, true)])],
        0x02100000,
    );
    let ov4 = overlay_module(
        4,
        vec![code_section(0x02100000, 0x02101000, vec![func(0x02100040, 0x02100080, true)])],
        0x02100000,
    );
    let modules = vec![m, ov3, ov4];
    let mut maps = maps_for(&modules);
    let result = analyze_external_references(&modules, 0, &mut maps).unwrap();
    assert_eq!(result.relocations.len(), 1);
    let reloc = &result.relocations[0];
    assert_eq!(reloc.site, 0x02001300);
    assert_eq!(reloc.target, 0x02100041);
    assert!(matches!(reloc.kind, RelocationKind::Load));
    match &reloc.destination {
        RelocationModule::Any(ids) => assert_eq!(ids, &vec![3u16, 4u16]),
        other => panic!("expected Any destination, got {:?}", other),
    }
    assert_eq!(result.external_symbols.len(), 1);
    let ext = &result.external_symbols[0];
    assert_eq!(ext.address, 0x02100041);
    assert_eq!(ext.candidates.len(), 2);
    assert_eq!(ext.candidates[0].module_index, 1);
    assert_eq!(ext.candidates[1].module_index, 2);
}

#[test]
fn thumb_mismatch_drops_candidate() {
    // The overlay's function at the masked address is ARM but the pointer's
    // low bit asks for Thumb: the candidate is dropped and, with no other,
    // no relocation is emitted.
    let mut f = func(0x02000800, 0x02001400, false);
    f.pools.push(PoolConstant { address: 0x02001300, value: 0x02100041 });
    let m = main_module(
        vec![code_section(0x02000000, 0x02003000, vec![f])],
        0x02000000,
        Vec::new(),
    );
    let ov3 = overlay_module(
        3,
        vec![code_section(0x02100000, 0x02101000, vec![func(0x02100040, 0x02100080, false)])],
        0x02100000,
    );
    let modules = vec![m, ov3];
    let mut maps = maps_for(&modules);
    let result = analyze_external_references(&modules, 0, &mut maps).unwrap();
    assert_eq!(result.relocations.len(), 0);
    assert_eq!(result.external_symbols.len(), 0);
}

#[test]
fn cross_module_load_is_never_local() {
    // A data word pointing into the module's own sections is left to the
    // local scanner: the resolver emits nothing for it.
    let base = 0x02000000u32;
    let mut code = vec![0u8; 0x6000];
    // word at 0x02005000 holds 0x02005004, a local data address
    code[0x5000] = 0x04;
    code[0x5001] = 0x50;
    code[0x5002] = 0x00;
    code[0x5003] = 0x02;
    let m = main_module(
        vec![data_section(0x02005000, 0x02005004)],
        base,
        code,
    );
    let modules = vec![m];
    let mut maps = maps_for(&modules);
    let result = analyze_external_references(&modules, 0, &mut maps).unwrap();
    assert_eq!(result.relocations.len(), 0);
}

#[test]
fn determinism_of_analysis() {
    let mut f = func(0x02000800, 0x02001400, false);
    f.pools.push(PoolConstant { address: 0x02001300, value: 0x02100041 });
    f.calls.push(CallSite { address: 0x02000900, target: 0x02100040, thumb: true, conditional: false });
    let build = || {
        let m = main_module(
            vec![code_section(0x02000000, 0x02003000, vec![f.clone()])],
            0x02000000,
            Vec::new(),
        );
        let ov3 = overlay_module(
            3,
            vec![code_section(0x02100000, 0x02101000, vec![func(0x02100040, 0x02100080, true)])],
            0x02100000,
        );
        vec![m, ov3]
    };
    let modules1 = build();
    let mut maps1 = maps_for(&modules1);
    let r1 = analyze_external_references(&modules1, 0, &mut maps1).unwrap();
    let modules2 = build();
    let mut maps2 = maps_for(&modules2);
    let r2 = analyze_external_references(&modules2, 0, &mut maps2).unwrap();
    assert_eq!(r1.relocations.len(), r2.relocations.len());
    for (a, b) in r1.relocations.iter().zip(r2.relocations.iter()) {
        assert_eq!(a.site, b.site);
        assert_eq!(a.target, b.target);
        assert_eq!(format!("{:?}", a.destination), format!("{:?}", b.destination));
    }
    assert_eq!(r1.external_symbols.len(), r2.external_symbols.len());
}

#[test]
fn candidates_skip_focus_module() {
    let m = main_module(vec![data_section(0x02005000, 0x02006000)], 0x02000000, Vec::new());
    let ov = overlay_module(7, vec![data_section(0x02005000, 0x02006000)], 0x02005000);
    let modules = vec![m, ov];
    let cands = find_symbol_candidates(&modules, 0, 0x02005010);
    assert_eq!(cands.len(), 1);
    assert_eq!(cands[0].module_index, 1);
    assert_eq!(cands[0].section_index, 0);
}

#[test]
fn reduction_rules() {
    let empty: Vec<ModuleKind> = Vec::new();
    assert!(matches!(
        RelocationModule::from_modules(&empty, 0).unwrap(),
        RelocationModule::NoDestination
    ));
    let single = vec![ModuleKind::Main];
    assert!(matches!(
        RelocationModule::from_modules(&single, 0).unwrap(),
        RelocationModule::Main
    ));
    let overlays = vec![ModuleKind::Overlay(3), ModuleKind::Overlay(4)];
    match RelocationModule::from_modules(&overlays, 0).unwrap() {
        RelocationModule::Any(ids) => assert_eq!(ids, vec![3, 4]),
        other => panic!("expected Any, got {:?}", other),
    }
    let mixed = vec![ModuleKind::Main, ModuleKind::Overlay(3)];
    assert_eq!(
        RelocationModule::from_modules(&mixed, 0x42).err(),
        Some(AnalysisError::AmbiguousRelocation { target: 0x42 })
    );
    let unknown = vec![ModuleKind::Autoload(AutoloadKind::Unknown(9))];
    assert_eq!(
        RelocationModule::from_modules(&unknown, 0).err(),
        Some(AnalysisError::UnknownModuleKind { value: 9 })
    );
}

#[test]
fn add_data_is_idempotent_and_conflicts() {
    let mut sm = SymbolMap::new();
    sm.add_data(Some("a".to_string()), 0x100, SymDataKind::Any).unwrap();
    // same kind at the same address: no-op
    sm.add_data(Some("b".to_string()), 0x100, SymDataKind::Any).unwrap();
    assert_eq!(sm.symbols.len(), 1);
    assert_eq!(sm.symbols[0].name, "a");
    // another kind at the same address: conflict
    assert_eq!(
        sm.add_data(None, 0x100, SymDataKind::Word).err(),
        Some(AnalysisError::SymbolConflict { addr: 0x100 })
    );
    // a bss add at a data address: conflict
    assert_eq!(
        sm.add_bss(None, 0x100, None).err(),
        Some(AnalysisError::SymbolConflict { addr: 0x100 })
    );
}

#[test]
fn add_external_label_noop_at_function_start() {
    let mut sm = SymbolMap::new();
    sm.add_function("f".to_string(), 0x200, false, 8).unwrap();
    sm.add_external_label(0x200, false).unwrap();
    assert_eq!(sm.symbols.len(), 1);
    sm.add_external_label(0x204, true).unwrap();
    assert_eq!(sm.symbols.len(), 2);
    assert_eq!(sm.symbols[1].name, "label_00000204");
    // idempotent for an identical label
    sm.add_external_label(0x204, true).unwrap();
    assert_eq!(sm.symbols.len(), 2);
}

#[test]
fn add_external_label_conflicts() {
    // an existing label with the opposite Thumb flag is a conflict
    let mut sm = SymbolMap::new();
    sm.add_external_label(0x204, true).unwrap();
    assert_eq!(
        sm.add_external_label(0x204, false).err(),
        Some(AnalysisError::SymbolConflict { addr: 0x204 })
    );
    // an existing data symbol at the address is a conflict
    sm.add_data(Some("d".to_string()), 0x300, SymDataKind::Any).unwrap();
    assert_eq!(
        sm.add_external_label(0x300, false).err(),
        Some(AnalysisError::SymbolConflict { addr: 0x300 })
    );
}

#[test]
fn call_relocations_precede_pool_loads() {
    // The call pass runs before the pool pass: even though the function with
    // the pool constant comes first in the section, its pool load is emitted
    // after the later function's call relocation.
    let mut f1 = func(0x02000800, 0x02000900, false);
    f1.pools.push(PoolConstant { address: 0x02000810, value: 0x02100040 });
    let mut f2 = func(0x02000900, 0x02000a00, false);
    f2.calls.push(CallSite { address: 0x02000910, target: 0x02100040, thumb: false, conditional: false });
    let m = main_module(
        vec![code_section(0x02000000, 0x02001000, vec![f1, f2])],
        0x02000000,
        Vec::new(),
    );
    let ov3 = overlay_module(
        3,
        vec![code_section(0x02100000, 0x02101000, vec![func(0x02100040, 0x02100080, false)])],
        0x02100000,
    );
    let modules = vec![m, ov3];
    let mut maps = maps_for(&modules);
    let result = analyze_external_references(&modules, 0, &mut maps).unwrap();
    assert_eq!(result.relocations.len(), 2);
    assert!(matches!(result.relocations[0].kind, RelocationKind::Call));
    assert_eq!(result.relocations[0].site, 0x02000910);
    assert!(matches!(result.relocations[1].kind, RelocationKind::Load));
    assert_eq!(result.relocations[1].site, 0x02000810);
    assert!(matches!(result.relocations[0].destination, RelocationModule::Overlay(3)));
    assert!(matches!(result.relocations[1].destination, RelocationModule::Overlay(3)));
}

#[test]
fn get_by_contained_address_finds_section() {
    let sections = Sections {
        sections: vec![
            code_section(0x02000000, 0x02002000, Vec::new()),
            data_section(0x02005000, 0x02006000),
        ],
    };
    assert_eq!(sections.get_by_contained_address(0x02005800), Some(1));
    assert_eq!(sections.get_by_contained_address(0x02001fff), Some(0));
    assert_eq!(sections.get_by_contained_address(0x02006000), None);
    assert_eq!(sections.get_by_contained_address(0x02004000), None);
}

#[test]
fn iter_words_reads_little_endian() {
    let base = 0x02000000u32;
    let code: Vec<u8> = vec![0x78, 0x56, 0x34, 0x12, 0xff, 0x00, 0x00, 0x00];
    let sec = data_section(0x02000000, 0x02000008);
    let words = sec.iter_words(&code, base).unwrap();
    assert_eq!(words.len(), 2);
    assert_eq!(words[0].address, 0x02000000);
    assert_eq!(words[0].value, 0x12345678);
    assert_eq!(words[1].address, 0x02000004);
    assert_eq!(words[1].value, 0xff);
}

#[test]
fn iter_words_empty_for_bss() {
    let sec = bss_section(0x02008000, 0x02009000);
    let words = sec.iter_words(&[], 0x02000000).unwrap();
    assert_eq!(words.len(), 0);
}

#[test]
fn get_function_containing_respects_bounds() {
    let mut sm = SymbolMap::new();
    sm.add_function("g".to_string(), 0x02002000, false, 0x20).unwrap();
    assert!(sm.get_function_containing(0x02002000).is_some());
    assert!(sm.get_function_containing(0x0200201f).is_some());
    assert!(sm.get_function_containing(0x02002020).is_none());
    assert!(sm.get_function_containing(0x02001fff).is_none());
}

#[test]
fn code_hash_is_deterministic_hex() {
    let a = code_hash_string(&[1, 2, 3, 4]);
    let b = code_hash_string(&[1, 2, 3, 4]);
    assert_eq!(a, b);
    assert_eq!(a.len(), 16);
    assert!(a.chars().all(|c| c.is_ascii_hexdigit() && !c.is_ascii_uppercase()));
    // matches the digest the outside crate computes
    assert_eq!(a, format!("{:016x}", fxhash::hash64(&[1u8, 2, 3, 4][..])));
}

#[test]
fn config_module_carries_hash() {
    let cm = make_config_module(
        "main".to_string(),
        "arm9.bin".to_string(),
        &[5, 6, 7],
        "delinks.txt".to_string(),
        "symbols.txt".to_string(),
        "relocs.txt".to_string(),
    );
    assert_eq!(cm.name, "main");
    assert_eq!(cm.hash, code_hash_string(&[5, 6, 7]));
}

#[test]
fn autoload_names() {
    assert_eq!(autoload_name(AutoloadKind::Itcm).unwrap(), "itcm");
    assert_eq!(autoload_name(AutoloadKind::Dtcm).unwrap(), "dtcm");
    assert_eq!(
        autoload_name(AutoloadKind::Unknown(5)).err(),
        Some(AnalysisError::UnknownModuleKind { value: 5 })
    );
}

#[test]
fn relocation_result_starts_empty() {
    let r = RelocationResult::new();
    assert_eq!(r.relocations.len(), 0);
    assert_eq!(r.external_symbols.len(), 0);
}

#[test]
fn cross_module_load_to_main_data() {
    // An overlay's data word pointing into the main module's data section
    // resolves to a load against Main.
    let base = 0x02100000u32;
    let mut code = vec![0u8; 4];
    code[0] = 0x08;
    code[1] = 0x50;
    code[2] = 0x00;
    code[3] = 0x02;
    let main = main_module(vec![data_section(0x02005000, 0x02006000)], 0x02000000, Vec::new());
    let ov = Module {
        kind: ModuleKind::Overlay(3),
        base_address: base,
        code,
        sections: Sections { sections: vec![data_section(0x02100000, 0x02100004)] },
    };
    let modules = vec![main, ov];
    let mut maps = maps_for(&modules);
    let result = analyze_external_references(&modules, 1, &mut maps).unwrap();
    assert_eq!(result.relocations.len(), 1);
    let reloc = &result.relocations[0];
    assert_eq!(reloc.site, 0x02100000);
    assert_eq!(reloc.target, 0x02005008);
    assert!(matches!(reloc.kind, RelocationKind::Load));
    assert!(matches!(reloc.destination, RelocationModule::Main));
    assert_eq!(result.external_symbols.len(), 1);
    assert_eq!(result.external_symbols[0].candidates[0].module_index, 0);
}

#[test]
fn mixed_candidates_are_ambiguous() {
    // A pointer owned by both the main module and an overlay cannot be
    // reduced: the analysis fails with an ambiguity error.
    let mut f = func(0x02100800, 0x02100900, false);
    f.pools.push(PoolConstant { address: 0x02100810, value: 0x02005008 });
    let main = main_module(vec![data_section(0x02005000, 0x02006000)], 0x02000000, Vec::new());
    let ov4 = overlay_module(4, vec![data_section(0x02005000, 0x02006000)], 0x02005000);
    let focus = Module {
        kind: ModuleKind::Overlay(3),
        base_address: 0x02100000,
        code: Vec::new(),
        sections: Sections { sections: vec![code_section(0x02100000, 0x02101000, vec![f])] },
    };
    let modules = vec![main, ov4, focus];
    let mut maps = maps_for(&modules);
    let r = analyze_external_references(&modules, 2, &mut maps);
    assert_eq!(
        r.err(),
        Some(AnalysisError::AmbiguousRelocation { target: 0x02005008 })
    );
}

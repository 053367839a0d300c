use vstd::prelude::*;

use crate::errors::AnalysisError;
use crate::names::{pointer_name, spec_hex8};
use crate::relocations::{local_load_model, RelocModel, Relocations};
use crate::sections::{Function, PoolConstant, Section, SectionKind, Sections, Word};
use crate::symbols::{
    spec_add_bss, spec_add_data, sym_functions_disjoint, sym_has_function_at, syms_wf, SymDataKind,
    SymModel, SymbolMap,
};

verus! {

/// What promoting one pointer found at `site` does to the module's own
/// symbol map and relocation list, by the kind of the section the pointer
/// lands in: a code pointer is relocated only when a known function starts
/// there; a data or bss pointer is promoted to a named symbol and relocated.
pub open spec fn spec_add_symbol_from_pointer(
    sec: Section,
    site: u32,
    pointer: u32,
    syms: Seq<SymModel>,
    prefix: Seq<char>,
) -> Result<(Seq<SymModel>, Option<RelocModel>), AnalysisError> {
    match sec.kind {
        SectionKind::Code => if sym_has_function_at(syms, pointer) {
            Ok((syms, Some(local_load_model(site, pointer))))
        } else {
            Ok((syms, Option::None))
        },
        SectionKind::Data => match spec_add_data(
            syms,
            prefix + spec_hex8(pointer),
            pointer,
            SymDataKind::Any,
        ) {
            Ok(s2) => Ok((s2, Some(local_load_model(site, pointer)))),
            Err(e) => Err(e),
        },
        SectionKind::Bss => match spec_add_bss(
            syms,
            prefix + spec_hex8(pointer),
            pointer,
            Option::None,
        ) {
            Ok(s2) => Ok((s2, Some(local_load_model(site, pointer)))),
            Err(e) => Err(e),
        },
    }
}

/// What one pool constant contributes: nothing when its value lies in no
/// section of the module; a function-pointer load when it lands in code at a
/// known function (low bit masked); otherwise symbol promotion.
pub open spec fn spec_pool_step(
    sections: Sections,
    syms: Seq<SymModel>,
    pc: PoolConstant,
    prefix: Seq<char>,
) -> Result<(Seq<SymModel>, Option<RelocModel>), AnalysisError> {
    if !sections.spec_contains_addr(pc.value) {
        Ok((syms, Option::None))
    } else {
        let sec = sections.sections@[sections.spec_index_of(pc.value)];
        if sec.kind == SectionKind::Code && sym_has_function_at(syms, pc.value & !1u32) {
            Ok((syms, Some(local_load_model(pc.address, pc.value))))
        } else {
            spec_add_symbol_from_pointer(sec, pc.address, pc.value, syms, prefix)
        }
    }
}

/// Left-to-right scan of a function's pool constants, stopping at the first
/// error.
pub open spec fn spec_pools_scan(
    sections: Sections,
    syms: Seq<SymModel>,
    pools: Seq<PoolConstant>,
    prefix: Seq<char>,
) -> Result<(Seq<SymModel>, Seq<RelocModel>), AnalysisError>
    decreases pools.len(),
{
    if pools.len() == 0 {
        Ok((syms, Seq::empty()))
    } else {
        match spec_pools_scan(sections, syms, pools.drop_last(), prefix) {
            Err(e) => Err(e),
            Ok((s1, rs)) => match spec_pool_step(sections, s1, pools.last(), prefix) {
                Err(e) => Err(e),
                Ok((s2, Some(r))) => Ok((s2, rs.push(r))),
                Ok((s2, Option::None)) => Ok((s2, rs)),
            },
        }
    }
}

/// An error of a prefix scan is the error of the whole scan.
pub proof fn lemma_pools_scan_err(
    sections: Sections,
    syms: Seq<SymModel>,
    pools: Seq<PoolConstant>,
    prefix: Seq<char>,
    k: int,
)
    requires
        0 <= k <= pools.len(),
        spec_pools_scan(sections, syms, pools.take(k), prefix) is Err,
    ensures
        spec_pools_scan(sections, syms, pools, prefix) == spec_pools_scan(
            sections,
            syms,
            pools.take(k),
            prefix,
        ),
    decreases pools.len(),
{
    if k == pools.len() {
        assert(pools.take(k) =~= pools);
    } else {
        assert(pools.drop_last().take(k) =~= pools.take(k));
        lemma_pools_scan_err(sections, syms, pools.drop_last(), prefix, k);
    }
}

/// Left-to-right scan of a data section's words: each word whose value lies
/// in some section of the module is promoted.
pub open spec fn spec_words_scan(
    sections: Sections,
    syms: Seq<SymModel>,
    words: Seq<Word>,
    prefix: Seq<char>,
) -> Result<(Seq<SymModel>, Seq<RelocModel>), AnalysisError>
    decreases words.len(),
{
    if words.len() == 0 {
        Ok((syms, Seq::empty()))
    } else {
        match spec_words_scan(sections, syms, words.drop_last(), prefix) {
            Err(e) => Err(e),
            Ok((s1, rs)) => {
                let w = words.last();
                if !sections.spec_contains_addr(w.value) {
                    Ok((s1, rs))
                } else {
                    let sec = sections.sections@[sections.spec_index_of(w.value)];
                    match spec_add_symbol_from_pointer(sec, w.address, w.value, s1, prefix) {
                        Err(e) => Err(e),
                        Ok((s2, Some(r))) => Ok((s2, rs.push(r))),
                        Ok((s2, Option::None)) => Ok((s2, rs)),
                    }
                }
            },
        }
    }
}

pub proof fn lemma_words_scan_err(
    sections: Sections,
    syms: Seq<SymModel>,
    words: Seq<Word>,
    prefix: Seq<char>,
    k: int,
)
    requires
        0 <= k <= words.len(),
        spec_words_scan(sections, syms, words.take(k), prefix) is Err,
    ensures
        spec_words_scan(sections, syms, words, prefix) == spec_words_scan(
            sections,
            syms,
            words.take(k),
            prefix,
        ),
    decreases words.len(),
{
    if k == words.len() {
        assert(words.take(k) =~= words);
    } else {
        assert(words.drop_last().take(k) =~= words.take(k));
        lemma_words_scan_err(sections, syms, words.drop_last(), prefix, k);
    }
}

/// What scanning one data section does: its words, read from the module
/// bytes, are scanned in address order.
pub open spec fn spec_section_scan(
    sections: Sections,
    sec: Section,
    code: Seq<u8>,
    base: u32,
    syms: Seq<SymModel>,
    prefix: Seq<char>,
) -> Result<(Seq<SymModel>, Seq<RelocModel>), AnalysisError> {
    if !sec.bytes_ok(code.len() as int, base) {
        Err(AnalysisError::MissingSectionBytes { start: sec.start, end: sec.end })
    } else {
        spec_words_scan(sections, syms, sec.spec_words(code, base), prefix)
    }
}


/// Promotes one pointer found at `address` into the module's own symbol map
/// and relocation list, per the kind of `section` (the section containing
/// `pointer`).
fn add_symbol_from_pointer(
    section: &Section,
    address: u32,
    pointer: u32,
    symbol_map: &mut SymbolMap,
    relocations: &mut Relocations,
    name_prefix: &str,
) -> (r: Result<(), AnalysisError>)
    requires
        syms_wf(old(symbol_map)@),
    ensures
        match spec_add_symbol_from_pointer(
            *section,
            address,
            pointer,
            old(symbol_map)@,
            name_prefix@,
        ) {
            Ok((s2, Some(rm))) => r is Ok && final(symbol_map)@ == s2 && final(relocations)@ == old(
                relocations,
            )@.push(rm),
            Ok((s2, Option::None)) => r is Ok && final(symbol_map)@ == s2 && final(relocations)@
                == old(relocations)@,
            Err(e) => r == Err::<(), AnalysisError>(e) && final(symbol_map)@ == old(symbol_map)@
                && final(relocations)@ == old(relocations)@,
        },
        syms_wf(final(symbol_map)@),
        sym_functions_disjoint(old(symbol_map)@) ==> sym_functions_disjoint(final(symbol_map)@),
        old(symbol_map)@.len() <= final(symbol_map)@.len() && final(symbol_map)@.take(
            old(symbol_map)@.len() as int,
        ) == old(symbol_map)@,
        forall|k: int|
            old(symbol_map)@.len() <= k < final(symbol_map)@.len()
                ==> (#[trigger] final(symbol_map)@[k]).addr == pointer,
    {
        match section.kind {
            SectionKind::Code => {
                if symbol_map.get_function(pointer).is_some() {
                    relocations.add_load(address, pointer, 0);
                }
                proof {
                    assert(final(symbol_map)@.take(old(symbol_map)@.len() as int) =~= old(
                        symbol_map,
                    )@);
                }
                Ok(())
            },
            SectionKind::Data => {
                let name = pointer_name(name_prefix, pointer);
                match symbol_map.add_data(Some(name), pointer, SymDataKind::Any) {
                    Ok(()) => {
                        relocations.add_load(address, pointer, 0);
                        Ok(())
                    },
                    Err(e) => Err(e),
                }
            },
            SectionKind::Bss => {
                let name = pointer_name(name_prefix, pointer);
                match symbol_map.add_bss(Some(name), pointer, Option::None) {
                    Ok(()) => {
                        relocations.add_load(address, pointer, 0);
                        Ok(())
                    },
                    Err(e) => Err(e),
                }
            },
        }
    }

/// Scans every pool constant of one function. A constant that points into a
/// code section at a known function (low bit masked) is relocated as a
/// function pointer; one that points into data or bss is promoted to a named
/// symbol; values outside every section are skipped.
#[verifier::rlimit(60)]
pub fn find_local_data_from_pools(
    function: &Function,
    sections: &Sections,
    symbol_map: &mut SymbolMap,
    relocations: &mut Relocations,
    name_prefix: &str,
) -> (r: Result<(), AnalysisError>)
    requires
        sections.wf(),
        syms_wf(old(symbol_map)@),
    ensures
        match spec_pools_scan(*sections, old(symbol_map)@, function.pools@, name_prefix@) {
            Ok((s2, rs)) => r is Ok && final(symbol_map)@ == s2 && final(relocations)@ == old(
                relocations,
            )@ + rs,
            Err(e) => r == Err::<(), AnalysisError>(e),
        },
        syms_wf(final(symbol_map)@),
        sym_functions_disjoint(old(symbol_map)@) ==> sym_functions_disjoint(final(symbol_map)@),
        old(symbol_map)@.len() <= final(symbol_map)@.len() && final(symbol_map)@.take(
            old(symbol_map)@.len() as int,
        ) == old(symbol_map)@,
        forall|k: int|
            old(symbol_map)@.len() <= k < final(symbol_map)@.len() ==> sections.spec_contains_addr(
                (#[trigger] final(symbol_map)@[k]).addr,
            ),
        r is Err ==> final(relocations)@.len() >= old(relocations)@.len()
            && final(relocations)@.take(old(relocations)@.len() as int) == old(relocations)@,
{
    let ghost syms0 = symbol_map@;
    let ghost relocs0 = relocations@;
    let n = function.pools.len();
    let mut i: usize = 0;
    while i < n
        invariant
            syms0 == old(symbol_map)@,
            relocs0 == old(relocations)@,
            sections.wf(),
            n == function.pools@.len(),
            0 <= i <= n,
            syms_wf(symbol_map@),
            sym_functions_disjoint(syms0) ==> sym_functions_disjoint(symbol_map@),
            syms0.len() <= symbol_map@.len() && symbol_map@.take(syms0.len() as int) == syms0,
            forall|k: int|
                syms0.len() <= k < symbol_map@.len() ==> sections.spec_contains_addr(
                    (#[trigger] symbol_map@[k]).addr,
                ),
            match spec_pools_scan(*sections, syms0, function.pools@.take(i as int), name_prefix@) {
                Ok((s2, rs)) => symbol_map@ == s2 && relocations@ == relocs0 + rs,
                Err(e) => false,
            },
        decreases n - i,
    {
        let pc = function.pools[i];
        let ghost syms_pre = symbol_map@;
        let ghost relocs_pre = relocations@;
        proof {
            assert(function.pools@.take(i + 1).drop_last() =~= function.pools@.take(i as int));
            assert(function.pools@.take(i + 1).last() == function.pools@[i as int]);
        }
        match sections.get_by_contained_address(pc.value) {
            Option::None => {},
            Option::Some(si) => {
                let sec = &sections.sections[si];
                let mut handled = false;
                if matches!(sec.kind, SectionKind::Code) {
                    if symbol_map.get_function(pc.value & !1u32).is_some() {
                        relocations.add_load(pc.address, pc.value, 0);
                        handled = true;
                    }
                }
                if !handled {
                    match add_symbol_from_pointer(
                        sec,
                        pc.address,
                        pc.value,
                        symbol_map,
                        relocations,
                        name_prefix,
                    ) {
                        Ok(()) => {},
                        Err(e) => {
                            proof {
                                assert(*sec == sections.sections@[sections.spec_index_of(
                                    pc.value,
                                )]);
                                assert(spec_pool_step(*sections, syms_pre, pc, name_prefix@)
                                    == Err::<(Seq<SymModel>, Option<RelocModel>), AnalysisError>(
                                    e,
                                ));
                                assert(spec_pools_scan(
                                    *sections,
                                    syms0,
                                    function.pools@.take(i + 1),
                                    name_prefix@,
                                ) == Err::<(Seq<SymModel>, Seq<RelocModel>), AnalysisError>(e));
                                lemma_pools_scan_err(
                                    *sections,
                                    syms0,
                                    function.pools@,
                                    name_prefix@,
                                    i + 1,
                                );
                                assert(symbol_map@.take(syms0.len() as int) =~= syms0);
                                assert(relocations@.take(relocs0.len() as int) =~= relocs0);
                            }
                            return Err(e);
                        },
                    }
                }
                proof {
                    assert(symbol_map@.take(syms0.len() as int) =~= syms0);
                }
            },
        }
        proof {
            match spec_pools_scan(*sections, syms0, function.pools@.take(i + 1), name_prefix@) {
                Ok((s2, rs)) => {
                    assert(symbol_map@ == s2);
                    assert(relocations@ =~= relocs0 + rs);
                },
                Err(e) => {
                    assert(false);
                },
            }
        }
        i = i + 1;
    }
    proof {
        assert(function.pools@.take(n as int) =~= function.pools@);
    }
    Ok(())
}

/// Scans every aligned word of one data section, promoting each word whose
/// value lies in some section of the module.
#[verifier::rlimit(60)]
fn find_pointers(
    sections: &Sections,
    section: &Section,
    code: &[u8],
    base_address: u32,
    symbol_map: &mut SymbolMap,
    relocations: &mut Relocations,
    name_prefix: &str,
) -> (r: Result<(), AnalysisError>)
    requires
        sections.wf(),
        section.wf(),
        syms_wf(old(symbol_map)@),
    ensures
        match spec_section_scan(
            *sections,
            *section,
            code@,
            base_address,
            old(symbol_map)@,
            name_prefix@,
        ) {
            Ok((s2, rs)) => r is Ok && final(symbol_map)@ == s2 && final(relocations)@ == old(
                relocations,
            )@ + rs,
            Err(e) => r == Err::<(), AnalysisError>(e),
        },
        syms_wf(final(symbol_map)@),
        sym_functions_disjoint(old(symbol_map)@) ==> sym_functions_disjoint(final(symbol_map)@),
        old(symbol_map)@.len() <= final(symbol_map)@.len() && final(symbol_map)@.take(
            old(symbol_map)@.len() as int,
        ) == old(symbol_map)@,
        forall|k: int|
            old(symbol_map)@.len() <= k < final(symbol_map)@.len() ==> sections.spec_contains_addr(
                (#[trigger] final(symbol_map)@[k]).addr,
            ),
        r is Err ==> final(relocations)@.len() >= old(relocations)@.len()
            && final(relocations)@.take(old(relocations)@.len() as int) == old(relocations)@,
{
    let ghost syms0 = symbol_map@;
    let ghost relocs0 = relocations@;
    let words = match section.iter_words(code, base_address) {
        Ok(ws) => ws,
        Err(e) => {
            proof {
                assert(symbol_map@.take(syms0.len() as int) =~= syms0);
                assert(relocations@.take(relocs0.len() as int) =~= relocs0);
            }
            return Err(e);
        },
    };
    let ghost wseq = section.spec_words(code@, base_address);
    let n = words.len();
    let mut i: usize = 0;
    while i < n
        invariant
            syms0 == old(symbol_map)@,
            relocs0 == old(relocations)@,
            sections.wf(),
            section.bytes_ok(code@.len() as int, base_address),
            wseq == section.spec_words(code@, base_address),
            n == words@.len(),
            words@ == wseq,
            0 <= i <= n,
            syms_wf(symbol_map@),
            sym_functions_disjoint(syms0) ==> sym_functions_disjoint(symbol_map@),
            syms0.len() <= symbol_map@.len() && symbol_map@.take(syms0.len() as int) == syms0,
            forall|k: int|
                syms0.len() <= k < symbol_map@.len() ==> sections.spec_contains_addr(
                    (#[trigger] symbol_map@[k]).addr,
                ),
            match spec_words_scan(*sections, syms0, wseq.take(i as int), name_prefix@) {
                Ok((s2, rs)) => symbol_map@ == s2 && relocations@ == relocs0 + rs,
                Err(e) => false,
            },
        decreases n - i,
    {
        let w = words[i];
        proof {
            assert(wseq.take(i + 1).drop_last() =~= wseq.take(i as int));
            assert(wseq.take(i + 1).last() == wseq[i as int]);
        }
        match sections.get_by_contained_address(w.value) {
            Option::None => {},
            Option::Some(si) => {
                let sec = &sections.sections[si];
                match add_symbol_from_pointer(
                    sec,
                    w.address,
                    w.value,
                    symbol_map,
                    relocations,
                    name_prefix,
                ) {
                    Ok(()) => {},
                    Err(e) => {
                        proof {
                            assert(*sec == sections.sections@[sections.spec_index_of(w.value)]);
                            assert(spec_words_scan(
                                *sections,
                                syms0,
                                wseq.take(i + 1),
                                name_prefix@,
                            ) == Err::<(Seq<SymModel>, Seq<RelocModel>), AnalysisError>(e));
                            lemma_words_scan_err(*sections, syms0, wseq, name_prefix@, i + 1);
                            assert(symbol_map@.take(syms0.len() as int) =~= syms0);
                            assert(relocations@.take(relocs0.len() as int) =~= relocs0);
                        }
                        return Err(e);
                    },
                }
                proof {
                    assert(symbol_map@.take(syms0.len() as int) =~= syms0);
                }
            },
        }
        proof {
            match spec_words_scan(*sections, syms0, wseq.take(i + 1), name_prefix@) {
                Ok((s2, rs)) => {
                    assert(symbol_map@ == s2);
                    assert(relocations@ =~= relocs0 + rs);
                },
                Err(e) => {
                    assert(false);
                },
            }
        }
        i = i + 1;
    }
    proof {
        assert(wseq.take(n as int) =~= wseq);
    }
    Ok(())
}

/// Scans one data section of the module for pointers into its own sections,
/// promoting each hit to a symbol and a load relocation against the current
/// module.
pub fn find_local_data_from_section(
    sections: &Sections,
    section: &Section,
    code: &[u8],
    base_address: u32,
    symbol_map: &mut SymbolMap,
    relocations: &mut Relocations,
    name_prefix: &str,
) -> (r: Result<(), AnalysisError>)
    requires
        sections.wf(),
        section.wf(),
        syms_wf(old(symbol_map)@),
    ensures
        match spec_section_scan(
            *sections,
            *section,
            code@,
            base_address,
            old(symbol_map)@,
            name_prefix@,
        ) {
            Ok((s2, rs)) => r is Ok && final(symbol_map)@ == s2 && final(relocations)@ == old(
                relocations,
            )@ + rs,
            Err(e) => r == Err::<(), AnalysisError>(e),
        },
        syms_wf(final(symbol_map)@),
        sym_functions_disjoint(old(symbol_map)@) ==> sym_functions_disjoint(final(symbol_map)@),
        old(symbol_map)@.len() <= final(symbol_map)@.len() && final(symbol_map)@.take(
            old(symbol_map)@.len() as int,
        ) == old(symbol_map)@,
        forall|k: int|
            old(symbol_map)@.len() <= k < final(symbol_map)@.len() ==> sections.spec_contains_addr(
                (#[trigger] final(symbol_map)@[k]).addr,
            ),
        r is Err ==> final(relocations)@.len() >= old(relocations)@.len()
            && final(relocations)@.take(old(relocations)@.len() as int) == old(relocations)@,
{
    find_pointers(sections, section, code, base_address, symbol_map, relocations, name_prefix)
}

} // verus!

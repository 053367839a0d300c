use vstd::prelude::*;

use crate::errors::AnalysisError;
use crate::modules::{modules_wf, Module, ModuleKind};
use crate::relocations::{
    spec_reduce, DestModel, RelocModel, Relocation, RelocationKind, RelocationModule,
};
use crate::sections::{CallSite, Function, PoolConstant, SectionKind, Word};
use crate::symbols::{
    lemma_containing_unique, spec_add_label, sym_containing_index,
    sym_functions_disjoint, sym_has_containing, syms_wf, SymModel, SymbolMaps,
};

verus! {

/// A candidate target found during cross-module resolution: the module and
/// section that contain the address.
#[derive(Clone, Copy, PartialEq, Eq, Structural, Debug)]
pub struct SymbolCandidate {
    pub module_index: usize,
    pub section_index: usize,
}

/// An address outside the focus module together with every candidate that
/// may own it, kept for later symbol unification.
#[derive(Clone, Debug)]
pub struct ExternalSymbol {
    pub candidates: Vec<SymbolCandidate>,
    pub address: u32,
}

/// Mathematical model of an external symbol.
pub struct ExtSymModel {
    pub candidates: Seq<SymbolCandidate>,
    pub address: u32,
}

impl View for ExternalSymbol {
    type V = ExtSymModel;

    open spec fn view(&self) -> ExtSymModel {
        ExtSymModel { candidates: self.candidates@, address: self.address }
    }
}

/// The relocations and external symbols found for one focus module.
pub struct RelocationResult {
    pub relocations: Vec<Relocation>,
    pub external_symbols: Vec<ExternalSymbol>,
}

impl RelocationResult {
    pub open spec fn relocs(self) -> Seq<RelocModel> {
        self.relocations@.map_values(|r: Relocation| r@)
    }

    pub open spec fn ext_syms(self) -> Seq<ExtSymModel> {
        self.external_symbols@.map_values(|e: ExternalSymbol| e@)
    }

    pub fn new() -> (r: RelocationResult)
        ensures
            r.relocs() == Seq::<RelocModel>::empty(),
            r.ext_syms() == Seq::<ExtSymModel>::empty(),
    {
        let r = RelocationResult { relocations: Vec::new(), external_symbols: Vec::new() };
        proof {
            assert(r.relocs() =~= Seq::<RelocModel>::empty());
            assert(r.ext_syms() =~= Seq::<ExtSymModel>::empty());
        }
        r
    }

    fn push_reloc(&mut self, r: Relocation)
        ensures
            final(self).relocs() == old(self).relocs().push(r@),
            final(self).ext_syms() == old(self).ext_syms(),
    {
        let ghost before = self.relocations@;
        self.relocations.push(r);
        proof {
            assert(self.relocations@.map_values(|x: Relocation| x@) =~= before.map_values(
                |x: Relocation| x@,
            ).push(r@));
        }
    }

    fn push_ext(&mut self, e: ExternalSymbol)
        ensures
            final(self).ext_syms() == old(self).ext_syms().push(e@),
            final(self).relocs() == old(self).relocs(),
    {
        let ghost before = self.external_symbols@;
        let ghost ev = e@;
        self.external_symbols.push(e);
        proof {
            assert(self.external_symbols@.map_values(|x: ExternalSymbol| x@) =~= before.map_values(
                |x: ExternalSymbol| x@,
            ).push(ev));
        }
    }
}

/// Whether `m` is a candidate for a call to `target` expecting the given
/// Thumb state: some section of `m` contains the target, and a function of
/// that section starts at the target with the low bit cleared and matches
/// the expected Thumb state.
pub open spec fn spec_is_call_candidate(m: Module, target: u32, thumb: bool) -> bool {
    m.sections.spec_contains_addr(target) && {
        let sec = m.sections.sections@[m.sections.spec_index_of(target)];
        sec.spec_has_function_at(target & !1u32) && sec.spec_function_at(target & !1u32).thumb
            == thumb
    }
}

/// The kinds of the modules that are call candidates for `target`, in module
/// order.
pub open spec fn spec_call_kinds(modules: Seq<Module>, target: u32, thumb: bool) -> Seq<ModuleKind>
    decreases modules.len(),
{
    if modules.len() == 0 {
        Seq::empty()
    } else {
        let prev = spec_call_kinds(modules.drop_last(), target, thumb);
        if spec_is_call_candidate(modules.last(), target, thumb) {
            prev.push(modules.last().kind)
        } else {
            prev
        }
    }
}

/// Every collected call-candidate kind belongs to a module that passes the
/// candidate filter.
pub proof fn lemma_call_kinds_member(modules: Seq<Module>, target: u32, thumb: bool, j: int)
    requires
        0 <= j < spec_call_kinds(modules, target, thumb).len(),
    ensures
        exists|mi: int|
            0 <= mi < modules.len() && spec_is_call_candidate(#[trigger] modules[mi], target, thumb)
                && modules[mi].kind == spec_call_kinds(modules, target, thumb)[j],
    decreases modules.len(),
{
    let kinds = spec_call_kinds(modules, target, thumb);
    let prev = spec_call_kinds(modules.drop_last(), target, thumb);
    if spec_is_call_candidate(modules.last(), target, thumb) && j == kinds.len() - 1 {
        let mi = modules.len() - 1;
        assert(spec_is_call_candidate(modules[mi], target, thumb) && modules[mi].kind == kinds[j]);
    } else {
        lemma_call_kinds_member(modules.drop_last(), target, thumb, j);
        let mi = choose|mi: int|
            0 <= mi < modules.drop_last().len() && spec_is_call_candidate(
                #[trigger] modules.drop_last()[mi],
                target,
                thumb,
            ) && modules.drop_last()[mi].kind == prev[j];
        assert(modules.drop_last()[mi] == modules[mi]);
        assert(spec_is_call_candidate(modules[mi], target, thumb) && modules[mi].kind == kinds[j]);
    }
}

/// Whether `m` is a candidate owner for a data pointer: some section
/// contains it, and a code hit additionally requires a function at the
/// masked address whose Thumb state matches the pointer's low bit.
pub open spec fn spec_is_load_candidate(m: Module, pointer: u32) -> bool {
    m.sections.spec_contains_addr(pointer) && {
        let sec = m.sections.sections@[m.sections.spec_index_of(pointer)];
        sec.kind == SectionKind::Code ==> (sec.spec_has_function_at(pointer & !1u32)
            && sec.spec_function_at(pointer & !1u32).thumb == ((pointer & 1u32) != 0))
    }
}

/// The candidates of all modules other than the focus for a data pointer, in
/// module order.
pub open spec fn spec_load_candidates(modules: Seq<Module>, focus: int, pointer: u32) -> Seq<
    SymbolCandidate,
>
    decreases modules.len(),
{
    if modules.len() == 0 {
        Seq::empty()
    } else {
        let prev = spec_load_candidates(modules.drop_last(), focus, pointer);
        let i = modules.len() - 1;
        if i != focus && spec_is_load_candidate(modules.last(), pointer) {
            prev.push(
                SymbolCandidate {
                    module_index: i as usize,
                    section_index: modules.last().sections.spec_index_of(pointer) as usize,
                },
            )
        } else {
            prev
        }
    }
}

/// Every collected load candidate names a non-focus module that passes the
/// candidate filter, with the index of the section containing the pointer.
pub proof fn lemma_load_candidates_member(modules: Seq<Module>, focus: int, pointer: u32, j: int)
    requires
        modules.len() <= usize::MAX,
        0 <= j < spec_load_candidates(modules, focus, pointer).len(),
    ensures
        ({
            let c = spec_load_candidates(modules, focus, pointer)[j];
            &&& c.module_index < modules.len()
            &&& c.module_index != focus
            &&& spec_is_load_candidate(modules[c.module_index as int], pointer)
            &&& c.section_index == modules[c.module_index as int].sections.spec_index_of(
                pointer,
            ) as usize
        }),
    decreases modules.len(),
{
    let cands = spec_load_candidates(modules, focus, pointer);
    let prev = spec_load_candidates(modules.drop_last(), focus, pointer);
    let i = modules.len() - 1;
    assert(modules.len() > 0);
    assert(cands == if i != focus && spec_is_load_candidate(modules.last(), pointer) {
        prev.push(
            SymbolCandidate {
                module_index: i as usize,
                section_index: modules.last().sections.spec_index_of(pointer) as usize,
            },
        )
    } else {
        prev
    });
    if i != focus && spec_is_load_candidate(modules.last(), pointer) && j == cands.len() - 1 {
        assert(modules[i] == modules.last());
        assert(cands[j] == SymbolCandidate {
            module_index: i as usize,
            section_index: modules.last().sections.spec_index_of(pointer) as usize,
        });
    } else {
        assert(j < prev.len());
        assert(cands[j] == prev[j]);
        lemma_load_candidates_member(modules.drop_last(), focus, pointer, j);
        let c = prev[j];
        assert(modules.drop_last()[c.module_index as int] == modules[c.module_index as int]);
        assert(modules.drop_last()[c.module_index as int].sections == modules[c.module_index as int].sections);
    }
}

/// The kinds of the candidate modules, in candidate order.
pub open spec fn spec_candidate_kinds(modules: Seq<Module>, cands: Seq<SymbolCandidate>) -> Seq<
    ModuleKind,
> {
    cands.map_values(|c: SymbolCandidate| modules[c.module_index as int].kind)
}

/// What one call site contributes: nothing for a conditional call; for a
/// local target, a relocation against the current module after the target is
/// checked to lie inside a known function (a mid-function hit records an
/// external label); for a non-local target, a relocation against the reduced
/// candidate set.
pub open spec fn spec_call_site(
    modules: Seq<Module>,
    focus: int,
    f_thumb: bool,
    syms: Seq<SymModel>,
    cs: CallSite,
) -> Result<(Seq<SymModel>, Option<RelocModel>), AnalysisError> {
    if cs.conditional {
        Ok((syms, Option::None))
    } else if modules[focus].sections.spec_contains_addr(cs.target) {
        if !sym_has_containing(syms, cs.target) {
            Err(AnalysisError::DanglingCall { site: cs.address, target: cs.target })
        } else {
            let sym = syms[sym_containing_index(syms, cs.target)];
            let labeled = if cs.target != sym.addr {
                spec_add_label(syms, cs.target, cs.thumb)
            } else {
                Ok(syms)
            };
            match labeled {
                Err(e) => Err(e),
                Ok(s2) => Ok(
                    (
                        s2,
                        Some(
                            RelocModel {
                                site: cs.address,
                                target: cs.target,
                                addend: 0,
                                kind: RelocationKind::Call,
                                destination: DestModel::Current,
                                from_thumb: f_thumb,
                                to_thumb: cs.thumb,
                            },
                        ),
                    ),
                ),
            }
        }
    } else {
        match spec_reduce(spec_call_kinds(modules, cs.target, cs.thumb), cs.target) {
            Ok(dest) => Ok(
                (
                    syms,
                    Some(
                        RelocModel {
                            site: cs.address,
                            target: cs.target,
                            addend: 0,
                            kind: RelocationKind::Call,
                            destination: dest,
                            from_thumb: f_thumb,
                            to_thumb: cs.thumb,
                        },
                    ),
                ),
            ),
            Err(e) => Err(e),
        }
    }
}

/// Left-to-right resolution of a function's call sites, stopping at the
/// first error.
pub open spec fn spec_calls_scan(
    modules: Seq<Module>,
    focus: int,
    f_thumb: bool,
    syms: Seq<SymModel>,
    calls: Seq<CallSite>,
) -> Result<(Seq<SymModel>, Seq<RelocModel>), AnalysisError>
    decreases calls.len(),
{
    if calls.len() == 0 {
        Ok((syms, Seq::empty()))
    } else {
        match spec_calls_scan(modules, focus, f_thumb, syms, calls.drop_last()) {
            Err(e) => Err(e),
            Ok((s1, rs)) => match spec_call_site(modules, focus, f_thumb, s1, calls.last()) {
                Err(e) => Err(e),
                Ok((s2, Some(r))) => Ok((s2, rs.push(r))),
                Ok((s2, Option::None)) => Ok((s2, rs)),
            },
        }
    }
}

pub proof fn lemma_calls_scan_err(
    modules: Seq<Module>,
    focus: int,
    f_thumb: bool,
    syms: Seq<SymModel>,
    calls: Seq<CallSite>,
    k: int,
)
    requires
        0 <= k <= calls.len(),
        spec_calls_scan(modules, focus, f_thumb, syms, calls.take(k)) is Err,
    ensures
        spec_calls_scan(modules, focus, f_thumb, syms, calls) == spec_calls_scan(
            modules,
            focus,
            f_thumb,
            syms,
            calls.take(k),
        ),
    decreases calls.len(),
{
    if k == calls.len() {
        assert(calls.take(k) =~= calls);
    } else {
        assert(calls.drop_last().take(k) =~= calls.take(k));
        lemma_calls_scan_err(modules, focus, f_thumb, syms, calls.drop_last(), k);
    }
}

/// What one pointer outside the focus module contributes: nothing when it is
/// local (the local scanner's job) or when no candidate owns it; otherwise a
/// load relocation against the reduced candidate set and an external symbol
/// carrying every candidate.
pub open spec fn spec_external_data(
    modules: Seq<Module>,
    focus: int,
    site: u32,
    pointer: u32,
) -> Result<(Seq<RelocModel>, Seq<ExtSymModel>), AnalysisError> {
    if modules[focus].sections.spec_contains_addr(pointer) {
        Ok((Seq::empty(), Seq::empty()))
    } else {
        let cands = spec_load_candidates(modules, focus, pointer);
        if cands.len() == 0 {
            Ok((Seq::empty(), Seq::empty()))
        } else {
            match spec_reduce(spec_candidate_kinds(modules, cands), pointer) {
                Ok(dest) => Ok(
                    (
                        seq![
                            RelocModel {
                                site,
                                target: pointer,
                                addend: 0,
                                kind: RelocationKind::Load,
                                destination: dest,
                                from_thumb: false,
                                to_thumb: false,
                            },
                        ],
                        seq![ExtSymModel { address: pointer, candidates: cands }],
                    ),
                ),
                Err(e) => Err(e),
            }
        }
    }
}

/// Left-to-right resolution of a function's pool constants against the other
/// modules.
pub open spec fn spec_pools_ext(modules: Seq<Module>, focus: int, pools: Seq<PoolConstant>) -> Result<
    (Seq<RelocModel>, Seq<ExtSymModel>),
    AnalysisError,
>
    decreases pools.len(),
{
    if pools.len() == 0 {
        Ok((Seq::empty(), Seq::empty()))
    } else {
        match spec_pools_ext(modules, focus, pools.drop_last()) {
            Err(e) => Err(e),
            Ok((rs, es)) => match spec_external_data(
                modules,
                focus,
                pools.last().address,
                pools.last().value,
            ) {
                Err(e) => Err(e),
                Ok((r2, e2)) => Ok((rs + r2, es + e2)),
            },
        }
    }
}

pub proof fn lemma_pools_ext_err(modules: Seq<Module>, focus: int, pools: Seq<PoolConstant>, k: int)
    requires
        0 <= k <= pools.len(),
        spec_pools_ext(modules, focus, pools.take(k)) is Err,
    ensures
        spec_pools_ext(modules, focus, pools) == spec_pools_ext(modules, focus, pools.take(k)),
    decreases pools.len(),
{
    if k == pools.len() {
        assert(pools.take(k) =~= pools);
    } else {
        assert(pools.drop_last().take(k) =~= pools.take(k));
        lemma_pools_ext_err(modules, focus, pools.drop_last(), k);
    }
}

/// Left-to-right resolution of a data section's words against the other
/// modules.
pub open spec fn spec_words_ext(modules: Seq<Module>, focus: int, words: Seq<Word>) -> Result<
    (Seq<RelocModel>, Seq<ExtSymModel>),
    AnalysisError,
>
    decreases words.len(),
{
    if words.len() == 0 {
        Ok((Seq::empty(), Seq::empty()))
    } else {
        match spec_words_ext(modules, focus, words.drop_last()) {
            Err(e) => Err(e),
            Ok((rs, es)) => match spec_external_data(
                modules,
                focus,
                words.last().address,
                words.last().value,
            ) {
                Err(e) => Err(e),
                Ok((r2, e2)) => Ok((rs + r2, es + e2)),
            },
        }
    }
}

pub proof fn lemma_words_ext_err(modules: Seq<Module>, focus: int, words: Seq<Word>, k: int)
    requires
        0 <= k <= words.len(),
        spec_words_ext(modules, focus, words.take(k)) is Err,
    ensures
        spec_words_ext(modules, focus, words) == spec_words_ext(modules, focus, words.take(k)),
    decreases words.len(),
{
    if k == words.len() {
        assert(words.take(k) =~= words);
    } else {
        assert(words.drop_last().take(k) =~= words.take(k));
        lemma_words_ext_err(modules, focus, words.drop_last(), k);
    }
}

/// The call pass over the functions of one section: every function's call
/// sites, functions in listed (address) order.
pub open spec fn spec_functions_calls(
    modules: Seq<Module>,
    focus: int,
    fns: Seq<Function>,
    syms: Seq<SymModel>,
) -> Result<(Seq<SymModel>, Seq<RelocModel>), AnalysisError>
    decreases fns.len(),
{
    if fns.len() == 0 {
        Ok((syms, Seq::empty()))
    } else {
        match spec_functions_calls(modules, focus, fns.drop_last(), syms) {
            Err(e) => Err(e),
            Ok((s1, rs)) => match spec_calls_scan(
                modules,
                focus,
                fns.last().thumb,
                s1,
                fns.last().calls@,
            ) {
                Err(e) => Err(e),
                Ok((s2, r2)) => Ok((s2, rs + r2)),
            },
        }
    }
}

pub proof fn lemma_functions_calls_err(
    modules: Seq<Module>,
    focus: int,
    fns: Seq<Function>,
    syms: Seq<SymModel>,
    k: int,
)
    requires
        0 <= k <= fns.len(),
        spec_functions_calls(modules, focus, fns.take(k), syms) is Err,
    ensures
        spec_functions_calls(modules, focus, fns, syms) == spec_functions_calls(
            modules,
            focus,
            fns.take(k),
            syms,
        ),
    decreases fns.len(),
{
    if k == fns.len() {
        assert(fns.take(k) =~= fns);
    } else {
        assert(fns.drop_last().take(k) =~= fns.take(k));
        lemma_functions_calls_err(modules, focus, fns.drop_last(), syms, k);
    }
}

/// The call pass over every section of the focus module, in section order.
pub open spec fn spec_sections_calls(
    modules: Seq<Module>,
    focus: int,
    secs: Seq<crate::sections::Section>,
    syms: Seq<SymModel>,
) -> Result<(Seq<SymModel>, Seq<RelocModel>), AnalysisError>
    decreases secs.len(),
{
    if secs.len() == 0 {
        Ok((syms, Seq::empty()))
    } else {
        match spec_sections_calls(modules, focus, secs.drop_last(), syms) {
            Err(e) => Err(e),
            Ok((s1, rs)) => match spec_functions_calls(
                modules,
                focus,
                secs.last().functions@,
                s1,
            ) {
                Err(e) => Err(e),
                Ok((s2, r2)) => Ok((s2, rs + r2)),
            },
        }
    }
}

pub proof fn lemma_sections_calls_err(
    modules: Seq<Module>,
    focus: int,
    secs: Seq<crate::sections::Section>,
    syms: Seq<SymModel>,
    k: int,
)
    requires
        0 <= k <= secs.len(),
        spec_sections_calls(modules, focus, secs.take(k), syms) is Err,
    ensures
        spec_sections_calls(modules, focus, secs, syms) == spec_sections_calls(
            modules,
            focus,
            secs.take(k),
            syms,
        ),
    decreases secs.len(),
{
    if k == secs.len() {
        assert(secs.take(k) =~= secs);
    } else {
        assert(secs.drop_last().take(k) =~= secs.take(k));
        lemma_sections_calls_err(modules, focus, secs.drop_last(), syms, k);
    }
}

/// The pool pass over the functions of one section: every function's pool
/// constants, in the same function order as the call pass.
pub open spec fn spec_functions_pools(modules: Seq<Module>, focus: int, fns: Seq<Function>) -> Result<
    (Seq<RelocModel>, Seq<ExtSymModel>),
    AnalysisError,
>
    decreases fns.len(),
{
    if fns.len() == 0 {
        Ok((Seq::empty(), Seq::empty()))
    } else {
        match spec_functions_pools(modules, focus, fns.drop_last()) {
            Err(e) => Err(e),
            Ok((rs, es)) => match spec_pools_ext(modules, focus, fns.last().pools@) {
                Err(e) => Err(e),
                Ok((r2, e2)) => Ok((rs + r2, es + e2)),
            },
        }
    }
}

pub proof fn lemma_functions_pools_err(modules: Seq<Module>, focus: int, fns: Seq<Function>, k: int)
    requires
        0 <= k <= fns.len(),
        spec_functions_pools(modules, focus, fns.take(k)) is Err,
    ensures
        spec_functions_pools(modules, focus, fns) == spec_functions_pools(
            modules,
            focus,
            fns.take(k),
        ),
    decreases fns.len(),
{
    if k == fns.len() {
        assert(fns.take(k) =~= fns);
    } else {
        assert(fns.drop_last().take(k) =~= fns.take(k));
        lemma_functions_pools_err(modules, focus, fns.drop_last(), k);
    }
}

/// The pool pass over every section of the focus module, in section order.
pub open spec fn spec_sections_pools(
    modules: Seq<Module>,
    focus: int,
    secs: Seq<crate::sections::Section>,
) -> Result<(Seq<RelocModel>, Seq<ExtSymModel>), AnalysisError>
    decreases secs.len(),
{
    if secs.len() == 0 {
        Ok((Seq::empty(), Seq::empty()))
    } else {
        match spec_sections_pools(modules, focus, secs.drop_last()) {
            Err(e) => Err(e),
            Ok((rs, es)) => match spec_functions_pools(modules, focus, secs.last().functions@) {
                Err(e) => Err(e),
                Ok((r2, e2)) => Ok((rs + r2, es + e2)),
            },
        }
    }
}

pub proof fn lemma_sections_pools_err(
    modules: Seq<Module>,
    focus: int,
    secs: Seq<crate::sections::Section>,
    k: int,
)
    requires
        0 <= k <= secs.len(),
        spec_sections_pools(modules, focus, secs.take(k)) is Err,
    ensures
        spec_sections_pools(modules, focus, secs) == spec_sections_pools(
            modules,
            focus,
            secs.take(k),
        ),
    decreases secs.len(),
{
    if k == secs.len() {
        assert(secs.take(k) =~= secs);
    } else {
        assert(secs.drop_last().take(k) =~= secs.take(k));
        lemma_sections_pools_err(modules, focus, secs.drop_last(), k);
    }
}

/// The function passes of cross-module resolution: first every call site of
/// every function (the call pass), then every pool constant in the same
/// order (the pool pass). All call relocations precede all pool loads.
pub open spec fn spec_functions_relocs(
    modules: Seq<Module>,
    focus: int,
    secs: Seq<crate::sections::Section>,
    syms: Seq<SymModel>,
) -> Result<(Seq<SymModel>, Seq<RelocModel>, Seq<ExtSymModel>), AnalysisError> {
    match spec_sections_calls(modules, focus, secs, syms) {
        Err(e) => Err(e),
        Ok((s1, rs1)) => match spec_sections_pools(modules, focus, secs) {
            Err(e) => Err(e),
            Ok((rs2, es2)) => Ok((s1, rs1 + rs2, es2)),
        },
    }
}

/// What resolving one section's raw words contributes: only data sections
/// are scanned, word by word.
pub open spec fn spec_data_section_ext(
    modules: Seq<Module>,
    focus: int,
    sec: crate::sections::Section,
) -> Result<(Seq<RelocModel>, Seq<ExtSymModel>), AnalysisError> {
    if sec.kind != SectionKind::Data {
        Ok((Seq::empty(), Seq::empty()))
    } else if !sec.bytes_ok(
        modules[focus].code@.len() as int,
        modules[focus].base_address,
    ) {
        Err(AnalysisError::MissingSectionBytes { start: sec.start, end: sec.end })
    } else {
        spec_words_ext(
            modules,
            focus,
            sec.spec_words(modules[focus].code@, modules[focus].base_address),
        )
    }
}

/// Left-to-right resolution of the focus module's data-section words, in
/// section order.
pub open spec fn spec_sections_ext(
    modules: Seq<Module>,
    focus: int,
    secs: Seq<crate::sections::Section>,
) -> Result<(Seq<RelocModel>, Seq<ExtSymModel>), AnalysisError>
    decreases secs.len(),
{
    if secs.len() == 0 {
        Ok((Seq::empty(), Seq::empty()))
    } else {
        match spec_sections_ext(modules, focus, secs.drop_last()) {
            Err(e) => Err(e),
            Ok((rs, es)) => match spec_data_section_ext(modules, focus, secs.last()) {
                Err(e) => Err(e),
                Ok((r2, e2)) => Ok((rs + r2, es + e2)),
            },
        }
    }
}

pub proof fn lemma_sections_ext_err(
    modules: Seq<Module>,
    focus: int,
    secs: Seq<crate::sections::Section>,
    k: int,
)
    requires
        0 <= k <= secs.len(),
        spec_sections_ext(modules, focus, secs.take(k)) is Err,
    ensures
        spec_sections_ext(modules, focus, secs) == spec_sections_ext(modules, focus, secs.take(k)),
    decreases secs.len(),
{
    if k == secs.len() {
        assert(secs.take(k) =~= secs);
    } else {
        assert(secs.drop_last().take(k) =~= secs.take(k));
        lemma_sections_ext_err(modules, focus, secs.drop_last(), k);
    }
}

/// What the whole cross-module resolution of one focus module produces: the
/// call and pool pass over every function, then the word pass over every
/// data section.
pub open spec fn spec_analyze(modules: Seq<Module>, focus: int, syms: Seq<SymModel>) -> Result<
    (Seq<SymModel>, Seq<RelocModel>, Seq<ExtSymModel>),
    AnalysisError,
> {
    match spec_functions_relocs(
        modules,
        focus,
        modules[focus].sections.sections@,
        syms,
    ) {
        Err(e) => Err(e),
        Ok((s1, rs1, es1)) => match spec_sections_ext(
            modules,
            focus,
            modules[focus].sections.sections@,
        ) {
            Err(e) => Err(e),
            Ok((rs2, es2)) => Ok((s1, rs1 + rs2, es1 + es2)),
        },
    }
}

/// Whether `m` is a call candidate for `target` with the expected Thumb
/// state.
fn is_call_candidate(m: &Module, target: u32, thumb: bool) -> (r: bool)
    requires
        m.wf(),
    ensures
        r == spec_is_call_candidate(*m, target, thumb),
{
    match m.sections.get_by_contained_address(target) {
        Option::None => false,
        Option::Some(si) => {
            let sec = &m.sections.sections[si];
            match sec.get_function(target & !1u32) {
                Option::None => false,
                Option::Some(f) => f.thumb == thumb,
            }
        },
    }
}

/// Whether `m` may own the data pointer `pointer`.
fn is_load_candidate(m: &Module, pointer: u32) -> (r: bool)
    requires
        m.wf(),
    ensures
        r == spec_is_load_candidate(*m, pointer),
{
    match m.sections.get_by_contained_address(pointer) {
        Option::None => false,
        Option::Some(si) => {
            let sec = &m.sections.sections[si];
            if matches!(sec.kind, SectionKind::Code) {
                match sec.get_function(pointer & !1u32) {
                    Option::None => false,
                    Option::Some(f) => f.thumb == ((pointer & 1u32) != 0),
                }
            } else {
                true
            }
        },
    }
}

/// Collects, over all modules but the focus one, the candidates that may own
/// the data pointer `pointer`.
pub fn find_symbol_candidates(modules: &Vec<Module>, module_index: usize, pointer: u32) -> (r: Vec<
    SymbolCandidate,
>)
    requires
        modules_wf(modules@),
        module_index < modules@.len(),
    ensures
        r@ == spec_load_candidates(modules@, module_index as int, pointer),
{
    let mut cands: Vec<SymbolCandidate> = Vec::new();
    let n = modules.len();
    let mut i: usize = 0;
    while i < n
        invariant
            modules_wf(modules@),
            n == modules@.len(),
            0 <= i <= n,
            cands@ == spec_load_candidates(
                modules@.take(i as int),
                module_index as int,
                pointer,
            ),
        decreases n - i,
    {
        proof {
            assert(modules@.take(i + 1).drop_last() =~= modules@.take(i as int));
            assert(modules@.take(i + 1).last() == modules@[i as int]);
        }
        if i != module_index {
            let m = &modules[i];
            match m.sections.get_by_contained_address(pointer) {
                Option::None => {
                    proof {
                        assert(!spec_is_load_candidate(modules@[i as int], pointer));
                    }
                },
                Option::Some(si) => {
                    let sec = &m.sections.sections[si];
                    let accept: bool = if matches!(sec.kind, SectionKind::Code) {
                        match sec.get_function(pointer & !1u32) {
                            Option::None => false,
                            Option::Some(f) => f.thumb == ((pointer & 1u32) != 0),
                        }
                    } else {
                        true
                    };
                    if accept {
                        cands.push(SymbolCandidate { module_index: i, section_index: si });
                    }
                },
            }
        }
        i = i + 1;
    }
    proof {
        assert(modules@.take(n as int) =~= modules@);
    }
    cands
}

/// Resolves one pointer found at `address` in the focus module against the
/// other modules, appending at most one load relocation and one external
/// symbol.
fn find_external_data(
    modules: &Vec<Module>,
    module_index: usize,
    address: u32,
    pointer: u32,
    result: &mut RelocationResult,
) -> (r: Result<(), AnalysisError>)
    requires
        modules_wf(modules@),
        module_index < modules@.len(),
    ensures
        match spec_external_data(modules@, module_index as int, address, pointer) {
            Ok((rs, es)) => r is Ok && final(result).relocs() == old(result).relocs() + rs && final(result).ext_syms() == old(result).ext_syms() + es,
            Err(e) => r == Err::<(), AnalysisError>(e) && final(result).relocs() == old(result).relocs() && final(result).ext_syms() == old(result).ext_syms(),
        },
        forall|i: int|
            old(result).relocs().len() <= i < final(result).relocs().len()
                ==> (#[trigger] final(result).relocs()[i]).kind == RelocationKind::Load
                    && final(result).relocs()[i].target == pointer
                    && !modules@[module_index as int].sections.spec_contains_addr(pointer),
{
    if modules[module_index].sections.get_by_contained_address(pointer).is_some() {
        proof {
            assert(old(result).relocs() + Seq::<RelocModel>::empty() =~= old(result).relocs());
            assert(old(result).ext_syms() + Seq::<ExtSymModel>::empty() =~= old(result).ext_syms());
        }
        return Ok(());
    }
    let candidates = find_symbol_candidates(modules, module_index, pointer);
    if candidates.is_empty() {
        proof {
            assert(old(result).relocs() + Seq::<RelocModel>::empty() =~= old(result).relocs());
            assert(old(result).ext_syms() + Seq::<ExtSymModel>::empty() =~= old(result).ext_syms());
        }
        return Ok(());
    }
    let ghost cands = candidates@;
    let nm = modules.len();
    let mut kinds: Vec<ModuleKind> = Vec::new();
    let n = candidates.len();
    let mut i: usize = 0;
    while i < n
        invariant
            modules_wf(modules@),
            module_index < modules@.len(),
            modules@.len() == nm,
            n == cands.len(),
            candidates@ == cands,
            cands == spec_load_candidates(modules@, module_index as int, pointer),
            0 <= i <= n,
            kinds@ == spec_candidate_kinds(modules@, cands.take(i as int)),
        decreases n - i,
    {
        proof {
            lemma_load_candidates_member(modules@, module_index as int, pointer, i as int);
        }
        let c = candidates[i];
        kinds.push(modules[c.module_index].kind);
        proof {
            assert(cands.take(i + 1) =~= cands.take(i as int).push(cands[i as int]));
            assert(kinds@ =~= spec_candidate_kinds(modules@, cands.take(i + 1)));
        }
        i = i + 1;
    }
    proof {
        assert(cands.take(n as int) =~= cands);
    }
    match RelocationModule::from_modules(&kinds, pointer) {
        Err(e) => Err(e),
        Ok(dest) => {
            let ghost destv = dest@;
            let reloc = Relocation::new_load(address, pointer, 0, dest);
            result.push_reloc(reloc);
            let ext = ExternalSymbol { candidates, address: pointer };
            let ghost extv = ext@;
            result.push_ext(ext);
            proof {
                match spec_external_data(modules@, module_index as int, address, pointer) {
                    Ok((rs, es)) => {
                        assert(final(result).relocs() =~= old(result).relocs() + rs);
                        assert(final(result).ext_syms() =~= old(result).ext_syms() + es);
                    },
                    Err(e) => {
                        assert(false);
                    },
                }
            }
            Ok(())
        },
    }
}

/// Resolves every pool constant of one function against the other modules.
fn find_external_data_from_pools(
    modules: &Vec<Module>,
    module_index: usize,
    function: &Function,
    result: &mut RelocationResult,
) -> (r: Result<(), AnalysisError>)
    requires
        modules_wf(modules@),
        module_index < modules@.len(),
    ensures
        match spec_pools_ext(modules@, module_index as int, function.pools@) {
            Ok((rs, es)) => r is Ok && final(result).relocs() == old(result).relocs() + rs && final(result).ext_syms() == old(result).ext_syms() + es,
            Err(e) => r == Err::<(), AnalysisError>(e),
        },
        r is Err ==> final(result).relocs().len() >= old(result).relocs().len() && final(result).relocs().take(old(result).relocs().len() as int) == old(result).relocs() && final(result).ext_syms().len() >= old(result).ext_syms().len() && final(result).ext_syms().take(old(result).ext_syms().len() as int) == old(result).ext_syms(),
{
    let ghost relocs0 = result.relocs();
    let ghost ext0 = result.ext_syms();
    let n = function.pools.len();
    let mut i: usize = 0;
    while i < n
        invariant
            relocs0 == old(result).relocs(),
            ext0 == old(result).ext_syms(),
            modules_wf(modules@),
            module_index < modules@.len(),
            n == function.pools@.len(),
            0 <= i <= n,
            match spec_pools_ext(modules@, module_index as int, function.pools@.take(i as int)) {
                Ok((rs, es)) => result.relocs() == relocs0 + rs && result.ext_syms() == ext0 + es,
                Err(e) => false,
            },
        decreases n - i,
    {
        let pc = function.pools[i];
        proof {
            assert(function.pools@.take(i + 1).drop_last() =~= function.pools@.take(i as int));
            assert(function.pools@.take(i + 1).last() == function.pools@[i as int]);
        }
        match find_external_data(modules, module_index, pc.address, pc.value, result) {
            Ok(()) => {},
            Err(e) => {
                proof {
                    lemma_pools_ext_err(modules@, module_index as int, function.pools@, i + 1);
                    assert(result.relocs().take(relocs0.len() as int) =~= relocs0);
                    assert(result.ext_syms().take(ext0.len() as int) =~= ext0);
                }
                return Err(e);
            },
        }
        proof {
            match spec_pools_ext(modules@, module_index as int, function.pools@.take(i + 1)) {
                Ok((rs, es)) => {
                    assert(result.relocs() =~= relocs0 + rs);
                    assert(result.ext_syms() =~= ext0 + es);
                },
                Err(e) => {
                    assert(false);
                },
            }
        }
        i = i + 1;
    }
    proof {
        assert(function.pools@.take(n as int) =~= function.pools@);
    }
    Ok(())
}

/// Resolves every function call site of one function of the focus module: a
/// conditional call is skipped; a local target must lie inside a known
/// function (a mid-function hit records an external label and the
/// destination is the current module); a non-local target is resolved
/// against the candidate modules.
pub fn add_function_calls_as_relocations(
    modules: &Vec<Module>,
    module_index: usize,
    function: &Function,
    symbol_maps: &mut SymbolMaps,
    result: &mut RelocationResult,
) -> (r: Result<(), AnalysisError>)
    requires
        modules_wf(modules@),
        module_index < modules@.len(),
        old(symbol_maps)@.len() == modules@.len(),
        syms_wf(old(symbol_maps)@[module_index as int]),
        sym_functions_disjoint(old(symbol_maps)@[module_index as int]),
    ensures
        final(symbol_maps)@.len() == old(symbol_maps)@.len(),
        forall|j: int|
            0 <= j < old(symbol_maps)@.len() && j != module_index as int
                ==> final(symbol_maps)@[j] == old(symbol_maps)@[j],
        syms_wf(final(symbol_maps)@[module_index as int]),
        sym_functions_disjoint(final(symbol_maps)@[module_index as int]),
        final(result).ext_syms() == old(result).ext_syms(),
        match spec_calls_scan(
            modules@,
            module_index as int,
            function.thumb,
            old(symbol_maps)@[module_index as int],
            function.calls@,
        ) {
            Ok((s2, rs)) => r is Ok && final(symbol_maps)@[module_index as int] == s2 && final(result).relocs() == old(result).relocs() + rs,
            Err(e) => r == Err::<(), AnalysisError>(e),
        },
        r is Err ==> final(result).relocs().len() >= old(result).relocs().len() && final(result).relocs().take(old(result).relocs().len() as int) == old(result).relocs(),
{
    let ghost fi = module_index as int;
    let ghost syms0 = symbol_maps@[fi];
    let ghost relocs0 = result.relocs();
    let ghost ext0 = result.ext_syms();
    let n = function.calls.len();
    let mut ci: usize = 0;
    while ci < n
        invariant
            fi == module_index as int,
            syms0 == old(symbol_maps)@[fi],
            relocs0 == old(result).relocs(),
            ext0 == old(result).ext_syms(),
            modules_wf(modules@),
            module_index < modules@.len(),
            symbol_maps@.len() == old(symbol_maps)@.len(),
            old(symbol_maps)@.len() == modules@.len(),
            forall|j: int|
                0 <= j < old(symbol_maps)@.len() && j != fi ==> symbol_maps@[j] == old(symbol_maps)@[j],
            syms_wf(symbol_maps@[fi]),
            sym_functions_disjoint(symbol_maps@[fi]),
            result.ext_syms() == ext0,
            n == function.calls@.len(),
            0 <= ci <= n,
            match spec_calls_scan(
                modules@,
                fi,
                function.thumb,
                syms0,
                function.calls@.take(ci as int),
            ) {
                Ok((s, rs)) => symbol_maps@[fi] == s && result.relocs() == relocs0 + rs,
                Err(e) => false,
            },
        decreases n - ci,
    {
        let cs = function.calls[ci];
        proof {
            assert(function.calls@.take(ci + 1).drop_last() =~= function.calls@.take(ci as int));
            assert(function.calls@.take(ci + 1).last() == function.calls@[ci as int]);
        }
        if !cs.conditional {
            let is_local = modules[module_index].sections.get_by_contained_address(
                cs.target,
            ).is_some();
            if is_local {
                match symbol_maps.get_function_containing(module_index, cs.target) {
                    Option::None => {
                        proof {
                            assert(spec_calls_scan(
                                modules@,
                                fi,
                                function.thumb,
                                syms0,
                                function.calls@.take(ci + 1),
                            ) is Err);
                            lemma_calls_scan_err(
                                modules@,
                                fi,
                                function.thumb,
                                syms0,
                                function.calls@,
                                ci + 1,
                            );
                        }
                        return Err(AnalysisError::DanglingCall {
                            site: cs.address,
                            target: cs.target,
                        });
                    },
                    Option::Some(idx) => {
                        let sym_addr = symbol_maps.symbol_addr(module_index, idx);
                        proof {
                            let syms = symbol_maps@[fi];
                            let jj = sym_containing_index(syms, cs.target);
                            lemma_containing_unique(syms, cs.target, idx as int, jj);
                        }
                        if cs.target != sym_addr {
                            match symbol_maps.add_external_label(
                                module_index,
                                cs.target,
                                cs.thumb,
                            ) {
                                Ok(()) => {},
                                Err(e) => {
                                    proof {
                                        assert(spec_calls_scan(
                                            modules@,
                                            fi,
                                            function.thumb,
                                            syms0,
                                            function.calls@.take(ci + 1),
                                        ) is Err);
                                        lemma_calls_scan_err(
                                            modules@,
                                            fi,
                                            function.thumb,
                                            syms0,
                                            function.calls@,
                                            ci + 1,
                                        );
                                    }
                                    return Err(e);
                                },
                            }
                        }
                        let reloc = Relocation::new_call(
                            cs.address,
                            cs.target,
                            RelocationModule::Current,
                            function.thumb,
                            cs.thumb,
                        );
                        result.push_reloc(reloc);
                    },
                }
            } else {
                let nm = modules.len();
                let mut kinds: Vec<ModuleKind> = Vec::new();
                let mut mj: usize = 0;
                while mj < nm
                    invariant
                        modules_wf(modules@),
                        nm == modules@.len(),
                        0 <= mj <= nm,
                        kinds@ == spec_call_kinds(modules@.take(mj as int), cs.target, cs.thumb),
                    decreases nm - mj,
                {
                    proof {
                        assert(modules@.take(mj + 1).drop_last() =~= modules@.take(mj as int));
                        assert(modules@.take(mj + 1).last() == modules@[mj as int]);
                    }
                    if is_call_candidate(&modules[mj], cs.target, cs.thumb) {
                        kinds.push(modules[mj].kind);
                    }
                    mj = mj + 1;
                }
                proof {
                    assert(modules@.take(nm as int) =~= modules@);
                }
                match RelocationModule::from_modules(&kinds, cs.target) {
                    Err(e) => {
                        proof {
                            assert(spec_calls_scan(
                                modules@,
                                fi,
                                function.thumb,
                                syms0,
                                function.calls@.take(ci + 1),
                            ) is Err);
                            lemma_calls_scan_err(
                                modules@,
                                fi,
                                function.thumb,
                                syms0,
                                function.calls@,
                                ci + 1,
                            );
                        }
                        return Err(e);
                    },
                    Ok(dest) => {
                        let reloc = Relocation::new_call(
                            cs.address,
                            cs.target,
                            dest,
                            function.thumb,
                            cs.thumb,
                        );
                        result.push_reloc(reloc);
                    },
                }
            }
        }
        proof {
            match spec_calls_scan(
                modules@,
                fi,
                function.thumb,
                syms0,
                function.calls@.take(ci + 1),
            ) {
                Ok((s, rs)) => {
                    assert(symbol_maps@[fi] == s);
                    assert(result.relocs() =~= relocs0 + rs);
                },
                Err(e) => {
                    assert(false);
                },
            }
        }
        ci = ci + 1;
    }
    proof {
        assert(function.calls@.take(n as int) =~= function.calls@);
    }
    Ok(())
}

/// Resolves every function of the focus module in two passes over the same
/// section-then-function order: first every call site (Pass A), then every
/// pool constant (Pass B), so all call relocations precede all pool loads.
/// On an error the relocations already appended stay a prefix extension of
/// the old contents; the caller discards them.
pub fn find_relocations_in_functions(
    modules: &Vec<Module>,
    module_index: usize,
    symbol_maps: &mut SymbolMaps,
    result: &mut RelocationResult,
) -> (r: Result<(), AnalysisError>)
    requires
        modules_wf(modules@),
        module_index < modules@.len(),
        old(symbol_maps)@.len() == modules@.len(),
        syms_wf(old(symbol_maps)@[module_index as int]),
        sym_functions_disjoint(old(symbol_maps)@[module_index as int]),
    ensures
        final(symbol_maps)@.len() == old(symbol_maps)@.len(),
        forall|j: int|
            0 <= j < old(symbol_maps)@.len() && j != module_index as int
                ==> final(symbol_maps)@[j] == old(symbol_maps)@[j],
        syms_wf(final(symbol_maps)@[module_index as int]),
        sym_functions_disjoint(final(symbol_maps)@[module_index as int]),
        match spec_functions_relocs(
            modules@,
            module_index as int,
            modules@[module_index as int].sections.sections@,
            old(symbol_maps)@[module_index as int],
        ) {
            Ok((s2, rs, es)) => r is Ok && final(symbol_maps)@[module_index as int] == s2 && final(result).relocs() == old(result).relocs() + rs && final(result).ext_syms() == old(result).ext_syms() + es,
            Err(e) => r == Err::<(), AnalysisError>(e),
        },
        r is Err ==> final(result).relocs().len() >= old(result).relocs().len() && final(result).relocs().take(old(result).relocs().len() as int) == old(result).relocs() && final(result).ext_syms().len() >= old(result).ext_syms().len() && final(result).ext_syms().take(
            old(result).ext_syms().len() as int,
        ) == old(result).ext_syms(),
{
    let ghost fi = module_index as int;
    let ghost syms0 = symbol_maps@[fi];
    let ghost relocs0 = result.relocs();
    let ghost ext0 = result.ext_syms();
    let ghost secs = modules@[fi].sections.sections@;
    let ns = modules[module_index].sections.sections.len();

    // Pass A: every call site of every function, in section then function
    // order.
    let mut si: usize = 0;
    while si < ns
        invariant
            fi == module_index as int,
            syms0 == old(symbol_maps)@[fi],
            relocs0 == old(result).relocs(),
            ext0 == old(result).ext_syms(),
            secs == modules@[fi].sections.sections@,
            modules_wf(modules@),
            module_index < modules@.len(),
            symbol_maps@.len() == old(symbol_maps)@.len(),
            old(symbol_maps)@.len() == modules@.len(),
            forall|j: int|
                0 <= j < old(symbol_maps)@.len() && j != fi ==> symbol_maps@[j] == old(symbol_maps)@[j],
            syms_wf(symbol_maps@[fi]),
            sym_functions_disjoint(symbol_maps@[fi]),
            result.ext_syms() == ext0,
            ns == secs.len(),
            0 <= si <= ns,
            match spec_sections_calls(modules@, fi, secs.take(si as int), syms0) {
                Ok((s, rs)) => symbol_maps@[fi] == s && result.relocs() == relocs0 + rs,
                Err(e) => false,
            },
        decreases ns - si,
    {
        proof {
            assert(secs.take(si + 1).drop_last() =~= secs.take(si as int));
            assert(secs.take(si + 1).last() == secs[si as int]);
        }
        let ghost syms_sec = symbol_maps@[fi];
        let ghost relocs_sec = result.relocs();
        let ghost funcs = secs[si as int].functions@;
        let nf = modules[module_index].sections.sections[si].functions.len();
        let mut fj: usize = 0;
        while fj < nf
            invariant
                fi == module_index as int,
                syms0 == old(symbol_maps)@[fi],
                relocs0 == old(result).relocs(),
                ext0 == old(result).ext_syms(),
                secs == modules@[fi].sections.sections@,
                si < secs.len(),
                funcs == secs[si as int].functions@,
                match spec_sections_calls(modules@, fi, secs.take(si as int), syms0) {
                    Ok((s, rs)) => syms_sec == s && relocs_sec == relocs0 + rs,
                    Err(e) => false,
                },
                modules_wf(modules@),
                module_index < modules@.len(),
                symbol_maps@.len() == old(symbol_maps)@.len(),
                old(symbol_maps)@.len() == modules@.len(),
                forall|j: int|
                    0 <= j < old(symbol_maps)@.len() && j != fi ==> symbol_maps@[j] == old(symbol_maps)@[j],
                syms_wf(symbol_maps@[fi]),
                sym_functions_disjoint(symbol_maps@[fi]),
                result.ext_syms() == ext0,
                nf == funcs.len(),
                0 <= fj <= nf,
                match spec_functions_calls(modules@, fi, funcs.take(fj as int), syms_sec) {
                    Ok((s, rs)) => symbol_maps@[fi] == s && result.relocs() == relocs_sec + rs,
                    Err(e) => false,
                },
            decreases nf - fj,
        {
            proof {
                assert(funcs.take(fj + 1).drop_last() =~= funcs.take(fj as int));
                assert(funcs.take(fj + 1).last() == funcs[fj as int]);
            }
            let func = &modules[module_index].sections.sections[si].functions[fj];
            let ghost relocs_pre = result.relocs();
            match add_function_calls_as_relocations(
                modules,
                module_index,
                func,
                symbol_maps,
                result,
            ) {
                Ok(()) => {},
                Err(e) => {
                    proof {
                        assert(spec_functions_calls(modules@, fi, funcs.take(fj + 1), syms_sec)
                            is Err);
                        lemma_functions_calls_err(modules@, fi, funcs, syms_sec, fj + 1);
                        assert(secs.take(si + 1).drop_last() =~= secs.take(si as int));
                        assert(secs.take(si + 1).last() == secs[si as int]);
                        assert(spec_sections_calls(modules@, fi, secs.take(si + 1), syms0) is Err);
                        lemma_sections_calls_err(modules@, fi, secs, syms0, si + 1);
                        assert(result.relocs().take(relocs_pre.len() as int) == relocs_pre);
                        assert(relocs_pre.take(relocs0.len() as int) =~= relocs0);
                        assert(result.relocs().take(relocs0.len() as int) =~= relocs0);
                        assert(result.ext_syms().take(ext0.len() as int) =~= ext0);
                    }
                    return Err(e);
                },
            }
            proof {
                match spec_functions_calls(modules@, fi, funcs.take(fj + 1), syms_sec) {
                    Ok((s, rs)) => {
                        assert(symbol_maps@[fi] == s);
                        assert(result.relocs() =~= relocs_sec + rs);
                    },
                    Err(e) => {
                        assert(false);
                    },
                }
            }
            fj = fj + 1;
        }
        proof {
            assert(funcs.take(nf as int) =~= funcs);
            match spec_sections_calls(modules@, fi, secs.take(si + 1), syms0) {
                Ok((s, rs)) => {
                    assert(symbol_maps@[fi] == s);
                    assert(result.relocs() =~= relocs0 + rs);
                },
                Err(e) => {
                    assert(false);
                },
            }
        }
        si = si + 1;
    }
    proof {
        assert(secs.take(ns as int) =~= secs);
    }
    let ghost syms_a = symbol_maps@[fi];
    let ghost relocs_a = result.relocs();

    // Pass B: every pool constant of every function, in the same order.
    let mut si: usize = 0;
    while si < ns
        invariant
            fi == module_index as int,
            syms0 == old(symbol_maps)@[fi],
            relocs0 == old(result).relocs(),
            ext0 == old(result).ext_syms(),
            secs == modules@[fi].sections.sections@,
            modules_wf(modules@),
            module_index < modules@.len(),
            symbol_maps@.len() == old(symbol_maps)@.len(),
            old(symbol_maps)@.len() == modules@.len(),
            forall|j: int|
                0 <= j < old(symbol_maps)@.len() && j != fi ==> symbol_maps@[j] == old(symbol_maps)@[j],
            syms_wf(symbol_maps@[fi]),
            sym_functions_disjoint(symbol_maps@[fi]),
            symbol_maps@[fi] == syms_a,
            match spec_sections_calls(modules@, fi, secs, syms0) {
                Ok((s, rs)) => syms_a == s && relocs_a == relocs0 + rs,
                Err(e) => false,
            },
            ns == secs.len(),
            0 <= si <= ns,
            match spec_sections_pools(modules@, fi, secs.take(si as int)) {
                Ok((rs, es)) => result.relocs() == relocs_a + rs && result.ext_syms() == ext0 + es,
                Err(e) => false,
            },
        decreases ns - si,
    {
        proof {
            assert(secs.take(si + 1).drop_last() =~= secs.take(si as int));
            assert(secs.take(si + 1).last() == secs[si as int]);
        }
        let ghost relocs_sec = result.relocs();
        let ghost ext_sec = result.ext_syms();
        let ghost funcs = secs[si as int].functions@;
        let nf = modules[module_index].sections.sections[si].functions.len();
        let mut fj: usize = 0;
        while fj < nf
            invariant
                fi == module_index as int,
                syms0 == old(symbol_maps)@[fi],
                relocs0 == old(result).relocs(),
                ext0 == old(result).ext_syms(),
                secs == modules@[fi].sections.sections@,
                si < secs.len(),
                funcs == secs[si as int].functions@,
                relocs_a.len() <= relocs_sec.len(),
                match spec_sections_calls(modules@, fi, secs, syms0) {
                    Ok((s, rs)) => syms_a == s && relocs_a == relocs0 + rs,
                    Err(e) => false,
                },
                match spec_sections_pools(modules@, fi, secs.take(si as int)) {
                    Ok((rs, es)) => relocs_sec == relocs_a + rs && ext_sec == ext0 + es,
                    Err(e) => false,
                },
                modules_wf(modules@),
                module_index < modules@.len(),
                symbol_maps@.len() == old(symbol_maps)@.len(),
                old(symbol_maps)@.len() == modules@.len(),
                forall|j: int|
                    0 <= j < old(symbol_maps)@.len() && j != fi ==> symbol_maps@[j] == old(symbol_maps)@[j],
                syms_wf(symbol_maps@[fi]),
                sym_functions_disjoint(symbol_maps@[fi]),
                symbol_maps@[fi] == syms_a,
                nf == funcs.len(),
                0 <= fj <= nf,
                match spec_functions_pools(modules@, fi, funcs.take(fj as int)) {
                    Ok((rs, es)) => result.relocs() == relocs_sec + rs && result.ext_syms()
                        == ext_sec + es,
                    Err(e) => false,
                },
            decreases nf - fj,
        {
            proof {
                assert(funcs.take(fj + 1).drop_last() =~= funcs.take(fj as int));
                assert(funcs.take(fj + 1).last() == funcs[fj as int]);
            }
            let func = &modules[module_index].sections.sections[si].functions[fj];
            let ghost relocs_pre = result.relocs();
            let ghost ext_pre = result.ext_syms();
            match find_external_data_from_pools(modules, module_index, func, result) {
                Ok(()) => {},
                Err(e) => {
                    proof {
                        assert(spec_functions_pools(modules@, fi, funcs.take(fj + 1)) is Err);
                        lemma_functions_pools_err(modules@, fi, funcs, fj + 1);
                        assert(secs.take(si + 1).drop_last() =~= secs.take(si as int));
                        assert(secs.take(si + 1).last() == secs[si as int]);
                        assert(spec_sections_pools(modules@, fi, secs.take(si + 1)) is Err);
                        lemma_sections_pools_err(modules@, fi, secs, si + 1);
                        assert(result.relocs().take(relocs_pre.len() as int) == relocs_pre);
                        assert(relocs_pre.take(relocs0.len() as int) =~= relocs0);
                        assert(result.relocs().take(relocs0.len() as int) =~= relocs0);
                        assert(result.ext_syms().take(ext_pre.len() as int) == ext_pre);
                        assert(ext_pre.take(ext0.len() as int) =~= ext0);
                        assert(result.ext_syms().take(ext0.len() as int) =~= ext0);
                    }
                    return Err(e);
                },
            }
            proof {
                match spec_functions_pools(modules@, fi, funcs.take(fj + 1)) {
                    Ok((rs, es)) => {
                        assert(result.relocs() =~= relocs_sec + rs);
                        assert(result.ext_syms() =~= ext_sec + es);
                    },
                    Err(e) => {
                        assert(false);
                    },
                }
            }
            fj = fj + 1;
        }
        proof {
            assert(funcs.take(nf as int) =~= funcs);
            match spec_sections_pools(modules@, fi, secs.take(si + 1)) {
                Ok((rs, es)) => {
                    assert(result.relocs() =~= relocs_a + rs);
                    assert(result.ext_syms() =~= ext0 + es);
                },
                Err(e) => {
                    assert(false);
                },
            }
        }
        si = si + 1;
    }
    proof {
        assert(secs.take(ns as int) =~= secs);
        match spec_functions_relocs(modules@, fi, secs, syms0) {
            Ok((s2, rs, es)) => {
                assert(result.relocs() =~= relocs0 + rs);
                assert(result.ext_syms() =~= ext0 + es);
            },
            Err(e) => {
                assert(false);
            },
        }
    }
    Ok(())
}

/// Resolves every aligned word of the focus module's data sections against
/// the other modules, in section order, words ascending.
pub fn find_external_references_in_sections(
    modules: &Vec<Module>,
    module_index: usize,
    result: &mut RelocationResult,
) -> (r: Result<(), AnalysisError>)
    requires
        modules_wf(modules@),
        module_index < modules@.len(),
    ensures
        match spec_sections_ext(
            modules@,
            module_index as int,
            modules@[module_index as int].sections.sections@,
        ) {
            Ok((rs, es)) => r is Ok && final(result).relocs() == old(result).relocs() + rs && final(result).ext_syms() == old(result).ext_syms() + es,
            Err(e) => r == Err::<(), AnalysisError>(e),
        },
        r is Err ==> final(result).relocs().len() >= old(result).relocs().len() && final(
            result).relocs().take(old(result).relocs().len() as int) == old(result).relocs()
            && final(result).ext_syms().len() >= old(result).ext_syms().len() && final(
            result).ext_syms().take(old(result).ext_syms().len() as int) == old(result).ext_syms(),
{
    let ghost fi = module_index as int;
    let ghost relocs0 = result.relocs();
    let ghost ext0 = result.ext_syms();
    let ghost secs = modules@[fi].sections.sections@;
    let ns = modules[module_index].sections.sections.len();
    let mut si: usize = 0;
    while si < ns
        invariant
            fi == module_index as int,
            relocs0 == old(result).relocs(),
            ext0 == old(result).ext_syms(),
            secs == modules@[fi].sections.sections@,
            modules_wf(modules@),
            module_index < modules@.len(),
            ns == secs.len(),
            0 <= si <= ns,
            match spec_sections_ext(modules@, fi, secs.take(si as int)) {
                Ok((rs, es)) => result.relocs() == relocs0 + rs && result.ext_syms() == ext0 + es,
                Err(e) => false,
            },
        decreases ns - si,
    {
        proof {
            assert(secs.take(si + 1).drop_last() =~= secs.take(si as int));
            assert(secs.take(si + 1).last() == secs[si as int]);
        }
        let ghost relocs_sec = result.relocs();
        let ghost ext_sec = result.ext_syms();
        let sec = &modules[module_index].sections.sections[si];
        if matches!(sec.kind, SectionKind::Data) {
            let words = match sec.iter_words(
                modules[module_index].code.as_slice(),
                modules[module_index].base_address,
            ) {
                Ok(ws) => ws,
                Err(e) => {
                    proof {
                        assert(spec_data_section_ext(modules@, fi, secs[si as int])
                            == Err::<(Seq<RelocModel>, Seq<ExtSymModel>), AnalysisError>(e));
                        assert(spec_sections_ext(modules@, fi, secs.take(si + 1)) is Err);
                        lemma_sections_ext_err(modules@, fi, secs, si + 1);
                        assert(result.relocs().take(relocs0.len() as int) =~= relocs0);
                        assert(result.ext_syms().take(ext0.len() as int) =~= ext0);
                    }
                    return Err(e);
                },
            };
            let ghost wseq = secs[si as int].spec_words(
                modules@[fi].code@,
                modules@[fi].base_address,
            );
            let nw = words.len();
            let mut wi: usize = 0;
            while wi < nw
                invariant
                    fi == module_index as int,
                    relocs0 == old(result).relocs(),
                    ext0 == old(result).ext_syms(),
                    secs == modules@[fi].sections.sections@,
                    si < secs.len(),
                    secs[si as int].kind == SectionKind::Data,
                    secs[si as int].bytes_ok(
                        modules@[fi].code@.len() as int,
                        modules@[fi].base_address,
                    ),
                    wseq == secs[si as int].spec_words(
                        modules@[fi].code@,
                        modules@[fi].base_address,
                    ),
                    match spec_sections_ext(modules@, fi, secs.take(si as int)) {
                        Ok((rs, es)) => relocs_sec == relocs0 + rs && ext_sec == ext0 + es,
                        Err(e) => false,
                    },
                    modules_wf(modules@),
                    module_index < modules@.len(),
                    nw == wseq.len(),
                    words@ == wseq,
                    0 <= wi <= nw,
                    match spec_words_ext(modules@, fi, wseq.take(wi as int)) {
                        Ok((rs, es)) => result.relocs() == relocs_sec + rs && result.ext_syms()
                            == ext_sec + es,
                        Err(e) => false,
                    },
                decreases nw - wi,
            {
                proof {
                    assert(wseq.take(wi + 1).drop_last() =~= wseq.take(wi as int));
                    assert(wseq.take(wi + 1).last() == wseq[wi as int]);
                }
                let w = words[wi];
                match find_external_data(modules, module_index, w.address, w.value, result) {
                    Ok(()) => {},
                    Err(e) => {
                        proof {
                            assert(spec_words_ext(modules@, fi, wseq.take(wi + 1)) is Err);
                            lemma_words_ext_err(modules@, fi, wseq, wi + 1);
                            assert(secs.take(si + 1).drop_last() =~= secs.take(si as int));
                            assert(secs.take(si + 1).last() == secs[si as int]);
                            assert(spec_data_section_ext(modules@, fi, secs[si as int])
                                == Err::<(Seq<RelocModel>, Seq<ExtSymModel>), AnalysisError>(e));
                            assert(spec_sections_ext(modules@, fi, secs.take(si + 1)) is Err);
                            lemma_sections_ext_err(modules@, fi, secs, si + 1);
                            assert(result.relocs().take(relocs0.len() as int) =~= relocs0);
                            assert(result.ext_syms().take(ext0.len() as int) =~= ext0);
                        }
                        return Err(e);
                    },
                }
                proof {
                    match spec_words_ext(modules@, fi, wseq.take(wi + 1)) {
                        Ok((rs, es)) => {
                            assert(result.relocs() =~= relocs_sec + rs);
                            assert(result.ext_syms() =~= ext_sec + es);
                        },
                        Err(e) => {
                            assert(false);
                        },
                    }
                }
                wi = wi + 1;
            }
            proof {
                assert(wseq.take(nw as int) =~= wseq);
            }
        }
        proof {
            match spec_sections_ext(modules@, fi, secs.take(si + 1)) {
                Ok((rs, es)) => {
                    assert(result.relocs() =~= relocs0 + rs);
                    assert(result.ext_syms() =~= ext0 + es);
                },
                Err(e) => {
                    assert(false);
                },
            }
        }
        si = si + 1;
    }
    proof {
        assert(secs.take(ns as int) =~= secs);
    }
    Ok(())
}

/// Cross-module resolution for one focus module against the full module
/// set, in a fixed order: every function call site (functions in section
/// then listed order), then every pool constant in the same order, then
/// every data-section word. The outputs are a function of the inputs alone:
/// two runs on equal inputs return equal results. On an error no relocation
/// list is committed: the partial result is dropped and only the error
/// returned.
pub fn analyze_external_references(
    modules: &Vec<Module>,
    module_index: usize,
    symbol_maps: &mut SymbolMaps,
) -> (r: Result<RelocationResult, AnalysisError>)
    requires
        modules_wf(modules@),
        module_index < modules@.len(),
        old(symbol_maps)@.len() == modules@.len(),
        syms_wf(old(symbol_maps)@[module_index as int]),
        sym_functions_disjoint(old(symbol_maps)@[module_index as int]),
    ensures
        final(symbol_maps)@.len() == old(symbol_maps)@.len(),
        forall|j: int|
            0 <= j < old(symbol_maps)@.len() && j != module_index as int
                ==> final(symbol_maps)@[j] == old(symbol_maps)@[j],
        syms_wf(final(symbol_maps)@[module_index as int]),
        sym_functions_disjoint(final(symbol_maps)@[module_index as int]),
        match spec_analyze(modules@, module_index as int, old(symbol_maps)@[module_index as int]) {
            Ok((s2, rs, es)) => r matches Ok(res) && final(symbol_maps)@[module_index as int] == s2
                && res.relocs() == rs && res.ext_syms() == es,
            Err(e) => r matches Err(e2) && e2 == e,
        },
{
    let ghost fi = module_index as int;
    let ghost syms0 = symbol_maps@[fi];
    let mut result = RelocationResult::new();
    match find_relocations_in_functions(modules, module_index, symbol_maps, &mut result) {
        Ok(()) => {},
        Err(e) => {
            return Err(e);
        },
    }
    match find_external_references_in_sections(modules, module_index, &mut result) {
        Ok(()) => {},
        Err(e) => {
            return Err(e);
        },
    }
    proof {
        match spec_analyze(modules@, fi, syms0) {
            Ok((s2, rs, es)) => {
                assert(result.relocs() =~= rs);
                assert(result.ext_syms() =~= es);
            },
            Err(e) => {
                assert(false);
            },
        }
    }
    Ok(result)
}

} // verus!

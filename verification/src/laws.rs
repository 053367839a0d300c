use vstd::prelude::*;

use crate::analysis::{
    lemma_call_kinds_member, lemma_load_candidates_member, spec_call_kinds, spec_call_site,
    spec_candidate_kinds, spec_external_data, spec_is_call_candidate, spec_load_candidates,
    ExtSymModel,
};
use crate::errors::AnalysisError;
use crate::modules::{Module, ModuleKind};
use crate::relocations::{
    spec_all_overlays, spec_kind_to_reloc, spec_overlay_ids, spec_reduce, DestModel, RelocModel,
    RelocationKind,
};
use crate::sections::CallSite;
use crate::symbols::SymModel;

verus! {

/// A conditional call site is skipped: resolving it emits no relocation and
/// leaves the symbol map unchanged.
pub proof fn lemma_conditional_call_skipped(
    modules: Seq<Module>,
    focus: int,
    f_thumb: bool,
    syms: Seq<SymModel>,
    cs: CallSite,
)
    requires
        cs.conditional,
    ensures
        spec_call_site(modules, focus, f_thumb, syms, cs) == Ok::<
            (Seq<SymModel>, Option<RelocModel>),
            AnalysisError,
        >((syms, Option::None)),
{
}

/// A call relocation resolved to a single other module names a module that
/// really is a call candidate for its target: a code section of that module
/// contains the target, with a function starting at the target (low bit
/// cleared) whose Thumb flag equals the call's expected Thumb state.
pub proof fn lemma_call_target_matches(
    modules: Seq<Module>,
    focus: int,
    f_thumb: bool,
    syms: Seq<SymModel>,
    cs: CallSite,
    s2: Seq<SymModel>,
    r: RelocModel,
)
    requires
        spec_call_site(modules, focus, f_thumb, syms, cs) == Ok::<
            (Seq<SymModel>, Option<RelocModel>),
            AnalysisError,
        >((s2, Some(r))),
        r.destination is Main || r.destination is Autoload || r.destination is Overlay,
    ensures
        r.kind == RelocationKind::Call,
        exists|mi: int|
            0 <= mi < modules.len() && spec_is_call_candidate(
                #[trigger] modules[mi],
                r.target,
                r.to_thumb,
            ) && spec_kind_to_reloc(modules[mi].kind) == Ok::<DestModel, AnalysisError>(
                r.destination,
            ),
{
    assert(!cs.conditional);
    assert(!modules[focus].sections.spec_contains_addr(cs.target));
    let kinds = spec_call_kinds(modules, cs.target, cs.thumb);
    assert(spec_reduce(kinds, cs.target) == Ok::<DestModel, AnalysisError>(r.destination));
    if kinds.len() == 0 {
        assert(r.destination is NoDestination);
        assert(false);
    } else if kinds.len() == 1 {
        assert(spec_kind_to_reloc(kinds[0]) == Ok::<DestModel, AnalysisError>(r.destination));
        lemma_call_kinds_member(modules, cs.target, cs.thumb, 0);
    } else if spec_all_overlays(kinds) {
        assert(r.destination is Any);
        assert(false);
    } else {
        assert(false);
    }
}

/// Round trip of an `Any` destination on a call: every listed id names an
/// overlay module whose section map contains the call target.
pub proof fn lemma_any_call_round_trip(
    modules: Seq<Module>,
    focus: int,
    f_thumb: bool,
    syms: Seq<SymModel>,
    cs: CallSite,
    s2: Seq<SymModel>,
    r: RelocModel,
    ids: Seq<u16>,
)
    requires
        spec_call_site(modules, focus, f_thumb, syms, cs) == Ok::<
            (Seq<SymModel>, Option<RelocModel>),
            AnalysisError,
        >((s2, Some(r))),
        r.destination == DestModel::Any(ids),
    ensures
        forall|k: int|
            0 <= k < ids.len() ==> exists|mi: int|
                0 <= mi < modules.len() && (#[trigger] modules[mi]).kind == ModuleKind::Overlay(
                    #[trigger] ids[k],
                ) && modules[mi].sections.spec_contains_addr(r.target),
{
    assert(!cs.conditional);
    assert(!modules[focus].sections.spec_contains_addr(cs.target));
    let kinds = spec_call_kinds(modules, cs.target, cs.thumb);
    assert(spec_reduce(kinds, cs.target) == Ok::<DestModel, AnalysisError>(r.destination));
    assert(kinds.len() >= 2 && spec_all_overlays(kinds) && ids == spec_overlay_ids(kinds));
    assert forall|k: int| 0 <= k < ids.len() implies exists|mi: int|
        0 <= mi < modules.len() && (#[trigger] modules[mi]).kind == ModuleKind::Overlay(
            #[trigger] ids[k],
        ) && modules[mi].sections.spec_contains_addr(r.target) by {
        lemma_call_kinds_member(modules, cs.target, cs.thumb, k);
        let mi = choose|mi: int|
            0 <= mi < modules.len() && spec_is_call_candidate(
                #[trigger] modules[mi],
                cs.target,
                cs.thumb,
            ) && modules[mi].kind == kinds[k];
        assert(kinds[k] is Overlay);
        assert(kinds[k] == ModuleKind::Overlay(ids[k]));
        assert(modules[mi].sections.spec_contains_addr(r.target));
    }
}

/// Round trip of an `Any` destination on a load: every listed id names an
/// overlay module whose section map contains the pointer.
pub proof fn lemma_any_load_round_trip(
    modules: Seq<Module>,
    focus: int,
    site: u32,
    pointer: u32,
    rs: Seq<RelocModel>,
    es: Seq<ExtSymModel>,
    ids: Seq<u16>,
)
    requires
        modules.len() <= usize::MAX,
        spec_external_data(modules, focus, site, pointer) == Ok::<
            (Seq<RelocModel>, Seq<ExtSymModel>),
            AnalysisError,
        >((rs, es)),
        rs.len() > 0,
        rs[0].destination == DestModel::Any(ids),
    ensures
        ids == spec_overlay_ids(
            spec_candidate_kinds(modules, spec_load_candidates(modules, focus, pointer)),
        ),
        ids.len() == spec_load_candidates(modules, focus, pointer).len(),
        forall|k: int|
            0 <= k < ids.len() ==> ({
                let c = spec_load_candidates(modules, focus, pointer)[k];
                modules[c.module_index as int].kind == ModuleKind::Overlay(#[trigger] ids[k])
            }),
        forall|k: int|
            0 <= k < ids.len() ==> exists|mi: int|
                0 <= mi < modules.len() && (#[trigger] modules[mi]).kind == ModuleKind::Overlay(
                    #[trigger] ids[k],
                ) && modules[mi].sections.spec_contains_addr(pointer),
{
    let cands = spec_load_candidates(modules, focus, pointer);
    let kinds = spec_candidate_kinds(modules, cands);
    assert(cands.len() > 0);
    assert(spec_reduce(kinds, pointer) == Ok::<DestModel, AnalysisError>(rs[0].destination));
    assert(kinds.len() >= 2 && spec_all_overlays(kinds) && ids == spec_overlay_ids(kinds));
    assert forall|k: int| 0 <= k < ids.len() implies exists|mi: int|
        0 <= mi < modules.len() && (#[trigger] modules[mi]).kind == ModuleKind::Overlay(
            #[trigger] ids[k],
        ) && modules[mi].sections.spec_contains_addr(pointer) by {
        lemma_load_candidates_member(modules, focus, pointer, k);
        let c = cands[k];
        assert(kinds[k] == modules[c.module_index as int].kind);
        assert(kinds[k] is Overlay);
        assert(kinds[k] == ModuleKind::Overlay(ids[k]));
        assert(modules[c.module_index as int].sections.spec_contains_addr(pointer));
    }
}

/// A call relocation destined for the current module targets an address
/// inside a known function of the focus module's symbol map (possibly in its
/// middle, in which case an external label was recorded).
pub proof fn lemma_local_call_target_in_function(
    modules: Seq<Module>,
    focus: int,
    f_thumb: bool,
    syms: Seq<SymModel>,
    cs: CallSite,
    s2: Seq<SymModel>,
    r: RelocModel,
)
    requires
        spec_call_site(modules, focus, f_thumb, syms, cs) == Ok::<
            (Seq<SymModel>, Option<RelocModel>),
            AnalysisError,
        >((s2, Some(r))),
        r.destination is Current,
    ensures
        crate::symbols::sym_has_containing(syms, r.target),
        modules[focus].sections.spec_contains_addr(r.target),
{
}

/// A load relocation from cross-module resolution never targets an address
/// inside the focus module's own sections, and resolution of one pointer
/// emits at most one relocation, a load aimed at that pointer.
pub proof fn lemma_no_local_cross_module_loads(
    modules: Seq<Module>,
    focus: int,
    site: u32,
    pointer: u32,
    rs: Seq<RelocModel>,
    es: Seq<ExtSymModel>,
)
    requires
        spec_external_data(modules, focus, site, pointer) == Ok::<
            (Seq<RelocModel>, Seq<ExtSymModel>),
            AnalysisError,
        >((rs, es)),
        rs.len() > 0,
    ensures
        !modules[focus].sections.spec_contains_addr(pointer),
        rs.len() == 1,
        rs[0].target == pointer,
        rs[0].site == site,
        rs[0].kind == RelocationKind::Load,
{
}

} // verus!

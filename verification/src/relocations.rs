use vstd::prelude::*;

use crate::errors::AnalysisError;
use crate::modules::{AutoloadKind, ModuleKind};

verus! {

/// Kind of an emitted relocation: a rewritten branch, or a literal word that
/// holds an address.
#[derive(Clone, Copy, PartialEq, Eq, Structural, Debug)]
pub enum RelocationKind {
    Call,
    Load,
}

/// The module a relocation's target resolves to. `Current` is the module the
/// relocation itself belongs to; `Any` defers a choice among overlays that
/// alias the target range to link time; `NoDestination` records that no
/// candidate was found.
#[derive(Clone, Debug)]
pub enum RelocationModule {
    NoDestination,
    Current,
    Main,
    Autoload(AutoloadKind),
    Overlay(u16),
    Any(Vec<u16>),
}

/// Mathematical model of a destination, with the overlay list as a sequence.
pub enum DestModel {
    NoDestination,
    Current,
    Main,
    Autoload(AutoloadKind),
    Overlay(u16),
    Any(Seq<u16>),
}

impl View for RelocationModule {
    type V = DestModel;

    open spec fn view(&self) -> DestModel {
        match self {
            RelocationModule::NoDestination => DestModel::NoDestination,
            RelocationModule::Current => DestModel::Current,
            RelocationModule::Main => DestModel::Main,
            RelocationModule::Autoload(k) => DestModel::Autoload(*k),
            RelocationModule::Overlay(id) => DestModel::Overlay(*id),
            RelocationModule::Any(ids) => DestModel::Any(ids@),
        }
    }
}

/// One typed relocation: the word at `site` refers to `target` (plus
/// `addend`) in module `destination`.
#[derive(Clone, Debug)]
pub struct Relocation {
    pub site: u32,
    pub target: u32,
    pub addend: i32,
    pub kind: RelocationKind,
    pub destination: RelocationModule,
    pub from_thumb: bool,
    pub to_thumb: bool,
}

/// Mathematical model of a relocation.
pub struct RelocModel {
    pub site: u32,
    pub target: u32,
    pub addend: i32,
    pub kind: RelocationKind,
    pub destination: DestModel,
    pub from_thumb: bool,
    pub to_thumb: bool,
}

impl View for Relocation {
    type V = RelocModel;

    open spec fn view(&self) -> RelocModel {
        RelocModel {
            site: self.site,
            target: self.target,
            addend: self.addend,
            kind: self.kind,
            destination: self.destination@,
            from_thumb: self.from_thumb,
            to_thumb: self.to_thumb,
        }
    }
}

impl Relocation {
    /// A call relocation: the branch at `site` reaches `target` in
    /// `destination`.
    pub fn new_call(
        site: u32,
        target: u32,
        destination: RelocationModule,
        from_thumb: bool,
        to_thumb: bool,
    ) -> (r: Relocation)
        ensures
            r@ == (RelocModel {
                site,
                target,
                addend: 0,
                kind: RelocationKind::Call,
                destination: destination@,
                from_thumb,
                to_thumb,
            }),
    {
        Relocation {
            site,
            target,
            addend: 0,
            kind: RelocationKind::Call,
            destination,
            from_thumb,
            to_thumb,
        }
    }

    /// A load relocation: the literal word at `site` holds `target` plus
    /// `addend` in `destination`.
    pub fn new_load(site: u32, target: u32, addend: i32, destination: RelocationModule) -> (r:
        Relocation)
        ensures
            r@ == (RelocModel {
                site,
                target,
                addend,
                kind: RelocationKind::Load,
                destination: destination@,
                from_thumb: false,
                to_thumb: false,
            }),
    {
        Relocation {
            site,
            target,
            addend,
            kind: RelocationKind::Load,
            destination,
            from_thumb: false,
            to_thumb: false,
        }
    }
}

/// Model of a load relocation destined for the current module, as the local
/// scanner emits them.
pub open spec fn local_load_model(site: u32, target: u32) -> RelocModel {
    RelocModel {
        site,
        target,
        addend: 0,
        kind: RelocationKind::Load,
        destination: DestModel::Current,
        from_thumb: false,
        to_thumb: false,
    }
}

/// An append-only list of relocations.
#[derive(Clone, Debug)]
pub struct Relocations {
    pub relocations: Vec<Relocation>,
}

impl View for Relocations {
    type V = Seq<RelocModel>;

    open spec fn view(&self) -> Seq<RelocModel> {
        self.relocations@.map_values(|r: Relocation| r@)
    }
}

impl Relocations {
    pub fn new() -> (r: Relocations)
        ensures
            r@ == Seq::<RelocModel>::empty(),
    {
        let r = Relocations { relocations: Vec::new() };
        proof {
            assert(r@ =~= Seq::<RelocModel>::empty());
        }
        r
    }

    /// Appends a load relocation destined for the current module.
    pub fn add_load(&mut self, site: u32, target: u32, addend: i32)
        ensures
            final(self)@ == old(self)@.push(
                RelocModel {
                    site,
                    target,
                    addend,
                    kind: RelocationKind::Load,
                    destination: DestModel::Current,
                    from_thumb: false,
                    to_thumb: false,
                },
            ),
    {
        let r = Relocation::new_load(site, target, addend, RelocationModule::Current);
        let ghost before = self.relocations@;
        self.relocations.push(r);
        proof {
            assert(self.relocations@.map_values(|x: Relocation| x@) =~= before.map_values(
                |x: Relocation| x@,
            ).push(r@));
        }
    }

    /// Appends an already-built relocation.
    pub fn push(&mut self, r: Relocation)
        ensures
            final(self)@ == old(self)@.push(r@),
    {
        let ghost before = self.relocations@;
        self.relocations.push(r);
        proof {
            assert(self.relocations@.map_values(|x: Relocation| x@) =~= before.map_values(
                |x: Relocation| x@,
            ).push(r@));
        }
    }
}

/// The relocation destination a module kind names, when it names one: an
/// unknown autoload region cannot.
pub open spec fn spec_kind_to_reloc(kind: ModuleKind) -> Result<DestModel, AnalysisError> {
    match kind {
        ModuleKind::Main => Ok(DestModel::Main),
        ModuleKind::Overlay(id) => Ok(DestModel::Overlay(id)),
        ModuleKind::Autoload(AutoloadKind::Itcm) => Ok(DestModel::Autoload(AutoloadKind::Itcm)),
        ModuleKind::Autoload(AutoloadKind::Dtcm) => Ok(DestModel::Autoload(AutoloadKind::Dtcm)),
        ModuleKind::Autoload(AutoloadKind::Unknown(v)) => Err(
            AnalysisError::UnknownModuleKind { value: v },
        ),
    }
}

pub open spec fn spec_all_overlays(kinds: Seq<ModuleKind>) -> bool {
    forall|i: int| 0 <= i < kinds.len() ==> (#[trigger] kinds[i]) is Overlay
}

pub open spec fn spec_overlay_ids(kinds: Seq<ModuleKind>) -> Seq<u16> {
    kinds.map_values(
        |k: ModuleKind|
            match k {
                ModuleKind::Overlay(id) => id,
                _ => 0u16,
            },
    )
}

/// Reduction of the candidate module kinds for a target address to one
/// destination: none means no destination; a single candidate names its own
/// kind; several overlays defer the choice; overlays mixed with non-overlays
/// are an analysis error.
pub open spec fn spec_reduce(kinds: Seq<ModuleKind>, target: u32) -> Result<
    DestModel,
    AnalysisError,
> {
    if kinds.len() == 0 {
        Ok(DestModel::NoDestination)
    } else if kinds.len() == 1 {
        spec_kind_to_reloc(kinds[0])
    } else if spec_all_overlays(kinds) {
        Ok(DestModel::Any(spec_overlay_ids(kinds)))
    } else {
        Err(AnalysisError::AmbiguousRelocation { target })
    }
}

/// The destination a single module kind names.
pub fn relocation_module_of_kind(kind: ModuleKind) -> (r: Result<RelocationModule, AnalysisError>)
    ensures
        match r {
            Ok(d) => spec_kind_to_reloc(kind) == Ok::<DestModel, AnalysisError>(d@),
            Err(e) => spec_kind_to_reloc(kind) == Err::<DestModel, AnalysisError>(e),
        },
{
    match kind {
        ModuleKind::Main => Ok(RelocationModule::Main),
        ModuleKind::Overlay(id) => Ok(RelocationModule::Overlay(id)),
        ModuleKind::Autoload(AutoloadKind::Itcm) => Ok(
            RelocationModule::Autoload(AutoloadKind::Itcm),
        ),
        ModuleKind::Autoload(AutoloadKind::Dtcm) => Ok(
            RelocationModule::Autoload(AutoloadKind::Dtcm),
        ),
        ModuleKind::Autoload(AutoloadKind::Unknown(v)) => Err(
            AnalysisError::UnknownModuleKind { value: v },
        ),
    }
}

impl RelocationModule {
    /// Reduces the kinds of the candidate modules for `target` to one
    /// destination, per the overlay-ambiguity rule.
    pub fn from_modules(kinds: &Vec<ModuleKind>, target: u32) -> (r: Result<
        RelocationModule,
        AnalysisError,
    >)
        ensures
            match r {
                Ok(d) => spec_reduce(kinds@, target) == Ok::<DestModel, AnalysisError>(d@),
                Err(e) => spec_reduce(kinds@, target) == Err::<DestModel, AnalysisError>(e),
            },
    {
        let n = kinds.len();
        if n == 0 {
            return Ok(RelocationModule::NoDestination);
        }
        if n == 1 {
            return relocation_module_of_kind(kinds[0]);
        }
        let mut ids: Vec<u16> = Vec::new();
        let mut i: usize = 0;
        while i < n
            invariant
                n == kinds@.len(),
                n >= 2,
                0 <= i <= n,
                forall|k: int| 0 <= k < i ==> (#[trigger] kinds@[k]) is Overlay,
                ids@ == spec_overlay_ids(kinds@.take(i as int)),
            decreases n - i,
        {
            match kinds[i] {
                ModuleKind::Overlay(id) => {
                    ids.push(id);
                    proof {
                        assert(kinds@.take(i + 1) =~= kinds@.take(i as int).push(kinds@[i as int]));
                        assert(spec_overlay_ids(kinds@.take(i + 1)) =~= spec_overlay_ids(
                            kinds@.take(i as int),
                        ).push(id));
                    }
                },
                _ => {
                    return Err(AnalysisError::AmbiguousRelocation { target });
                },
            }
            i = i + 1;
        }
        proof {
            assert(kinds@.take(n as int) =~= kinds@);
        }
        Ok(RelocationModule::Any(ids))
    }
}

} // verus!

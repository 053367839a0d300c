use vstd::prelude::*;

use crate::sections::Sections;

verus! {

/// The fixed tightly-coupled memory region an autoload is copied to at boot.
/// `Unknown` carries an unrecognized region tag from the ROM header.
#[derive(Clone, Copy, PartialEq, Eq, Structural, Debug)]
pub enum AutoloadKind {
    Itcm,
    Dtcm,
    Unknown(u32),
}

/// What kind of executable unit a module is. Overlays of the same processor
/// share a virtual address window; only one is resident at runtime.
#[derive(Clone, Copy, PartialEq, Eq, Structural, Debug)]
pub enum ModuleKind {
    Main,
    Autoload(AutoloadKind),
    Overlay(u16),
}

/// A named executable unit: its kind, the base virtual address of its linked
/// image, the image bytes, and its section map.
#[derive(Clone, Debug)]
pub struct Module {
    pub kind: ModuleKind,
    pub base_address: u32,
    pub code: Vec<u8>,
    pub sections: Sections,
}

impl Module {
    pub open spec fn wf(self) -> bool {
        self.sections.wf()
    }
}

/// All modules are well-formed and no two share a kind; overlays carry
/// distinct ids, so a kind identifies its module.
pub open spec fn modules_wf(modules: Seq<Module>) -> bool {
    &&& forall|i: int| 0 <= i < modules.len() ==> (#[trigger] modules[i]).wf()
    &&& forall|i: int, j: int|
        0 <= i < j < modules.len() ==> (#[trigger] modules[i].kind) != (#[trigger] modules[j].kind)
}

} // verus!

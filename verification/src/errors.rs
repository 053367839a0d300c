use vstd::prelude::*;

verus! {

/// Errors raised by section reading, symbol insertion and cross-reference
/// analysis. Fatal errors abort the analysis of the focus module; the caller
/// receives the first one raised.
#[derive(Clone, Copy, PartialEq, Eq, Structural, Debug)]
pub enum AnalysisError {
    /// A local call target lies inside this module but no known function
    /// covers it.
    DanglingCall { site: u32, target: u32 },
    /// An added symbol collides with an existing symbol of another kind at
    /// the same address.
    SymbolConflict { addr: u32 },
    /// The candidate modules for a target mix overlays with non-overlay
    /// modules.
    AmbiguousRelocation { target: u32 },
    /// A module kind with an unknown autoload region cannot name a
    /// relocation destination.
    UnknownModuleKind { value: u32 },
    /// A code or data section's byte range falls outside the module's
    /// code buffer.
    MissingSectionBytes { start: u32, end: u32 },
}

} // verus!

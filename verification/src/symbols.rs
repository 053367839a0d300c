use vstd::prelude::*;
use vstd::string::StringExecFns;

use crate::errors::AnalysisError;
use crate::names::{pointer_name, spec_hex8};

verus! {

/// Granularity recorded for a data symbol.
#[derive(Clone, Copy, PartialEq, Eq, Structural, Debug)]
pub enum SymDataKind {
    Any,
    Byte,
    Half,
    Word,
}

/// What a symbol map entry stands for.
#[derive(Clone, Copy, Debug)]
pub enum SymbolKind {
    /// A function found by disassembly.
    Function { thumb: bool, size: u32 },
    /// A branch target inside another function's body.
    ExternalLabel { thumb: bool },
    /// A data object.
    Data { kind: SymDataKind },
    /// An uninitialized object, of a size when one is known.
    Bss { size: Option<u32> },
}

/// One symbol map entry.
#[derive(Clone, Debug)]
pub struct Symbol {
    pub name: String,
    pub addr: u32,
    pub kind: SymbolKind,
}

/// Mathematical model of a symbol.
pub struct SymModel {
    pub name: Seq<char>,
    pub addr: u32,
    pub kind: SymbolKind,
}

impl View for Symbol {
    type V = SymModel;

    open spec fn view(&self) -> SymModel {
        SymModel { name: self.name@, addr: self.addr, kind: self.kind }
    }
}

pub open spec fn data_prefix() -> Seq<char> {
    seq!['d', 'a', 't', 'a', '_']
}

pub open spec fn label_prefix() -> Seq<char> {
    seq!['l', 'a', 'b', 'e', 'l', '_']
}

pub open spec fn sym_has_addr(syms: Seq<SymModel>, addr: u32) -> bool {
    exists|i: int| 0 <= i < syms.len() && (#[trigger] syms[i]).addr == addr
}

pub open spec fn sym_index_of(syms: Seq<SymModel>, addr: u32) -> int
    recommends
        sym_has_addr(syms, addr),
{
    choose|i: int| 0 <= i < syms.len() && (#[trigger] syms[i]).addr == addr
}

/// No two entries share an address.
pub open spec fn syms_wf(syms: Seq<SymModel>) -> bool {
    forall|i: int, j: int|
        0 <= i < j < syms.len() ==> (#[trigger] syms[i]).addr != (#[trigger] syms[j]).addr
}

pub open spec fn sym_has_function_at(syms: Seq<SymModel>, addr: u32) -> bool {
    exists|i: int|
        0 <= i < syms.len() && (#[trigger] syms[i]).addr == addr && syms[i].kind is Function
}

/// One past the last address a function symbol covers; zero-width for other
/// symbols.
pub open spec fn sym_fun_end(s: SymModel) -> int {
    s.addr + (match s.kind {
        SymbolKind::Function { size, .. } => size,
        _ => 0u32,
    })
}

/// Whether `addr` lies inside the body `[start, start + size)` of a function
/// symbol.
pub open spec fn sym_contains(s: SymModel, addr: u32) -> bool {
    s.kind is Function && s.addr <= addr < sym_fun_end(s)
}

pub open spec fn sym_has_containing(syms: Seq<SymModel>, addr: u32) -> bool {
    exists|i: int| 0 <= i < syms.len() && sym_contains(#[trigger] syms[i], addr)
}

pub open spec fn sym_containing_index(syms: Seq<SymModel>, addr: u32) -> int
    recommends
        sym_has_containing(syms, addr),
{
    choose|i: int| 0 <= i < syms.len() && sym_contains(#[trigger] syms[i], addr)
}

/// Function symbols cover pairwise disjoint address ranges.
pub open spec fn sym_functions_disjoint(syms: Seq<SymModel>) -> bool {
    forall|i: int, j: int|
        0 <= i < j < syms.len() && (#[trigger] syms[i]).kind is Function && (#[trigger] syms[j]).kind
            is Function ==> sym_fun_end(syms[i]) <= syms[j].addr || sym_fun_end(syms[j])
            <= syms[i].addr
}

/// When function symbols are disjoint, at most one contains any address.
pub proof fn lemma_containing_unique(syms: Seq<SymModel>, addr: u32, i: int, j: int)
    requires
        sym_functions_disjoint(syms),
        0 <= i < syms.len(),
        0 <= j < syms.len(),
        sym_contains(syms[i], addr),
        sym_contains(syms[j], addr),
    ensures
        i == j,
{
}

/// Result of adding a data symbol at `addr`: a no-op when a data symbol of
/// the same granularity is already there, a conflict when any other symbol
/// is, an appended entry otherwise.
pub open spec fn spec_add_data(
    syms: Seq<SymModel>,
    name: Seq<char>,
    addr: u32,
    kind: SymDataKind,
) -> Result<Seq<SymModel>, AnalysisError> {
    if sym_has_addr(syms, addr) {
        match syms[sym_index_of(syms, addr)].kind {
            SymbolKind::Data { kind: k } => if k == kind {
                Ok(syms)
            } else {
                Err(AnalysisError::SymbolConflict { addr })
            },
            _ => Err(AnalysisError::SymbolConflict { addr }),
        }
    } else {
        Ok(syms.push(SymModel { name, addr, kind: SymbolKind::Data { kind } }))
    }
}

/// Result of adding a bss symbol at `addr`, with the same idempotence rule.
pub open spec fn spec_add_bss(
    syms: Seq<SymModel>,
    name: Seq<char>,
    addr: u32,
    size: Option<u32>,
) -> Result<Seq<SymModel>, AnalysisError> {
    if sym_has_addr(syms, addr) {
        match syms[sym_index_of(syms, addr)].kind {
            SymbolKind::Bss { size: s } => if s == size {
                Ok(syms)
            } else {
                Err(AnalysisError::SymbolConflict { addr })
            },
            _ => Err(AnalysisError::SymbolConflict { addr }),
        }
    } else {
        Ok(syms.push(SymModel { name, addr, kind: SymbolKind::Bss { size } }))
    }
}

/// Result of recording an external label at `addr`: a no-op at a
/// function-start address or for an identical existing label; a conflict
/// when any other symbol owns the address or an existing label disagrees in
/// its Thumb flag; an appended label otherwise.
pub open spec fn spec_add_label(syms: Seq<SymModel>, addr: u32, thumb: bool) -> Result<
    Seq<SymModel>,
    AnalysisError,
> {
    if sym_has_addr(syms, addr) {
        match syms[sym_index_of(syms, addr)].kind {
            SymbolKind::Function { .. } => Ok(syms),
            SymbolKind::ExternalLabel { thumb: t } => if t == thumb {
                Ok(syms)
            } else {
                Err(AnalysisError::SymbolConflict { addr })
            },
            _ => Err(AnalysisError::SymbolConflict { addr }),
        }
    } else {
        Ok(
            syms.push(
                SymModel {
                    name: label_prefix() + spec_hex8(addr),
                    addr,
                    kind: SymbolKind::ExternalLabel { thumb },
                },
            ),
        )
    }
}

/// The default name of a data or bss symbol promoted at `addr`.
pub open spec fn spec_data_name(name: Option<String>, addr: u32) -> Seq<char> {
    match name {
        Some(n) => n@,
        None => data_prefix() + spec_hex8(addr),
    }
}

/// One module's symbol map: a mutable mapping from address to symbol record.
#[derive(Clone, Debug)]
pub struct SymbolMap {
    pub symbols: Vec<Symbol>,
}

impl View for SymbolMap {
    type V = Seq<SymModel>;

    open spec fn view(&self) -> Seq<SymModel> {
        self.symbols@.map_values(|s: Symbol| s@)
    }
}

impl SymbolMap {
    pub fn new() -> (r: SymbolMap)
        ensures
            r@ == Seq::<SymModel>::empty(),
    {
        let r = SymbolMap { symbols: Vec::new() };
        proof {
            assert(r@ =~= Seq::<SymModel>::empty());
        }
        r
    }

    /// Index of the entry at exactly `addr`, if one exists.
    fn find_index(&self, addr: u32) -> (r: Option<usize>)
        ensures
            r matches Some(i) ==> i < self@.len() && self@[i as int].addr == addr,
            r is None <==> !sym_has_addr(self@, addr),
    {
        let n = self.symbols.len();
        let mut i: usize = 0;
        while i < n
            invariant
                n == self.symbols@.len(),
                self@.len() == n,
                0 <= i <= n,
                forall|k: int| 0 <= k < i ==> (#[trigger] self@[k]).addr != addr,
            decreases n - i,
        {
            if self.symbols[i].addr == addr {
                return Some(i);
            }
            i = i + 1;
        }
        None
    }

    /// The function symbol starting exactly at `addr`, given with the low
    /// bit already cleared by the caller.
    pub fn get_function(&self, addr: u32) -> (r: Option<usize>)
        ensures
            r matches Some(i) ==> i < self@.len() && self@[i as int].addr == addr && self@[
                i as int
            ].kind is Function,
            r is Some <==> sym_has_function_at(self@, addr),
    {
        let n = self.symbols.len();
        let mut i: usize = 0;
        while i < n
            invariant
                n == self.symbols@.len(),
                self@.len() == n,
                0 <= i <= n,
                forall|k: int|
                    0 <= k < i ==> !((#[trigger] self@[k]).addr == addr && self@[k].kind
                        is Function),
            decreases n - i,
        {
            if self.symbols[i].addr == addr && matches!(self.symbols[i].kind, SymbolKind::Function { .. }) {
                return Some(i);
            }
            i = i + 1;
        }
        None
    }

    /// The function symbol whose body `[start, start + size)` contains
    /// `addr`, if one does.
    pub fn get_function_containing(&self, addr: u32) -> (r: Option<usize>)
        ensures
            r matches Some(i) ==> i < self@.len() && sym_contains(self@[i as int], addr),
            r is Some <==> sym_has_containing(self@, addr),
    {
        let n = self.symbols.len();
        let mut i: usize = 0;
        while i < n
            invariant
                n == self.symbols@.len(),
                self@.len() == n,
                0 <= i <= n,
                forall|k: int| 0 <= k < i ==> !sym_contains(#[trigger] self@[k], addr),
            decreases n - i,
        {
            let sym = &self.symbols[i];
            match sym.kind {
                SymbolKind::Function { size, .. } => {
                    if sym.addr <= addr && (addr as u64) < (sym.addr as u64) + (size as u64) {
                        return Some(i);
                    }
                },
                _ => {},
            }
            proof {
                assert(!sym_contains(self@[i as int], addr));
            }
            i = i + 1;
        }
        None
    }

    /// Adds a function symbol; fails when the address is taken.
    pub fn add_function(&mut self, name: String, addr: u32, thumb: bool, size: u32) -> (r: Result<
        (),
        AnalysisError,
    >)
        ensures
            match r {
                Ok(()) => !sym_has_addr(old(self)@, addr) && final(self)@ == old(self)@.push(
                    SymModel { name: name@, addr, kind: SymbolKind::Function { thumb, size } },
                ),
                Err(e) => sym_has_addr(old(self)@, addr) && final(self)@ == old(self)@ && e
                    == (AnalysisError::SymbolConflict { addr }),
            },
    {
        match self.find_index(addr) {
            Some(_) => Err(AnalysisError::SymbolConflict { addr }),
            None => {
                let ghost before = self.symbols@;
                let sym = Symbol { name, addr, kind: SymbolKind::Function { thumb, size } };
                let ghost symv = sym@;
                self.symbols.push(sym);
                proof {
                    assert(self.symbols@.map_values(|s: Symbol| s@) =~= before.map_values(
                        |s: Symbol| s@,
                    ).push(symv));
                }
                Ok(())
            },
        }
    }

    /// Adds a data symbol at `addr`; idempotent for an existing data symbol
    /// of the same granularity, a conflict for any other existing symbol.
    /// An omitted name defaults to the address under the `data_` prefix.
    pub fn add_data(&mut self, name: Option<String>, addr: u32, kind: SymDataKind) -> (r: Result<
        (),
        AnalysisError,
    >)
        requires
            syms_wf(old(self)@),
        ensures
            match r {
                Ok(()) => spec_add_data(old(self)@, spec_data_name(name, addr), addr, kind)
                    == Ok::<Seq<SymModel>, AnalysisError>(final(self)@),
                Err(e) => spec_add_data(old(self)@, spec_data_name(name, addr), addr, kind)
                    == Err::<Seq<SymModel>, AnalysisError>(e) && final(self)@ == old(self)@,
            },
            syms_wf(final(self)@),
            sym_functions_disjoint(old(self)@) ==> sym_functions_disjoint(final(self)@),
            old(self)@.len() <= final(self)@.len() && final(self)@.take(old(self)@.len() as int)
                == old(self)@,
            forall|k: int|
                old(self)@.len() <= k < final(self)@.len() ==> (#[trigger] final(self)@[k]).addr
                    == addr,
    {
        let ghost before = self@;
        match self.find_index(addr) {
            Some(i) => {
                proof {
                    let j = sym_index_of(before, addr);
                    assert(0 <= j < before.len() && before[j].addr == addr);
                    if i as int != j {
                        assert(before[i as int].addr != before[j].addr);
                    }
                    assert(before.take(before.len() as int) =~= before);
                }
                match self.symbols[i].kind {
                    SymbolKind::Data { kind: k } => {
                        if k == kind {
                            Ok(())
                        } else {
                            Err(AnalysisError::SymbolConflict { addr })
                        }
                    },
                    _ => Err(AnalysisError::SymbolConflict { addr }),
                }
            },
            None => {
                let name_s = match name {
                    Some(n) => n,
                    None => pointer_name("data_", addr),
                };
                proof {
                    reveal_strlit("data_");
                    assert("data_"@ =~= data_prefix());
                    assert(name_s@ == spec_data_name(name, addr));
                }
                let sym = Symbol { name: name_s, addr, kind: SymbolKind::Data { kind } };
                let ghost symv = sym@;
                let ghost vecbefore = self.symbols@;
                self.symbols.push(sym);
                proof {
                    assert(self.symbols@.map_values(|s: Symbol| s@) =~= vecbefore.map_values(
                        |s: Symbol| s@,
                    ).push(symv));
                    assert(final(self)@.take(before.len() as int) =~= before);
                }
                Ok(())
            },
        }
    }

    /// Adds a bss symbol at `addr`, with the same idempotence rule as
    /// `add_data`.
    pub fn add_bss(&mut self, name: Option<String>, addr: u32, size: Option<u32>) -> (r: Result<
        (),
        AnalysisError,
    >)
        requires
            syms_wf(old(self)@),
        ensures
            match r {
                Ok(()) => spec_add_bss(old(self)@, spec_data_name(name, addr), addr, size)
                    == Ok::<Seq<SymModel>, AnalysisError>(final(self)@),
                Err(e) => spec_add_bss(old(self)@, spec_data_name(name, addr), addr, size)
                    == Err::<Seq<SymModel>, AnalysisError>(e) && final(self)@ == old(self)@,
            },
            syms_wf(final(self)@),
            sym_functions_disjoint(old(self)@) ==> sym_functions_disjoint(final(self)@),
            old(self)@.len() <= final(self)@.len() && final(self)@.take(old(self)@.len() as int)
                == old(self)@,
            forall|k: int|
                old(self)@.len() <= k < final(self)@.len() ==> (#[trigger] final(self)@[k]).addr
                    == addr,
    {
        let ghost before = self@;
        match self.find_index(addr) {
            Some(i) => {
                proof {
                    let j = sym_index_of(before, addr);
                    assert(0 <= j < before.len() && before[j].addr == addr);
                    if i as int != j {
                        assert(before[i as int].addr != before[j].addr);
                    }
                    assert(before.take(before.len() as int) =~= before);
                }
                let matched: bool = match self.symbols[i].kind {
                    SymbolKind::Bss { size: s } => {
                        match (s, size) {
                            (Option::None, Option::None) => true,
                            (Option::Some(a), Option::Some(b)) => a == b,
                            _ => false,
                        }
                    },
                    _ => false,
                };
                if matched {
                    Ok(())
                } else {
                    Err(AnalysisError::SymbolConflict { addr })
                }
            },
            None => {
                let name_s = match name {
                    Some(n) => n,
                    None => pointer_name("data_", addr),
                };
                proof {
                    reveal_strlit("data_");
                    assert("data_"@ =~= data_prefix());
                    assert(name_s@ == spec_data_name(name, addr));
                }
                let sym = Symbol { name: name_s, addr, kind: SymbolKind::Bss { size } };
                let ghost symv = sym@;
                let ghost vecbefore = self.symbols@;
                self.symbols.push(sym);
                proof {
                    assert(self.symbols@.map_values(|s: Symbol| s@) =~= vecbefore.map_values(
                        |s: Symbol| s@,
                    ).push(symv));
                    assert(final(self)@.take(before.len() as int) =~= before);
                }
                Ok(())
            },
        }
    }

    /// Records a branch target inside another function's body. A no-op at a
    /// function-start address or for an identical existing label; any other
    /// existing symbol at the address is a conflict.
    pub fn add_external_label(&mut self, addr: u32, thumb: bool) -> (r: Result<(), AnalysisError>)
        requires
            syms_wf(old(self)@),
        ensures
            match r {
                Ok(()) => spec_add_label(old(self)@, addr, thumb) == Ok::<
                    Seq<SymModel>,
                    AnalysisError,
                >(final(self)@),
                Err(e) => spec_add_label(old(self)@, addr, thumb) == Err::<
                    Seq<SymModel>,
                    AnalysisError,
                >(e) && final(self)@ == old(self)@,
            },
            syms_wf(final(self)@),
            sym_functions_disjoint(old(self)@) ==> sym_functions_disjoint(final(self)@),
            old(self)@.len() <= final(self)@.len() && final(self)@.take(old(self)@.len() as int)
                == old(self)@,
            forall|k: int|
                old(self)@.len() <= k < final(self)@.len() ==> (#[trigger] final(self)@[k]).addr
                    == addr,
    {
        let ghost before = self@;
        match self.find_index(addr) {
            Some(i) => {
                proof {
                    let j = sym_index_of(before, addr);
                    assert(0 <= j < before.len() && before[j].addr == addr);
                    if i as int != j {
                        assert(before[i as int].addr != before[j].addr);
                    }
                    assert(before.take(before.len() as int) =~= before);
                }
                match self.symbols[i].kind {
                    SymbolKind::Function { .. } => Ok(()),
                    SymbolKind::ExternalLabel { thumb: t } => {
                        if t == thumb {
                            Ok(())
                        } else {
                            Err(AnalysisError::SymbolConflict { addr })
                        }
                    },
                    _ => Err(AnalysisError::SymbolConflict { addr }),
                }
            },
            None => {
                let name_s = pointer_name("label_", addr);
                proof {
                    reveal_strlit("label_");
                    assert("label_"@ =~= label_prefix());
                }
                let sym = Symbol { name: name_s, addr, kind: SymbolKind::ExternalLabel { thumb } };
                let ghost symv = sym@;
                let ghost vecbefore = self.symbols@;
                self.symbols.push(sym);
                proof {
                    assert(self.symbols@.map_values(|s: Symbol| s@) =~= vecbefore.map_values(
                        |s: Symbol| s@,
                    ).push(symv));
                    assert(final(self)@.take(before.len() as int) =~= before);
                }
                Ok(())
            },
        }
    }
}

/// The symbol maps of all modules, indexed like the module list.
#[derive(Clone, Debug)]
pub struct SymbolMaps {
    pub maps: Vec<SymbolMap>,
}

impl View for SymbolMaps {
    type V = Seq<Seq<SymModel>>;

    open spec fn view(&self) -> Seq<Seq<SymModel>> {
        self.maps@.map_values(|m: SymbolMap| m@)
    }
}

impl SymbolMaps {
    pub fn new() -> (r: SymbolMaps)
        ensures
            r@ == Seq::<Seq<SymModel>>::empty(),
    {
        let r = SymbolMaps { maps: Vec::new() };
        proof {
            assert(r@ =~= Seq::<Seq<SymModel>>::empty());
        }
        r
    }

    pub fn push(&mut self, m: SymbolMap)
        ensures
            final(self)@ == old(self)@.push(m@),
    {
        let ghost before = self.maps@;
        let ghost mv = m@;
        self.maps.push(m);
        proof {
            assert(self.maps@.map_values(|x: SymbolMap| x@) =~= before.map_values(
                |x: SymbolMap| x@,
            ).push(mv));
        }
    }

    pub fn len(&self) -> (r: usize)
        ensures
            r == self@.len(),
    {
        self.maps.len()
    }

    /// The function symbol of module `index` whose body contains `addr`.
    pub fn get_function_containing(&self, index: usize, addr: u32) -> (r: Option<usize>)
        requires
            index < self@.len(),
        ensures
            r matches Some(i) ==> i < self@[index as int].len() && sym_contains(
                self@[index as int][i as int],
                addr,
            ),
            r is Some <==> sym_has_containing(self@[index as int], addr),
    {
        self.maps[index].get_function_containing(addr)
    }

    /// The address of symbol `i` of module `index`.
    pub fn symbol_addr(&self, index: usize, i: usize) -> (r: u32)
        requires
            index < self@.len(),
            i < self@[index as int].len(),
        ensures
            r == self@[index as int][i as int].addr,
    {
        self.maps[index].symbols[i].addr
    }

    /// Records an external label in the symbol map of module `index`.
    pub fn add_external_label(&mut self, index: usize, addr: u32, thumb: bool) -> (r: Result<
        (),
        AnalysisError,
    >)
        requires
            index < old(self)@.len(),
            syms_wf(old(self)@[index as int]),
        ensures
            final(self)@.len() == old(self)@.len(),
            forall|j: int|
                0 <= j < old(self)@.len() && j != index as int ==> final(self)@[j] == old(self)@[j],
            match r {
                Ok(()) => spec_add_label(old(self)@[index as int], addr, thumb) == Ok::<
                    Seq<SymModel>,
                    AnalysisError,
                >(final(self)@[index as int]),
                Err(e) => spec_add_label(old(self)@[index as int], addr, thumb) == Err::<
                    Seq<SymModel>,
                    AnalysisError,
                >(e) && final(self)@ == old(self)@,
            },
            syms_wf(final(self)@[index as int]),
            sym_functions_disjoint(old(self)@[index as int]) ==> sym_functions_disjoint(
                final(self)@[index as int],
            ),
    {
        let ghost before = self.maps@;
        let r = SymbolMap::add_external_label(&mut self.maps[index], addr, thumb);
        proof {
            assert(self.maps@.map_values(|x: SymbolMap| x@) =~= before.map_values(
                |x: SymbolMap| x@,
            ).update(index as int, self.maps@[index as int]@));
            if r is Err {
                assert(self.maps@.map_values(|x: SymbolMap| x@) =~= before.map_values(
                    |x: SymbolMap| x@,
                ));
            }
        }
        r
    }
}

} // verus!

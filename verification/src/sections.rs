use vstd::prelude::*;

use crate::errors::AnalysisError;

verus! {

/// Kind of a section within a module image.
#[derive(Clone, Copy, PartialEq, Eq, Structural, Debug)]
pub enum SectionKind {
    Code,
    Data,
    Bss,
}

/// A 32-bit aligned word read from a section, with its virtual address.
#[derive(Clone, Copy, PartialEq, Eq, Structural, Debug)]
pub struct Word {
    pub address: u32,
    pub value: u32,
}

/// A function call site found by disassembly. `target` carries the branch
/// destination with the low bit already cleared; `thumb` tells whether the
/// callee is expected to run in Thumb state.
#[derive(Clone, Copy, PartialEq, Eq, Structural, Debug)]
pub struct CallSite {
    pub address: u32,
    pub target: u32,
    pub thumb: bool,
    pub conditional: bool,
}

/// A literal pool constant found by disassembly: a 32-bit word embedded in a
/// code section at `address`, holding `value`.
#[derive(Clone, Copy, PartialEq, Eq, Structural, Debug)]
pub struct PoolConstant {
    pub address: u32,
    pub value: u32,
}

/// A function found by disassembly: its address range, instruction encoding,
/// call sites and pool constants.
#[derive(Clone, Debug)]
pub struct Function {
    pub start: u32,
    pub end: u32,
    pub thumb: bool,
    pub calls: Vec<CallSite>,
    pub pools: Vec<PoolConstant>,
}

impl Function {
    pub open spec fn wf(self) -> bool {
        self.start <= self.end
    }
}

/// Reads the little-endian 32-bit word at byte offset `off` of `code`.
pub open spec fn le_word(code: Seq<u8>, off: int) -> u32
    recommends
        0 <= off,
        off + 4 <= code.len(),
{
    (code[off] + code[off + 1] * 0x100 + code[off + 2] * 0x10000 + code[off + 3] * 0x1000000) as u32
}

/// A section: a half-open address range `[start, end)` of one kind, and, for
/// code sections, the functions that disassembly found inside it.
#[derive(Clone, Debug)]
pub struct Section {
    pub kind: SectionKind,
    pub start: u32,
    pub end: u32,
    pub functions: Vec<Function>,
}

impl Section {
    pub open spec fn contains(self, addr: u32) -> bool {
        self.start <= addr < self.end
    }

    pub open spec fn wf(self) -> bool {
        &&& self.start <= self.end
        &&& forall|i: int|
            0 <= i < self.functions@.len() ==> (#[trigger] self.functions@[i]).wf()
                && self.contains(self.functions@[i].start)
        &&& forall|i: int, j: int|
            0 <= i < j < self.functions@.len() ==> (#[trigger] self.functions@[i].start)
                != (#[trigger] self.functions@[j].start)
        &&& self.kind != SectionKind::Code ==> self.functions@.len() == 0
    }

    /// Whether a function of this section starts exactly at `start`.
    pub open spec fn spec_has_function_at(self, start: u32) -> bool {
        exists|i: int|
            0 <= i < self.functions@.len() && (#[trigger] self.functions@[i]).start == start
    }

    pub open spec fn spec_function_at(self, start: u32) -> Function
        recommends
            self.spec_has_function_at(start),
    {
        self.functions@[choose|i: int|
            0 <= i < self.functions@.len() && (#[trigger] self.functions@[i]).start == start]
    }

    /// Looks up the function that starts exactly at `start`.
    pub fn get_function(&self, start: u32) -> (r: Option<&Function>)
        requires
            self.wf(),
        ensures
            r matches Some(f) ==> *f == self.spec_function_at(start) && f.start == start,
            r is Some <==> self.spec_has_function_at(start),
    {
        let n = self.functions.len();
        let mut i: usize = 0;
        while i < n
            invariant
                self.wf(),
                n == self.functions@.len(),
                0 <= i <= n,
                forall|k: int| 0 <= k < i ==> (#[trigger] self.functions@[k]).start != start,
            decreases n - i,
        {
            if self.functions[i].start == start {
                proof {
                    let j = choose|j: int|
                        0 <= j < self.functions@.len() && (#[trigger] self.functions@[j]).start
                            == start;
                    if j != i {
                        assert(self.functions@[j].start != self.functions@[i as int].start);
                    }
                }
                return Some(&self.functions[i]);
            }
            i = i + 1;
        }
        None
    }

    /// Number of whole 32-bit words in this section's address range.
    pub open spec fn spec_word_count(self) -> int {
        (self.end - self.start) / 4
    }

    /// Whether the section's byte range lies inside a code buffer of
    /// `code_len` bytes that starts at virtual address `base`. Bss sections
    /// have no backing bytes and need none.
    pub open spec fn bytes_ok(self, code_len: int, base: u32) -> bool {
        self.kind == SectionKind::Bss || (base <= self.start && self.end - base <= code_len)
    }

    /// The aligned words of this section, read little-endian from the module
    /// bytes `code` that start at virtual address `base`. Empty for Bss.
    pub open spec fn spec_words(self, code: Seq<u8>, base: u32) -> Seq<Word> {
        if self.kind == SectionKind::Bss {
            Seq::empty()
        } else {
            Seq::new(
                self.spec_word_count() as nat,
                |i: int|
                    Word {
                        address: (self.start + 4 * i) as u32,
                        value: le_word(code, self.start - base + 4 * i),
                    },
            )
        }
    }

    /// Reads every 4-byte aligned word of the section, little-endian, from
    /// the module's code buffer. Word addresses ascend strictly by 4 and
    /// never reach past the section end; a trailing fragment shorter than a
    /// word is not read. Bss sections yield no words.
    pub fn iter_words(&self, code: &[u8], base: u32) -> (r: Result<Vec<Word>, AnalysisError>)
        requires
            self.wf(),
        ensures
            r matches Ok(ws) ==> ws@ == self.spec_words(code@, base) && self.bytes_ok(
                code@.len() as int,
                base,
            ),
            r matches Err(e) ==> !self.bytes_ok(code@.len() as int, base) && e
                == (AnalysisError::MissingSectionBytes { start: self.start, end: self.end }),
    {
        let mut words: Vec<Word> = Vec::new();
        if matches!(self.kind, SectionKind::Bss) {
            return Ok(words);
        }
        if self.start < base || (self.end - base) as usize > code.len() {
            return Err(AnalysisError::MissingSectionBytes { start: self.start, end: self.end });
        }
        let n: u32 = (self.end - self.start) / 4;
        proof {
            assert(4 * ((self.end - self.start) as int / 4) <= self.end - self.start) by (nonlinear_arith);
        }
        let mut i: u32 = 0;
        while i < n
            invariant
                self.wf(),
                self.kind != SectionKind::Bss,
                base <= self.start,
                self.end - base <= code@.len(),
                n == self.spec_word_count(),
                4 * (n as int) <= self.end - self.start,
                0 <= i <= n,
                words@ == self.spec_words(code@, base).take(i as int),
            decreases n - i,
        {
            let off: usize = ((self.start - base) + 4 * i) as usize;
            let value: u32 = (code[off] as u32) + (code[off + 1] as u32) * 0x100 + (code[off + 2]
                as u32) * 0x10000 + (code[off + 3] as u32) * 0x1000000;
            let word = Word { address: self.start + 4 * i, value };
            words.push(word);
            proof {
                let ws = self.spec_words(code@, base);
                assert(ws[i as int] == word);
                assert(ws.take(i + 1) =~= ws.take(i as int).push(word));
            }
            i = i + 1;
        }
        proof {
            assert(self.spec_words(code@, base).take(n as int) =~= self.spec_words(code@, base));
        }
        Ok(words)
    }
}

pub open spec fn sections_disjoint(a: Section, b: Section) -> bool {
    a.end <= b.start || b.end <= a.start
}

/// The ordered collection of one module's sections. Well-formed collections
/// hold pairwise disjoint address ranges.
#[derive(Clone, Debug)]
pub struct Sections {
    pub sections: Vec<Section>,
}

impl Sections {
    pub open spec fn wf(self) -> bool {
        &&& forall|i: int| 0 <= i < self.sections@.len() ==> (#[trigger] self.sections@[i]).wf()
        &&& forall|i: int, j: int|
            0 <= i < j < self.sections@.len() ==> sections_disjoint(
                #[trigger] self.sections@[i],
                #[trigger] self.sections@[j],
            )
    }

    /// Whether some section of the module contains `addr`.
    pub open spec fn spec_contains_addr(self, addr: u32) -> bool {
        exists|i: int|
            0 <= i < self.sections@.len() && (#[trigger] self.sections@[i]).contains(addr)
    }

    /// Index of the section containing `addr`; unique in a well-formed
    /// collection.
    pub open spec fn spec_index_of(self, addr: u32) -> int
        recommends
            self.spec_contains_addr(addr),
    {
        choose|i: int|
            0 <= i < self.sections@.len() && (#[trigger] self.sections@[i]).contains(addr)
    }

    /// In a well-formed collection at most one section contains any address.
    pub proof fn lemma_index_unique(self, addr: u32, i: int, j: int)
        requires
            self.wf(),
            0 <= i < self.sections@.len(),
            0 <= j < self.sections@.len(),
            self.sections@[i].contains(addr),
            self.sections@[j].contains(addr),
        ensures
            i == j,
    {
        if i < j {
            assert(sections_disjoint(self.sections@[i], self.sections@[j]));
        } else if j < i {
            assert(sections_disjoint(self.sections@[j], self.sections@[i]));
        }
    }

    /// Returns the index of the section whose half-open range contains
    /// `addr`, or `None` when no section does.
    pub fn get_by_contained_address(&self, addr: u32) -> (r: Option<usize>)
        requires
            self.wf(),
        ensures
            r matches Some(i) ==> i < self.sections@.len() && self.sections@[i as int].contains(
                addr,
            ) && i as int == self.spec_index_of(addr),
            r is None <==> !self.spec_contains_addr(addr),
    {
        let n = self.sections.len();
        let mut i: usize = 0;
        while i < n
            invariant
                self.wf(),
                n == self.sections@.len(),
                0 <= i <= n,
                forall|k: int| 0 <= k < i ==> !(#[trigger] self.sections@[k]).contains(addr),
            decreases n - i,
        {
            let sec = &self.sections[i];
            if sec.start <= addr && addr < sec.end {
                proof {
                    let j = self.spec_index_of(addr);
                    self.lemma_index_unique(addr, i as int, j);
                }
                return Some(i);
            }
            i = i + 1;
        }
        None
    }
}

/// Any two sections of a well-formed section collection cover disjoint
/// address ranges: no address lies in both.
pub proof fn lemma_disjoint_sections(ss: Sections, i: int, j: int, addr: u32)
    requires
        ss.wf(),
        0 <= i < ss.sections@.len(),
        0 <= j < ss.sections@.len(),
        i != j,
        ss.sections@[i].contains(addr),
    ensures
        !ss.sections@[j].contains(addr),
        sections_disjoint(ss.sections@[i], ss.sections@[j]),
{
    if i < j {
        assert(sections_disjoint(ss.sections@[i], ss.sections@[j]));
    } else {
        assert(sections_disjoint(ss.sections@[j], ss.sections@[i]));
    }
}

} // verus!

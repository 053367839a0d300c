use vstd::prelude::*;

use crate::errors::AnalysisError;
use crate::modules::AutoloadKind;
use crate::names::{hex16_string, spec_hex16};

verus! {

/// The digest that `fxhash::hash64` computes over a byte string; it depends
/// on the bytes alone.
pub uninterp spec fn fxhash64_of(bytes: Seq<u8>) -> u64;

/// Relies on fxhash::hash64: a 64-bit digest of the bytes, a pure function
/// of its input.
#[verifier::external_body]
fn hash64(bytes: &[u8]) -> (r: u64)
    ensures
        r == fxhash64_of(bytes@),
{
    fxhash::hash64(bytes)
}

/// The 64-bit digest of a module's code, as sixteen lowercase hex digits.
pub fn code_hash_string(code: &[u8]) -> (r: String)
    ensures
        r@ == spec_hex16(fxhash64_of(code@)),
{
    let h = hash64(code);
    hex16_string(h)
}

/// Per-module configuration written for one analyzed module: where its
/// binary, delinks, symbols and relocations files live, and the hash of the
/// binary.
#[derive(Clone, Debug)]
pub struct ConfigModule {
    pub name: String,
    pub object: String,
    pub hash: String,
    pub delinks: String,
    pub symbols: String,
    pub relocations: String,
}

/// Configuration for one overlay module.
#[derive(Clone, Debug)]
pub struct ConfigOverlay {
    pub module: ConfigModule,
    pub id: u16,
}

/// Configuration for one autoload module.
#[derive(Clone, Debug)]
pub struct ConfigAutoload {
    pub module: ConfigModule,
    pub kind: AutoloadKind,
}

/// The whole generated configuration: the main module plus its overlays and
/// autoloads.
#[derive(Clone, Debug)]
pub struct Config {
    pub rom_config: String,
    pub build_path: String,
    pub delinks_path: String,
    pub main_module: ConfigModule,
    pub autoloads: Vec<ConfigAutoload>,
    pub overlays: Vec<ConfigOverlay>,
}

/// Builds the per-module configuration record, hashing the module's code.
pub fn make_config_module(
    name: String,
    object: String,
    code: &[u8],
    delinks: String,
    symbols: String,
    relocations: String,
) -> (r: ConfigModule)
    ensures
        r.name == name,
        r.object == object,
        r.hash@ == spec_hex16(fxhash64_of(code@)),
        r.delinks == delinks,
        r.symbols == symbols,
        r.relocations == relocations,
{
    let hash = code_hash_string(code);
    ConfigModule { name, object, hash, delinks, symbols, relocations }
}

/// The directory name an autoload's files are written under; an unknown
/// autoload region is an error.
pub fn autoload_name(kind: AutoloadKind) -> (r: Result<&'static str, AnalysisError>)
    ensures
        match r {
            Ok(s) => (kind == AutoloadKind::Itcm ==> s@ =~= seq!['i', 't', 'c', 'm']) && (kind
                == AutoloadKind::Dtcm ==> s@ =~= seq!['d', 't', 'c', 'm']) && (kind is Itcm || kind
                is Dtcm),
            Err(e) => kind is Unknown && e == (AnalysisError::UnknownModuleKind {
                value: kind->Unknown_0,
            }),
        },
{
    proof {
        reveal_strlit("itcm");
        reveal_strlit("dtcm");
    }
    match kind {
        AutoloadKind::Itcm => Ok("itcm"),
        AutoloadKind::Dtcm => Ok("dtcm"),
        AutoloadKind::Unknown(v) => Err(AnalysisError::UnknownModuleKind { value: v }),
    }
}

} // verus!

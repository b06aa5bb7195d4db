//! Which address to trace, from what the command line gives.
use vstd::prelude::*;

verus! {

/// Where the function to trace is.
pub enum Target {
    /// At this address.
    Address(usize),
    /// This far into a module that is still to be found.
    InModule { module: String, rva: u32 },
}

/// Picks the target. An address wins over a module; a module needs an offset.
pub fn choose_target(
    addr: Option<usize>,
    module: Option<String>,
    rva: Option<u32>,
) -> (target: Result<Target, String>)
    ensures
        addr matches Some(a) ==> target is Ok && target->Ok_0 == Target::Address(a),
        addr is None && module is None ==> target is Err && target->Err_0@
            == "--addr or --module+--rva required"@,
        addr is None && module is Some && rva is None ==> target is Err && target->Err_0@
            == "--rva required with --module"@,
        addr is None && module is Some && rva is Some ==> target is Ok && (target->Ok_0
            == Target::InModule { module: module->0, rva: rva->0 }),
{
    match addr {
        Some(a) => Ok(Target::Address(a)),
        None => match module {
            None => Err("--addr or --module+--rva required".to_owned()),
            Some(module) => match rva {
                None => Err("--rva required with --module".to_owned()),
                Some(rva) => Ok(Target::InModule { module, rva }),
            },
        },
    }
}

/// The address `rva` bytes into a module loaded at `base`.
pub fn address_in_module(base: usize, rva: u32) -> (address: usize)
    requires
        base + rva <= usize::MAX,
    ensures
        address == base + rva,
{
    base + rva as usize
}

} // verus!

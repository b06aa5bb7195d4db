//! The codes by which the system names debug events and exceptions.
use vstd::prelude::*;

verus! {

/// `windows::Win32::System::Diagnostics::Debug::EXCEPTION_DEBUG_EVENT`: the debug event that
/// carries an exception. Claimed of it: its number.
#[verifier::external_body]
pub(crate) fn exception_debug_event() -> (code: u32)
    ensures
        code == 1,
{
    windows::Win32::System::Diagnostics::Debug::EXCEPTION_DEBUG_EVENT.0
}

/// `windows::Win32::System::Diagnostics::Debug::EXIT_PROCESS_DEBUG_EVENT`: the debug event of a
/// process that has ended. Claimed of it: its number.
#[verifier::external_body]
pub(crate) fn exit_process_debug_event() -> (code: u32)
    ensures
        code == 5,
{
    windows::Win32::System::Diagnostics::Debug::EXIT_PROCESS_DEBUG_EVENT.0
}

/// `windows::Win32::Foundation::EXCEPTION_BREAKPOINT`: the exception that a breakpoint instruction
/// raises. Claimed of it: its number, taken as unsigned.
#[verifier::external_body]
pub(crate) fn exception_breakpoint() -> (code: u32)
    ensures
        code == 0x8000_0003,
{
    windows::Win32::Foundation::EXCEPTION_BREAKPOINT.0 as u32
}

/// `windows::Win32::Foundation::EXCEPTION_SINGLE_STEP`: the exception raised after one instruction
/// of a thread with the trap flag. Claimed of it: its number, taken as unsigned.
#[verifier::external_body]
pub(crate) fn exception_single_step() -> (code: u32)
    ensures
        code == 0x8000_0004,
{
    windows::Win32::Foundation::EXCEPTION_SINGLE_STEP.0 as u32
}

} // verus!

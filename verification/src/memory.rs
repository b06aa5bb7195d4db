//! What a read or a write of another process's memory comes to.
//!
//! The system reports how many bytes it moved, or an error in words. Fewer bytes than were asked
//! for count as a failure too.
use vstd::prelude::*;

use crate::bytes;
use crate::text;

verus! {

/// `what`, followed by the address in hexadecimal.
pub open spec fn at_address(what: Seq<char>, addr: usize) -> Seq<char> {
    what + " at 0x"@ + text::hex(addr as nat)
}

/// The complaint about a read of `wanted` bytes, if there is one to make.
pub open spec fn read_failure(
    addr: usize,
    wanted: usize,
    outcome: Result<usize, String>,
) -> Option<Seq<char>> {
    match outcome {
        Err(e) => Some(at_address("ReadProcessMemory"@, addr) + ": "@ + e@),
        Ok(n) => if n != wanted {
            Some(at_address("short read"@, addr))
        } else {
            None
        },
    }
}

/// The complaint about a write of one byte, if there is one to make.
pub open spec fn write_failure(addr: usize, outcome: Result<usize, String>) -> Option<Seq<char>> {
    match outcome {
        Err(e) => Some(at_address("WriteProcessMemory"@, addr) + ": "@ + e@),
        Ok(n) => if n != 1 {
            Some(at_address("short write"@, addr))
        } else {
            None
        },
    }
}

fn message_at(what: &str, addr: usize) -> (message: String)
    ensures
        message@ == at_address(what@, addr),
{
    let mut message: String = what.to_owned();
    message.append(" at 0x");
    text::push_hex(&mut message, addr as u64);
    message
}

fn check_read(addr: usize, wanted: usize, outcome: &Result<usize, String>) -> (checked: Result<
    (),
    String,
>)
    ensures
        match read_failure(addr, wanted, *outcome) {
            None => checked is Ok,
            Some(m) => checked is Err && checked->Err_0@ == m,
        },
{
    match outcome {
        Err(e) => {
            let mut message: String = message_at("ReadProcessMemory", addr);
            message.append(": ");
            message.append(e.as_str());
            Err(message)
        },
        Ok(n) => if *n != wanted {
            Err(message_at("short read", addr))
        } else {
            Ok(())
        },
    }
}

/// The byte read at `addr`; `byte` is what the system left in the buffer.
pub fn read_byte(addr: usize, byte: u8, outcome: &Result<usize, String>) -> (read: Result<
    u8,
    String,
>)
    ensures
        match read_failure(addr, 1, *outcome) {
            None => read is Ok && read->Ok_0 == byte,
            Some(m) => read is Err && read->Err_0@ == m,
        },
{
    match check_read(addr, 1, outcome) {
        Ok(_) => Ok(byte),
        Err(message) => Err(message),
    }
}

/// Whether one byte was written at `addr`.
pub fn write_byte(addr: usize, outcome: &Result<usize, String>) -> (written: Result<(), String>)
    ensures
        match write_failure(addr, *outcome) {
            None => written is Ok,
            Some(m) => written is Err && written->Err_0@ == m,
        },
{
    match outcome {
        Err(e) => {
            let mut message: String = message_at("WriteProcessMemory", addr);
            message.append(": ");
            message.append(e.as_str());
            Err(message)
        },
        Ok(n) => if *n != 1 {
            Err(message_at("short write", addr))
        } else {
            Ok(())
        },
    }
}

/// The 64-bit number read at `addr`; `buffer` is what the system left in the buffer.
pub fn read_qword(addr: usize, buffer: &[u8], outcome: &Result<usize, String>) -> (read: Result<
    u64,
    String,
>)
    requires
        buffer@.len() == 8,
    ensures
        match read_failure(addr, 8, *outcome) {
            None => read is Ok && read->Ok_0 == bytes::le_value(buffer@),
            Some(m) => read is Err && read->Err_0@ == m,
        },
{
    match check_read(addr, 8, outcome) {
        Ok(_) => {
            assert(buffer@.subrange(0, 8) == buffer@);
            Ok(bytes::le_at(buffer, 0, 8))
        },
        Err(message) => Err(message),
    }
}

/// The memory of a process once the system has answered a request to write `byte` at `addr`.
/// Memory is modelled by the byte at each address. A write that failed has changed nothing.
pub open spec fn after_write(
    memory: Map<usize, u8>,
    addr: usize,
    byte: u8,
    outcome: Result<usize, String>,
) -> Map<usize, u8> {
    if write_failure(addr, outcome) is None {
        memory.insert(addr, byte)
    } else {
        memory
    }
}

/// The answer to a request to read the byte at `addr` is true of the memory.
pub open spec fn is_true_read(
    memory: Map<usize, u8>,
    addr: usize,
    byte: u8,
    outcome: Result<usize, String>,
) -> bool {
    read_failure(addr, 1, outcome) is None ==> memory.contains_key(addr) && memory[addr] == byte
}

/// A byte that was written at `addr` reads back there, and what is read anywhere else is what could
/// be read before.
pub proof fn law_written_byte_reads_back(
    memory: Map<usize, u8>,
    addr: usize,
    byte: u8,
    written: Result<usize, String>,
    at: usize,
    found: u8,
    outcome: Result<usize, String>,
)
    requires
        write_failure(addr, written) is None,
        read_failure(at, 1, outcome) is None,
        is_true_read(after_write(memory, addr, byte, written), at, found, outcome),
    ensures
        at == addr ==> found == byte,
        at != addr ==> is_true_read(memory, at, found, outcome),
{
}

/// Writing any byte over one that was read, and then the byte that was read, leaves the memory as it
/// was, at that address and everywhere else.
pub proof fn law_overwriting_is_undone(
    memory: Map<usize, u8>,
    addr: usize,
    byte: u8,
    outcome: Result<usize, String>,
    other: u8,
    first: Result<usize, String>,
    second: Result<usize, String>,
)
    requires
        read_failure(addr, 1, outcome) is None,
        is_true_read(memory, addr, byte, outcome),
        write_failure(addr, first) is None,
        write_failure(addr, second) is None,
    ensures
        after_write(after_write(memory, addr, other, first), addr, byte, second) == memory,
{
    assert(after_write(after_write(memory, addr, other, first), addr, byte, second) =~= memory);
}

/// A read has succeeded if all the bytes came that were asked for, and a write if the one byte was
/// written. Otherwise the message says which call it was, where, and why.
pub proof fn law_whole_or_failed(addr: usize, wanted: usize, outcome: Result<usize, String>)
    ensures
        read_failure(addr, wanted, outcome) is None <==> outcome == Ok::<usize, String>(wanted),
        outcome matches Ok(n) && n != wanted ==> read_failure(addr, wanted, outcome) == Some(
            "short read at 0x"@ + text::hex(addr as nat),
        ),
        outcome matches Err(e) ==> read_failure(addr, wanted, outcome) == Some(
            "ReadProcessMemory at 0x"@ + text::hex(addr as nat) + ": "@ + e@,
        ),
        write_failure(addr, outcome) is None <==> outcome == Ok::<usize, String>(1),
        outcome matches Ok(n) && n != 1 ==> write_failure(addr, outcome) == Some(
            "short write at 0x"@ + text::hex(addr as nat),
        ),
        outcome matches Err(e) ==> write_failure(addr, outcome) == Some(
            "WriteProcessMemory at 0x"@ + text::hex(addr as nat) + ": "@ + e@,
        ),
{
    reveal_strlit(" at 0x");
    reveal_strlit("short read");
    reveal_strlit("short read at 0x");
    reveal_strlit("ReadProcessMemory");
    reveal_strlit("ReadProcessMemory at 0x");
    reveal_strlit("short write");
    reveal_strlit("short write at 0x");
    reveal_strlit("WriteProcessMemory");
    reveal_strlit("WriteProcessMemory at 0x");
    assert("short read"@ + " at 0x"@ =~= "short read at 0x"@);
    assert("ReadProcessMemory"@ + " at 0x"@ =~= "ReadProcessMemory at 0x"@);
    assert("short write"@ + " at 0x"@ =~= "short write at 0x"@);
    assert("WriteProcessMemory"@ + " at 0x"@ =~= "WriteProcessMemory at 0x"@);
}

} // verus!

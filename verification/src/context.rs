//! The register context of a stopped x64 thread, as the raw block that the system fills in.
use vstd::prelude::*;

use crate::bytes;

verus! {

/// Marks a context block as one of the x64 architecture.
pub const CONTEXT_AMD64: u32 = 0x0010_0000;

/// Asks for the instruction pointer, the stack pointer and the flags.
pub const CONTEXT_CONTROL: u32 = CONTEXT_AMD64 | 0x1;

/// Asks for the general-purpose registers.
pub const CONTEXT_INTEGER: u32 = CONTEXT_AMD64 | 0x2;

/// Asks for everything that the tracer reads, and for the floating-point state.
pub const CONTEXT_FULL: u32 = CONTEXT_CONTROL | CONTEXT_INTEGER | (CONTEXT_AMD64 | 0x8);

/// The size of the block in bytes.
pub const CTX_SIZE: usize = 1232;

/// Where the flags that say what the block holds stand.
pub const OFF_FLAGS: usize = 0x30;

pub const OFF_EFLAGS: usize = 0x44;

pub const OFF_RCX: usize = 0x80;

pub const OFF_RDX: usize = 0x88;

pub const OFF_RSP: usize = 0x98;

pub const OFF_R8: usize = 0xB8;

pub const OFF_R9: usize = 0xC0;

pub const OFF_RIP: usize = 0xF8;

/// The bit of the flags register that makes the processor stop after one instruction.
pub const TRAP_FLAG: u32 = 0x100;

/// A context block. Its view is the sequence of its bytes.
#[derive(Clone, Copy)]
pub struct Ctx(pub [u8; CTX_SIZE]);

/// The 32-bit field at `off` of a block.
pub open spec fn field_u32(block: Seq<u8>, off: int) -> u32 {
    bytes::le_value(block.subrange(off, off + 4)) as u32
}

/// The 64-bit field at `off` of a block.
pub open spec fn field_u64(block: Seq<u8>, off: int) -> u64 {
    bytes::le_value(block.subrange(off, off + 8)) as u64
}

/// `block` with the 32-bit field at `off` set to `v`.
pub open spec fn with_u32(block: Seq<u8>, off: int, v: u32) -> Seq<u8> {
    bytes::overwritten(block, off, bytes::le_bytes(v as nat, 4))
}

/// `block` with the 64-bit field at `off` set to `v`.
pub open spec fn with_u64(block: Seq<u8>, off: int, v: u64) -> Seq<u8> {
    bytes::overwritten(block, off, bytes::le_bytes(v as nat, 8))
}

/// A block of zeros with `flags` set.
pub open spec fn blank(flags: u32) -> Seq<u8> {
    with_u32(Seq::new(CTX_SIZE as nat, |i: int| 0u8), OFF_FLAGS as int, flags)
}

/// `v` less one, and zero for zero.
pub open spec fn one_less(v: u64) -> u64 {
    if v == 0 {
        0
    } else {
        (v - 1) as u64
    }
}

/// `block` with the instruction pointer moved back by one byte.
pub open spec fn rewound(block: Seq<u8>) -> Seq<u8> {
    with_u64(block, OFF_RIP as int, one_less(field_u64(block, OFF_RIP as int)))
}

/// `block` with the trap flag set.
pub open spec fn trapping(block: Seq<u8>) -> Seq<u8> {
    with_u32(block, OFF_EFLAGS as int, field_u32(block, OFF_EFLAGS as int) | TRAP_FLAG)
}

/// The trap flag is set in `block`.
pub open spec fn has_trap(block: Seq<u8>) -> bool {
    field_u32(block, OFF_EFLAGS as int) & TRAP_FLAG != 0
}

/// `block` with the trap flag cleared.
pub open spec fn untrapped(block: Seq<u8>) -> Seq<u8> {
    with_u32(block, OFF_EFLAGS as int, field_u32(block, OFF_EFLAGS as int) & !TRAP_FLAG)
}

impl View for Ctx {
    type V = Seq<u8>;

    open spec fn view(&self) -> Seq<u8> {
        self.0@
    }
}

impl Ctx {
    /// A block of zeros that asks the system for what `flags` name.
    pub fn new(flags: u32) -> (ctx: Self)
        ensures
            ctx@ == blank(flags),
    {
        let mut c = Self([0u8; CTX_SIZE]);
        assert(c@ == Seq::new(CTX_SIZE as nat, |i: int| 0u8));
        c.write_u32(OFF_FLAGS, flags);
        c
    }

    pub fn read_u32(&self, off: usize) -> (v: u32)
        requires
            off + 4 <= CTX_SIZE,
        ensures
            v == field_u32(self@, off as int),
            v == bytes::le_value(self@.subrange(off as int, off + 4)),
    {
        proof {
            bytes::lemma_le_bound_values();
        }
        bytes::le_at(self.0.as_slice(), off, 4) as u32
    }

    pub fn read_u64(&self, off: usize) -> (v: u64)
        requires
            off + 8 <= CTX_SIZE,
        ensures
            v == field_u64(self@, off as int),
            v == bytes::le_value(self@.subrange(off as int, off + 8)),
    {
        bytes::le_at(self.0.as_slice(), off, 8)
    }

    /// Writes the `n` low bytes of `v` at `off`.
    fn write_le(&mut self, off: usize, v: u64, n: usize)
        requires
            off + n <= CTX_SIZE,
        ensures
            final(self)@ == bytes::overwritten(
                old(self)@,
                off as int,
                bytes::le_bytes(v as nat, n as nat),
            ),
    {
        let ghost before = self@;
        let ghost patch = bytes::le_bytes(v as nat, n as nat);
        let mut rest: u64 = v;
        let mut i: usize = 0;
        proof {
            bytes::lemma_le_bytes_len(v as nat, n as nat);
            assert(patch.skip(0) == patch);
        }
        while i < n
            invariant
                i <= n,
                off + n <= CTX_SIZE,
                before.len() == CTX_SIZE,
                patch.len() == n,
                patch.skip(i as int) == bytes::le_bytes(rest as nat, (n - i) as nat),
                self@ == bytes::overwritten(before, off as int, patch.take(i as int)),
            decreases n - i,
        {
            proof {
                let tail = patch.skip(i as int);
                assert(tail[0] == (rest as nat % 256) as u8);
                assert(tail.skip(1) == bytes::le_bytes(rest as nat / 256, (n - i - 1) as nat));
                assert(patch.skip(i + 1) == tail.skip(1));
            }
            self.0[off + i] = (rest % 256) as u8;
            rest = rest / 256;
            i = i + 1;
        }
        assert(patch.take(n as int) == patch);
    }

    pub fn write_u32(&mut self, off: usize, v: u32)
        requires
            off + 4 <= CTX_SIZE,
        ensures
            final(self)@ == with_u32(old(self)@, off as int, v),
    {
        self.write_le(off, v as u64, 4);
    }

    pub fn write_u64(&mut self, off: usize, v: u64)
        requires
            off + 8 <= CTX_SIZE,
        ensures
            final(self)@ == with_u64(old(self)@, off as int, v),
    {
        self.write_le(off, v, 8);
    }

    /// The instruction pointer.
    pub fn rip(&self) -> (v: u64)
        ensures
            v == field_u64(self@, OFF_RIP as int),
    {
        self.read_u64(OFF_RIP)
    }

    pub fn set_rip(&mut self, v: u64)
        ensures
            final(self)@ == with_u64(old(self)@, OFF_RIP as int, v),
    {
        self.write_u64(OFF_RIP, v)
    }

    /// The stack pointer.
    pub fn rsp(&self) -> (v: u64)
        ensures
            v == field_u64(self@, OFF_RSP as int),
    {
        self.read_u64(OFF_RSP)
    }

    /// The first argument of a call.
    pub fn rcx(&self) -> (v: u64)
        ensures
            v == field_u64(self@, OFF_RCX as int),
    {
        self.read_u64(OFF_RCX)
    }

    /// The second argument of a call.
    pub fn rdx(&self) -> (v: u64)
        ensures
            v == field_u64(self@, OFF_RDX as int),
    {
        self.read_u64(OFF_RDX)
    }

    /// The third argument of a call.
    pub fn r8(&self) -> (v: u64)
        ensures
            v == field_u64(self@, OFF_R8 as int),
    {
        self.read_u64(OFF_R8)
    }

    /// The fourth argument of a call.
    pub fn r9(&self) -> (v: u64)
        ensures
            v == field_u64(self@, OFF_R9 as int),
    {
        self.read_u64(OFF_R9)
    }

    /// The flags register.
    pub fn eflags(&self) -> (v: u32)
        ensures
            v == field_u32(self@, OFF_EFLAGS as int),
    {
        self.read_u32(OFF_EFLAGS)
    }

    pub fn set_eflags(&mut self, v: u32)
        ensures
            final(self)@ == with_u32(old(self)@, OFF_EFLAGS as int, v),
    {
        self.write_u32(OFF_EFLAGS, v)
    }

    /// Moves the instruction pointer back over a one-byte breakpoint.
    pub fn rewind(&mut self)
        ensures
            final(self)@ == rewound(old(self)@),
            field_u64(old(self)@, 0xF8) > 0 ==> field_u64(final(self)@, 0xF8) == field_u64(
                old(self)@,
                0xF8,
            ) - 1,
    {
        proof {
            law_moving_back(self@);
        }
        self.set_rip(self.rip().saturating_sub(1));
    }

    /// Makes the thread stop again after one instruction.
    pub fn set_trap(&mut self)
        ensures
            final(self)@ == trapping(old(self)@),
    {
        let ef: u32 = self.eflags();
        self.set_eflags(ef | TRAP_FLAG);
    }

    /// Whether the thread stops after one instruction.
    pub fn traps(&self) -> (set: bool)
        ensures
            set == has_trap(self@),
    {
        self.eflags() & TRAP_FLAG != 0
    }

    /// Lets the thread run on.
    pub fn clear_trap(&mut self)
        ensures
            final(self)@ == untrapped(old(self)@),
    {
        let ef: u32 = self.eflags();
        self.set_eflags(ef & !TRAP_FLAG);
    }
}

/// A field of `size` bytes at `off` lies within a block.
pub open spec fn in_block(off: int, size: int) -> bool {
    0 <= off && off + size <= CTX_SIZE
}

/// A field that was set reads back as the value that it was set to.
pub proof fn law_field_reads_back(block: Seq<u8>, off: int, v: u64, w: u32)
    requires
        block.len() == CTX_SIZE,
    ensures
        in_block(off, 8) ==> field_u64(with_u64(block, off, v), off) == v,
        in_block(off, 4) ==> field_u32(with_u32(block, off, w), off) == w,
{
    bytes::lemma_le_bound_values();
    bytes::law_value_of_bytes(v as nat, 8);
    bytes::law_value_of_bytes(w as nat, 4);
    if in_block(off, 8) {
        assert(with_u64(block, off, v).subrange(off, off + 8) == bytes::le_bytes(v as nat, 8));
    }
    if in_block(off, 4) {
        assert(with_u32(block, off, w).subrange(off, off + 4) == bytes::le_bytes(w as nat, 4));
    }
}

/// Setting a field keeps the size of the block and every field that does not overlap it.
pub proof fn law_other_fields_stay(block: Seq<u8>, off: int, v: u64, w: u32, other: int)
    requires
        block.len() == CTX_SIZE,
    ensures
        with_u64(block, off, v).len() == CTX_SIZE,
        with_u32(block, off, w).len() == CTX_SIZE,
        in_block(other, 8) && (other + 8 <= off || off + 8 <= other) ==> field_u64(
            with_u64(block, off, v),
            other,
        ) == field_u64(block, other),
        in_block(other, 8) && (other + 8 <= off || off + 4 <= other) ==> field_u64(
            with_u32(block, off, w),
            other,
        ) == field_u64(block, other),
        in_block(other, 4) && (other + 4 <= off || off + 8 <= other) ==> field_u32(
            with_u64(block, off, v),
            other,
        ) == field_u32(block, other),
        in_block(other, 4) && (other + 4 <= off || off + 4 <= other) ==> field_u32(
            with_u32(block, off, w),
            other,
        ) == field_u32(block, other),
{
    bytes::lemma_le_bytes_len(v as nat, 8);
    bytes::lemma_le_bytes_len(w as nat, 4);
    let wide = with_u64(block, off, v);
    let narrow = with_u32(block, off, w);
    if in_block(other, 8) {
        let old_field = block.subrange(other, other + 8);
        if other + 8 <= off || off + 8 <= other {
            assert(wide.subrange(other, other + 8) == old_field);
        }
        if other + 8 <= off || off + 4 <= other {
            assert(narrow.subrange(other, other + 8) == old_field);
        }
    }
    if in_block(other, 4) {
        let old_field = block.subrange(other, other + 4);
        if other + 4 <= off || off + 8 <= other {
            assert(wide.subrange(other, other + 4) == old_field);
        }
        if other + 4 <= off || off + 4 <= other {
            assert(narrow.subrange(other, other + 4) == old_field);
        }
    }
}

proof fn lemma_zeros(s: Seq<u8>)
    requires
        forall|i: int| 0 <= i < s.len() ==> s[i] == 0,
    ensures
        bytes::le_value(s) == 0,
    decreases s.len(),
{
    if s.len() > 0 {
        lemma_zeros(s.skip(1));
    }
}

/// A fresh block holds the flags that it was made with, and zero in every register.
pub proof fn law_fresh_block(flags: u32)
    ensures
        blank(flags).len() == CTX_SIZE,
        field_u32(blank(flags), OFF_FLAGS as int) == flags,
        field_u32(blank(flags), OFF_EFLAGS as int) == 0,
        forall|off: int|
            OFF_EFLAGS <= off && in_block(off, 8) ==> #[trigger] field_u64(blank(flags), off) == 0,
{
    let zeros = Seq::new(CTX_SIZE as nat, |i: int| 0u8);
    law_field_reads_back(zeros, OFF_FLAGS as int, 0, flags);
    law_other_fields_stay(zeros, OFF_FLAGS as int, 0, flags, OFF_EFLAGS as int);
    lemma_zeros(zeros.subrange(OFF_EFLAGS as int, OFF_EFLAGS + 4));
    assert forall|off: int| OFF_EFLAGS <= off && in_block(off, 8) implies #[trigger] field_u64(
        blank(flags),
        off,
    ) == 0 by {
        law_other_fields_stay(zeros, OFF_FLAGS as int, 0, flags, off);
        lemma_zeros(zeros.subrange(off, off + 8));
    }
}

/// A context that is sent back for one step over the breakpoint has the instruction pointer on the
/// breakpoint and the trap flag set. Every other field, and every other flag, is as it was.
pub proof fn law_step_context(block: Seq<u8>, other: int)
    requires
        block.len() == CTX_SIZE,
    ensures
        ({
            let sent = trapping(rewound(block));
            let flags = field_u32(block, OFF_EFLAGS as int);
            &&& sent.len() == CTX_SIZE
            &&& field_u64(sent, OFF_RIP as int) == one_less(field_u64(block, OFF_RIP as int))
            &&& field_u32(sent, OFF_EFLAGS as int) == flags | TRAP_FLAG
            &&& (flags | TRAP_FLAG) & TRAP_FLAG == TRAP_FLAG
            &&& (flags | TRAP_FLAG) & !TRAP_FLAG == flags & !TRAP_FLAG
            &&& in_block(other, 8) && (other + 8 <= OFF_RIP || OFF_RIP + 8 <= other) && (other + 8
                <= OFF_EFLAGS || OFF_EFLAGS + 4 <= other) ==> field_u64(sent, other) == field_u64(
                block,
                other,
            )
        }),
{
    let moved = rewound(block);
    let rip = one_less(field_u64(block, OFF_RIP as int));
    let flags = field_u32(block, OFF_EFLAGS as int);
    let set = flags | TRAP_FLAG;
    law_field_reads_back(block, OFF_RIP as int, rip, 0);
    law_other_fields_stay(block, OFF_RIP as int, rip, 0, OFF_EFLAGS as int);
    law_other_fields_stay(block, OFF_RIP as int, rip, 0, other);
    law_field_reads_back(moved, OFF_EFLAGS as int, 0, set);
    law_other_fields_stay(moved, OFF_EFLAGS as int, 0, set, OFF_RIP as int);
    law_other_fields_stay(moved, OFF_EFLAGS as int, 0, set, other);
    assert((flags | TRAP_FLAG) & TRAP_FLAG == TRAP_FLAG) by (bit_vector);
    assert((flags | TRAP_FLAG) & !TRAP_FLAG == flags & !TRAP_FLAG) by (bit_vector);
}

/// Clearing the trap flag undoes setting it in a block that did not have it. A cleared block never
/// has it, and keeps every other flag and every other field.
pub proof fn law_trap_is_undone(block: Seq<u8>, other: int)
    requires
        block.len() == CTX_SIZE,
    ensures
        !has_trap(untrapped(block)),
        has_trap(trapping(block)),
        field_u32(untrapped(block), OFF_EFLAGS as int) == field_u32(block, OFF_EFLAGS as int)
            & !TRAP_FLAG,
        !has_trap(block) ==> untrapped(trapping(block)) == block,
        in_block(other, 8) && (other + 8 <= OFF_EFLAGS || OFF_EFLAGS + 4 <= other) ==> field_u64(
            untrapped(block),
            other,
        ) == field_u64(block, other),
{
    let at = OFF_EFLAGS as int;
    let flags = field_u32(block, at);
    let set = trapping(block);
    let cleared = flags & !TRAP_FLAG;
    law_field_reads_back(block, at, 0, flags | TRAP_FLAG);
    law_field_reads_back(block, at, 0, cleared);
    law_other_fields_stay(block, at, 0, cleared, other);
    assert((flags & !TRAP_FLAG) & TRAP_FLAG == 0) by (bit_vector);
    assert((flags | TRAP_FLAG) & TRAP_FLAG != 0) by (bit_vector);
    if !has_trap(block) {
        assert((flags | TRAP_FLAG) & !TRAP_FLAG == flags) by (bit_vector)
            requires
                flags & TRAP_FLAG == 0,
        ;
        let field = block.subrange(at, at + 4);
        bytes::lemma_le_value_bound(field);
        bytes::lemma_le_bound_values();
        bytes::law_bytes_of_value(field);
        bytes::lemma_le_bytes_len((flags | TRAP_FLAG) as nat, 4);
        assert(bytes::le_bytes(flags as nat, 4) == field);
        assert forall|i: int| 0 <= i < CTX_SIZE implies untrapped(set)[i] == block[i] by {
            if at <= i < at + 4 {
                assert(field[i - at] == block[i]);
            }
        }
        assert(untrapped(set) =~= block);
    }
}

/// Every byte of `changed` from `from` up to `to` may differ from `block`; no other does.
pub open spec fn differs_only_in(changed: Seq<u8>, block: Seq<u8>, from: int, to: int) -> bool {
    &&& changed.len() == block.len()
    &&& forall|i: int|
        0 <= i < block.len() && !(from <= i < to) ==> #[trigger] changed[i] == block[i]
}

/// Where things stand in a block, and what the block is for.
pub proof fn law_layout()
    ensures
        CTX_SIZE == 1232,
        OFF_FLAGS == 0x30 && OFF_EFLAGS == 0x44 && OFF_RCX == 0x80 && OFF_RDX == 0x88,
        OFF_RSP == 0x98 && OFF_R8 == 0xB8 && OFF_R9 == 0xC0 && OFF_RIP == 0xF8,
        CONTEXT_FULL == 0x10_000B,
        TRAP_FLAG == 0x100,
{
    assert(CONTEXT_FULL == 0x10_000B) by (bit_vector);
}

/// A field is the number in its bytes, all of them, the least significant first.
pub proof fn law_field_is_its_bytes(block: Seq<u8>, off: int)
    requires
        0 <= off,
    ensures
        off + 4 <= block.len() ==> field_u32(block, off) == block[off] + 0x100 * block[off + 1]
            + 0x1_0000 * block[off + 2] + 0x100_0000 * block[off + 3],
        off + 8 <= block.len() ==> field_u64(block, off) == block[off] + 0x100 * block[off + 1]
            + 0x1_0000 * block[off + 2] + 0x100_0000 * block[off + 3] + 0x1_0000_0000 * block[off
            + 4] + 0x100_0000_0000 * block[off + 5] + 0x1_0000_0000_0000 * block[off + 6]
            + 0x100_0000_0000_0000 * block[off + 7],
{
    bytes::lemma_le_bound_values();
    if off + 4 <= block.len() {
        let s = block.subrange(off, off + 4);
        bytes::law_value_byte_by_byte(s);
        bytes::lemma_le_value_bound(s);
    }
    if off + 8 <= block.len() {
        let s = block.subrange(off, off + 8);
        bytes::law_value_byte_by_byte(s);
        bytes::lemma_le_value_bound(s);
    }
}

/// Setting a field changes the bytes of that field alone, and the field is then the value.
pub proof fn law_setting_a_field(block: Seq<u8>, off: int, v: u64, w: u32)
    requires
        block.len() == 1232,
        0 <= off,
    ensures
        off + 8 <= 1232 ==> differs_only_in(with_u64(block, off, v), block, off, off + 8)
            && field_u64(with_u64(block, off, v), off) == v,
        off + 4 <= 1232 ==> differs_only_in(with_u32(block, off, w), block, off, off + 4)
            && field_u32(with_u32(block, off, w), off) == w,
{
    bytes::lemma_le_bytes_len(v as nat, 8);
    bytes::lemma_le_bytes_len(w as nat, 4);
    law_field_reads_back(block, off, v, w);
}

/// A fresh block has zero in every byte but the four that hold its flags.
pub proof fn law_fresh_block_bytes(flags: u32)
    ensures
        blank(flags).len() == 1232,
        field_u32(blank(flags), 0x30) == flags,
        forall|i: int|
            0 <= i < 1232 && !(0x30 <= i < 0x34) ==> #[trigger] blank(flags)[i] == 0,
{
    let zeros = Seq::new(CTX_SIZE as nat, |i: int| 0u8);
    law_setting_a_field(zeros, 0x30, 0, flags);
    assert forall|i: int| 0 <= i < 1232 && !(0x30 <= i < 0x34) implies #[trigger] blank(flags)[i]
        == 0 by {
        assert(blank(flags)[i] == zeros[i]);
    }
}

/// Moving back takes exactly one off the instruction pointer, over all its 64 bits, and leaves zero
/// alone. No byte outside the instruction pointer changes.
pub proof fn law_moving_back(block: Seq<u8>)
    requires
        block.len() == 1232,
    ensures
        differs_only_in(rewound(block), block, 0xF8, 0x100),
        field_u64(block, 0xF8) > 0 ==> field_u64(rewound(block), 0xF8) == field_u64(block, 0xF8)
            - 1,
        field_u64(block, 0xF8) == 0 ==> field_u64(rewound(block), 0xF8) == 0,
        field_u64(block, 0xF8) > 0 ==> one_less(field_u64(block, 0xF8)) == field_u64(block, 0xF8)
            - 1,
        field_u64(block, 0xF8) == 0 ==> one_less(field_u64(block, 0xF8)) == 0,
{
    law_setting_a_field(block, 0xF8, one_less(field_u64(block, 0xF8)), 0);
}

/// Setting and clearing the trap flag change that one flag, and no byte outside the flags register.
pub proof fn law_trap_flag_alone_changes(block: Seq<u8>)
    requires
        block.len() == 1232,
    ensures
        differs_only_in(trapping(block), block, 0x44, 0x48),
        field_u32(trapping(block), 0x44) == field_u32(block, 0x44) | 0x100,
        differs_only_in(untrapped(block), block, 0x44, 0x48),
        field_u32(untrapped(block), 0x44) == field_u32(block, 0x44) & !0x100u32,
        has_trap(block) <==> field_u32(block, 0x44) & 0x100 != 0,
{
    let flags = field_u32(block, 0x44);
    law_setting_a_field(block, 0x44, 0, flags | TRAP_FLAG);
    law_setting_a_field(block, 0x44, 0, flags & !TRAP_FLAG);
}

} // verus!

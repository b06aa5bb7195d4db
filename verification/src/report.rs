//! The lines that the tracer prints.
use vstd::prelude::*;

use crate::bytes;
use crate::context;
use crate::context::Ctx;
use crate::text;

verus! {

/// The report of a hit: its number, the thread, where it is, where it returns to, and the registers
/// that carry the first four arguments.
pub open spec fn hit_text(n: u64, tid: u32, rip: u64, ret: u64, block: Seq<u8>) -> Seq<char> {
    "[hit "@ + text::padded(text::decimal(n as nat), 3, ' ') + "] tid="@ + text::decimal(tid as nat)
        + "  rip=0x"@ + text::hex16(rip) + "  ret=0x"@ + text::hex16(ret) + "\n         rcx=0x"@
        + text::hex16(context::field_u64(block, context::OFF_RCX as int)) + "  rdx=0x"@
        + text::hex16(context::field_u64(block, context::OFF_RDX as int)) + "\n         r8 =0x"@
        + text::hex16(context::field_u64(block, context::OFF_R8 as int)) + "  r9 =0x"@
        + text::hex16(context::field_u64(block, context::OFF_R9 as int))
}

/// The report of a hit.
pub fn hit_report(n: u64, tid: u32, rip: u64, ret: u64, ctx: &Ctx) -> (report: String)
    ensures
        report@ == hit_text(n, tid, rip, ret, ctx@),
{
    let mut out: String = "[hit ".to_owned();
    text::push_decimal_right(&mut out, n, 3);
    out.append("] tid=");
    text::push_decimal(&mut out, tid as u64);
    out.append("  rip=0x");
    text::push_hex16(&mut out, rip);
    out.append("  ret=0x");
    text::push_hex16(&mut out, ret);
    out.append("\n         rcx=0x");
    text::push_hex16(&mut out, ctx.rcx());
    out.append("  rdx=0x");
    text::push_hex16(&mut out, ctx.rdx());
    out.append("\n         r8 =0x");
    text::push_hex16(&mut out, ctx.r8());
    out.append("  r9 =0x");
    text::push_hex16(&mut out, ctx.r9());
    out
}

/// The line that shows the first `words` 64-bit words of `stack`.
pub open spec fn stack_text(stack: Seq<u8>, words: nat) -> Seq<char>
    decreases words,
{
    if words == 0 {
        "         stack:"@
    } else {
        stack_text(stack, (words - 1) as nat) + " "@ + text::hex16(
            context::field_u64(stack, 8 * (words - 1)),
        )
    }
}

/// The line that shows what was read of the stack: the whole words among the first `n` bytes.
pub fn stack_line(stack: &[u8], n: usize) -> (line: String)
    requires
        n / 8 * 8 <= stack@.len(),
    ensures
        line@ == stack_text(stack@, (n / 8) as nat),
        line@.len() == 15 + 17 * (n as int / 8),
{
    proof {
        law_stack_line(stack@, (n / 8) as nat, 0);
    }
    let words: usize = n / 8;
    let mut line: String = "         stack:".to_owned();
    let mut i: usize = 0;
    while i < words
        invariant
            i <= words,
            words == n / 8,
            words * 8 <= stack@.len(),
            line@ == stack_text(stack@, i as nat),
        decreases words - i,
    {
        line.append(" ");
        text::push_hex16(&mut line, bytes::le_at(stack, i * 8, 8));
        i = i + 1;
    }
    line
}

/// The line that says that tracing has begun.
pub open spec fn attached_text(pid: u32, target: usize) -> Seq<char> {
    "attached to pid "@ + text::decimal(pid as nat) + " \u{2014} INT3 armed at 0x"@ + text::hex(
        target as nat,
    ) + "; Ctrl+C to detach"@
}

/// The line that says that tracing has begun.
pub fn attached_line(pid: u32, target: usize) -> (line: String)
    ensures
        line@ == attached_text(pid, target),
{
    let mut line: String = "attached to pid ".to_owned();
    text::push_decimal(&mut line, pid as u64);
    line.append(" \u{2014} INT3 armed at 0x");
    text::push_hex(&mut line, target as u64);
    line.append("; Ctrl+C to detach");
    line
}

/// The line that says that tracing is over.
pub open spec fn done_text(hits: u64) -> Seq<char> {
    "done \u{2014} "@ + text::decimal(hits as nat) + " hit(s)"@
}

/// The line that says that tracing is over.
pub fn done_line(hits: u64) -> (line: String)
    ensures
        line@ == done_text(hits),
{
    let mut line: String = "done \u{2014} ".to_owned();
    text::push_decimal(&mut line, hits);
    line.append(" hit(s)");
    line
}

/// `part` stands in `whole` at `at`.
pub open spec fn stands_at(whole: Seq<char>, at: int, part: Seq<char>) -> bool {
    0 <= at && at + part.len() <= whole.len() && whole.subrange(at, at + part.len()) == part
}

/// Every part of a report stands where it belongs. The number of the hit is right-aligned in three
/// columns; the thread follows in decimal; then come the instruction pointer, the return address
/// and the four registers, all 64 bits of each in sixteen hexadecimal digits.
pub proof fn law_hit_report(n: u64, tid: u32, rip: u64, ret: u64, block: Seq<u8>)
    ensures
        ({
            let t = hit_text(n, tid, rip, ret, block);
            let digits = text::decimal(n as nat).len() as int;
            let w = if digits < 3 {
                3
            } else {
                digits
            };
            let d = text::decimal(tid as nat).len() as int;
            let p = 11 + w + d;
            &&& t.len() == p + 160
            &&& stands_at(t, 0, "[hit "@)
            &&& forall|i: int| 5 <= i < 5 + w - digits ==> #[trigger] t[i] == ' '
            &&& text::reads_decimal(t.subrange(5 + w - digits, 5 + w), n as int)
            &&& stands_at(t, 5 + w, "] tid="@)
            &&& text::reads_decimal(t.subrange(11 + w, p), tid as int)
            &&& stands_at(t, p, "  rip=0x"@)
            &&& text::reads_hex16(t.subrange(p + 8, p + 24), rip)
            &&& stands_at(t, p + 24, "  ret=0x"@)
            &&& text::reads_hex16(t.subrange(p + 32, p + 48), ret)
            &&& stands_at(t, p + 48, "\n         rcx=0x"@)
            &&& text::reads_hex16(t.subrange(p + 64, p + 80), context::field_u64(block, 0x80))
            &&& stands_at(t, p + 80, "  rdx=0x"@)
            &&& text::reads_hex16(t.subrange(p + 88, p + 104), context::field_u64(block, 0x88))
            &&& stands_at(t, p + 104, "\n         r8 =0x"@)
            &&& text::reads_hex16(t.subrange(p + 120, p + 136), context::field_u64(block, 0xB8))
            &&& stands_at(t, p + 136, "  r9 =0x"@)
            &&& text::reads_hex16(t.subrange(p + 144, p + 160), context::field_u64(block, 0xC0))
        }),
{
    let rcx = context::field_u64(block, 0x80);
    let rdx = context::field_u64(block, 0x88);
    let r8 = context::field_u64(block, 0xB8);
    let r9 = context::field_u64(block, 0xC0);
    reveal_strlit("[hit ");
    reveal_strlit("] tid=");
    reveal_strlit("  rip=0x");
    reveal_strlit("  ret=0x");
    reveal_strlit("\n         rcx=0x");
    reveal_strlit("  rdx=0x");
    reveal_strlit("\n         r8 =0x");
    reveal_strlit("  r9 =0x");
    text::law_numbers_read_as_themselves(n);
    text::law_numbers_read_as_themselves(tid as u64);
    text::law_numbers_read_as_themselves(rip);
    text::law_numbers_read_as_themselves(ret);
    text::law_numbers_read_as_themselves(rcx);
    text::law_numbers_read_as_themselves(rdx);
    text::law_numbers_read_as_themselves(r8);
    text::law_numbers_read_as_themselves(r9);
    let number = text::decimal(n as nat);
    let field = text::padded(number, 3, ' ');
    text::law_padding(number, 3, ' ');
    let thread = text::decimal(tid as nat);
    let digits = number.len() as int;
    let w = field.len() as int;
    let d = thread.len() as int;
    let p = 11 + w + d;
    let a0 = "[hit "@;
    let a1 = a0 + field;
    let a2 = a1 + "] tid="@;
    let a3 = a2 + thread;
    let a4 = a3 + "  rip=0x"@;
    let a5 = a4 + text::hex16(rip);
    let a6 = a5 + "  ret=0x"@;
    let a7 = a6 + text::hex16(ret);
    let a8 = a7 + "\n         rcx=0x"@;
    let a9 = a8 + text::hex16(rcx);
    let a10 = a9 + "  rdx=0x"@;
    let a11 = a10 + text::hex16(rdx);
    let a12 = a11 + "\n         r8 =0x"@;
    let a13 = a12 + text::hex16(r8);
    let a14 = a13 + "  r9 =0x"@;
    let t = a14 + text::hex16(r9);
    assert(t == hit_text(n, tid, rip, ret, block));
    assert(t.subrange(0, 5) =~= a0);
    assert(t.subrange(5, 5 + w) =~= field);
    assert(t.subrange(5 + w - digits, 5 + w) =~= field.skip(w - digits));
    assert forall|i: int| 5 <= i < 5 + w - digits implies #[trigger] t[i] == ' ' by {
        assert(t[i] == field[i - 5]);
    }
    assert(t.subrange(5 + w, 11 + w) =~= "] tid="@);
    assert(t.subrange(11 + w, p) =~= thread);
    assert(t.subrange(p, p + 8) =~= "  rip=0x"@);
    assert(t.subrange(p + 8, p + 24) =~= text::hex16(rip));
    assert(t.subrange(p + 24, p + 32) =~= "  ret=0x"@);
    assert(t.subrange(p + 32, p + 48) =~= text::hex16(ret));
    assert(t.subrange(p + 48, p + 64) =~= "\n         rcx=0x"@);
    assert(t.subrange(p + 64, p + 80) =~= text::hex16(rcx));
    assert(t.subrange(p + 80, p + 88) =~= "  rdx=0x"@);
    assert(t.subrange(p + 88, p + 104) =~= text::hex16(rdx));
    assert(t.subrange(p + 104, p + 120) =~= "\n         r8 =0x"@);
    assert(t.subrange(p + 120, p + 136) =~= text::hex16(r8));
    assert(t.subrange(p + 136, p + 144) =~= "  r9 =0x"@);
    assert(t.subrange(p + 144, p + 160) =~= text::hex16(r9));
}

/// The line of the stack has one blank and sixteen hexadecimal digits for every word, in the order
/// of the stack, and nothing else behind its heading.
pub proof fn law_stack_line(stack: Seq<u8>, words: nat, i: int)
    requires
        8 * words <= stack.len(),
        0 <= i,
    ensures
        ({
            let t = stack_text(stack, words);
            &&& t.len() == 15 + 17 * words
            &&& stands_at(t, 0, "         stack:"@)
            &&& i < words ==> t[15 + 17 * i] == ' ' && text::reads_hex16(
                t.subrange(16 + 17 * i, 32 + 17 * i),
                context::field_u64(stack, 8 * i),
            )
        }),
    decreases words,
{
    reveal_strlit("         stack:");
    reveal_strlit(" ");
    let t = stack_text(stack, words);
    if words == 0 {
        assert(t.subrange(0, 15) =~= "         stack:"@);
    } else {
        let k = (words - 1) as nat;
        let front = stack_text(stack, k);
        let word = context::field_u64(stack, 8 * k as int);
        law_stack_line(stack, k, i);
        text::law_numbers_read_as_themselves(word);
        assert(t == front + " "@ + text::hex16(word));
        assert(t.subrange(0, 15) =~= front.subrange(0, 15));
        if i < k {
            assert(t[15 + 17 * i] == front[15 + 17 * i]);
            assert(t.subrange(16 + 17 * i, 32 + 17 * i) =~= front.subrange(
                16 + 17 * i,
                32 + 17 * i,
            ));
        } else if i == k {
            assert(t.subrange(16 + 17 * i, 32 + 17 * i) =~= text::hex16(word));
        }
    }
}

/// The first line names the process in decimal and the target in hexadecimal.
pub proof fn law_attached_line(pid: u32, target: usize)
    ensures
        ({
            let t = attached_text(pid, target);
            let d = text::decimal(pid as nat).len() as int;
            let h = text::hex(target as nat).len() as int;
            &&& t.len() == 16 + d + 19 + h + 18
            &&& stands_at(t, 0, "attached to pid "@)
            &&& text::reads_decimal(t.subrange(16, 16 + d), pid as int)
            &&& stands_at(t, 16 + d, " \u{2014} INT3 armed at 0x"@)
            &&& text::reads_hex(t.subrange(35 + d, 35 + d + h), target as int)
            &&& stands_at(t, 35 + d + h, "; Ctrl+C to detach"@)
        }),
{
    reveal_strlit("attached to pid ");
    reveal_strlit(" \u{2014} INT3 armed at 0x");
    reveal_strlit("; Ctrl+C to detach");
    text::law_numbers_read_as_themselves(pid as u64);
    text::law_numbers_read_as_themselves(target as u64);
    let t = attached_text(pid, target);
    let d = text::decimal(pid as nat).len() as int;
    let h = text::hex(target as nat).len() as int;
    assert(t.subrange(0, 16) =~= "attached to pid "@);
    assert(t.subrange(16, 16 + d) =~= text::decimal(pid as nat));
    assert(t.subrange(16 + d, 35 + d) =~= " \u{2014} INT3 armed at 0x"@);
    assert(t.subrange(35 + d, 35 + d + h) =~= text::hex(target as nat));
    assert(t.subrange(35 + d + h, 35 + d + h + 18) =~= "; Ctrl+C to detach"@);
}

/// The last line gives the number of hits in decimal.
pub proof fn law_done_line(hits: u64)
    ensures
        ({
            let t = done_text(hits);
            let d = text::decimal(hits as nat).len() as int;
            &&& t.len() == 7 + d + 7
            &&& stands_at(t, 0, "done \u{2014} "@)
            &&& text::reads_decimal(t.subrange(7, 7 + d), hits as int)
            &&& stands_at(t, 7 + d, " hit(s)"@)
        }),
{
    reveal_strlit("done \u{2014} ");
    reveal_strlit(" hit(s)");
    text::law_numbers_read_as_themselves(hits);
    let t = done_text(hits);
    let d = text::decimal(hits as nat).len() as int;
    assert(t.subrange(0, 7) =~= "done \u{2014} "@);
    assert(t.subrange(7, 7 + d) =~= text::decimal(hits as nat));
    assert(t.subrange(7 + d, 14 + d) =~= " hit(s)"@);
}

} // verus!

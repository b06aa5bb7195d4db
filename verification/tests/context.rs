use minhook_cli::context::{
    Ctx, CONTEXT_AMD64, CONTEXT_CONTROL, CONTEXT_FULL, CONTEXT_INTEGER, CTX_SIZE, OFF_EFLAGS,
    OFF_FLAGS, OFF_R8, OFF_R9, OFF_RCX, OFF_RDX, OFF_RIP, OFF_RSP, TRAP_FLAG,
};

fn patterned() -> Ctx {
    let mut ctx = Ctx::new(CONTEXT_FULL);
    for i in 0..CTX_SIZE {
        ctx.0[i] = (i % 251) as u8;
    }
    ctx
}

#[test]
fn context_flags() {
    assert_eq!(CONTEXT_AMD64, 0x0010_0000);
    assert_eq!(CONTEXT_CONTROL, 0x0010_0001);
    assert_eq!(CONTEXT_INTEGER, 0x0010_0002);
    assert_eq!(CONTEXT_FULL, 0x0010_000b);
}

#[test]
fn fresh_context_is_blank_but_for_its_flags() {
    let ctx = Ctx::new(0x0010_000b);
    assert_eq!(ctx.read_u32(OFF_FLAGS), 0x0010_000b);
    for (i, b) in ctx.0.iter().enumerate() {
        let expected = match i {
            0x30 => 0x0b,
            0x32 => 0x10,
            _ => 0,
        };
        assert_eq!(*b, expected, "byte {i}");
    }
}

#[test]
fn fields_read_back() {
    let mut ctx = patterned();
    ctx.write_u64(0, 0x0123_4567_89ab_cdef);
    assert_eq!(ctx.read_u64(0), 0x0123_4567_89ab_cdef);
    assert_eq!(ctx.0[0], 0xef);
    assert_eq!(ctx.0[7], 0x01);
    ctx.write_u32(CTX_SIZE - 4, 0x0102_0304);
    assert_eq!(ctx.read_u32(CTX_SIZE - 4), 0x0102_0304);
    assert_eq!(ctx.0[CTX_SIZE - 1], 0x01);
    ctx.write_u64(CTX_SIZE - 8, u64::MAX);
    assert_eq!(ctx.read_u64(CTX_SIZE - 8), u64::MAX);
}

#[test]
fn other_fields_stay() {
    let before = patterned();
    let mut ctx = patterned();
    ctx.set_rip(0xaaaa_bbbb_cccc_dddd);
    for i in 0..CTX_SIZE {
        if !(OFF_RIP..OFF_RIP + 8).contains(&i) {
            assert_eq!(ctx.0[i], before.0[i]);
        }
    }
    let mut ctx = patterned();
    ctx.set_eflags(0xdead_beef);
    for i in 0..CTX_SIZE {
        if !(OFF_EFLAGS..OFF_EFLAGS + 4).contains(&i) {
            assert_eq!(ctx.0[i], before.0[i]);
        }
    }
}

#[test]
fn registers_are_where_the_system_puts_them() {
    let mut ctx = Ctx::new(CONTEXT_FULL);
    ctx.write_u64(0x80, 1);
    ctx.write_u64(0x88, 2);
    ctx.write_u64(0x98, 3);
    ctx.write_u64(0xb8, 4);
    ctx.write_u64(0xc0, 5);
    ctx.write_u64(0xf8, 6);
    ctx.write_u32(0x44, 7);
    assert_eq!(ctx.rcx(), 1);
    assert_eq!(ctx.rdx(), 2);
    assert_eq!(ctx.rsp(), 3);
    assert_eq!(ctx.r8(), 4);
    assert_eq!(ctx.r9(), 5);
    assert_eq!(ctx.rip(), 6);
    assert_eq!(ctx.eflags(), 7);
    assert_eq!(
        [OFF_RCX, OFF_RDX, OFF_RSP, OFF_R8, OFF_R9, OFF_RIP],
        [0x80, 0x88, 0x98, 0xb8, 0xc0, 0xf8]
    );
}

#[test]
fn step_context_rewinds_and_traps() {
    let mut ctx = patterned();
    ctx.set_rip(0x1001);
    ctx.set_eflags(0x246);
    let before = ctx;
    ctx.rewind();
    ctx.set_trap();
    assert_eq!(ctx.rip(), 0x1000);
    assert_eq!(ctx.eflags(), 0x346);
    assert_eq!(ctx.eflags() & TRAP_FLAG, TRAP_FLAG);
    assert_eq!(ctx.rsp(), before.rsp());
    assert_eq!(ctx.rcx(), before.rcx());
    ctx.set_trap();
    assert_eq!(ctx.eflags(), 0x346);
}

#[test]
fn rewinding_stops_at_zero() {
    let mut ctx = Ctx::new(CONTEXT_FULL);
    ctx.rewind();
    assert_eq!(ctx.rip(), 0);
}

#[test]
fn trap_flag_is_cleared_again() {
    let mut ctx = patterned();
    ctx.set_eflags(0x246);
    let before = ctx;
    assert!(!ctx.traps());
    ctx.set_trap();
    assert!(ctx.traps());
    ctx.clear_trap();
    assert!(!ctx.traps());
    assert_eq!(ctx.0, before.0);
    ctx.clear_trap();
    assert_eq!(ctx.eflags(), 0x246);
}

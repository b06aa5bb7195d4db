use minhook_cli::context::{Ctx, CONTEXT_FULL};
use minhook_cli::memory::{read_byte, read_qword, write_byte};
use minhook_cli::module::{find_module_base, snapshot_failed, ModuleEntry};
use minhook_cli::report::{attached_line, done_line, hit_report, stack_line};
use minhook_cli::target::{address_in_module, choose_target, Target};

fn entry(name: &str, base: usize) -> ModuleEntry {
    let mut units: Vec<u16> = name.encode_utf16().collect();
    units.resize(256, 0);
    ModuleEntry { name: units, base }
}

fn reference_match(units: &[u16], name: &str) -> bool {
    let n = units.iter().position(|&c| c == 0).unwrap_or(units.len());
    let found = String::from_utf16_lossy(&units[..n]).to_ascii_lowercase();
    let want = name.to_ascii_lowercase();
    found == want || found == format!("{want}.dll")
}

#[test]
fn hit_report_in_full() {
    let mut ctx = Ctx::new(CONTEXT_FULL);
    ctx.write_u64(0x80, 0x11);
    ctx.write_u64(0x88, 0x22);
    ctx.write_u64(0xb8, 0x33);
    ctx.write_u64(0xc0, u64::MAX);
    assert_eq!(
        hit_report(7, 4242, 0x7ff6_7c00_1234, 0x7ff6_7c00_5678, &ctx),
        "[hit   7] tid=4242  rip=0x00007ff67c001234  ret=0x00007ff67c005678\n         \
         rcx=0x0000000000000011  rdx=0x0000000000000022\n         \
         r8 =0x0000000000000033  r9 =0xffffffffffffffff"
    );
    let long = hit_report(1234, 0, 0, 0, &ctx);
    assert!(long.starts_with("[hit 1234] tid=0  rip=0x0000000000000000  ret="));
}

#[test]
fn stack_line_shows_whole_words() {
    let bytes: Vec<u8> = (0..24).collect();
    assert_eq!(
        stack_line(&bytes, 24),
        "         stack: 0706050403020100 0f0e0d0c0b0a0908 1716151413121110"
    );
    assert_eq!(stack_line(&bytes, 23), "         stack: 0706050403020100 0f0e0d0c0b0a0908");
    assert_eq!(stack_line(&bytes, 7), "         stack:");
    assert_eq!(stack_line(&[], 0), "         stack:");
    assert_eq!(stack_line(&[], 7), "         stack:");
}

#[test]
fn first_and_last_lines() {
    assert_eq!(
        attached_line(1234, 0x7ff6_7c00_1234),
        "attached to pid 1234 \u{2014} INT3 armed at 0x7ff67c001234; Ctrl+C to detach"
    );
    assert_eq!(done_line(3), "done \u{2014} 3 hit(s)");
}

#[test]
fn reads_and_writes() {
    let denied: Result<usize, String> = Err("denied".to_string());
    assert_eq!(read_byte(0x1000, 0x55, &Ok(1)), Ok(0x55));
    assert_eq!(read_byte(0x1000, 0x55, &Ok(0)), Err("short read at 0x1000".to_string()));
    assert_eq!(read_byte(0x1000, 0x55, &denied), Err("ReadProcessMemory at 0x1000: denied".to_string()));
    assert_eq!(write_byte(0xabc, &Ok(1)), Ok(()));
    assert_eq!(write_byte(0xabc, &Ok(0)), Err("short write at 0xabc".to_string()));
    assert_eq!(write_byte(0xabc, &denied), Err("WriteProcessMemory at 0xabc: denied".to_string()));
    let bytes = [8u8, 7, 6, 5, 4, 3, 2, 1];
    assert_eq!(read_qword(0, &bytes, &Ok(8)), Ok(0x0102_0304_0506_0708));
    assert_eq!(read_qword(0, &bytes, &Ok(7)), Err("short read at 0x0".to_string()));
    assert_eq!(read_qword(0, &bytes, &denied), Err("ReadProcessMemory at 0x0: denied".to_string()));
}

#[test]
fn modules_by_name() {
    let entries = vec![entry("app.exe", 1), entry("Foo.DLL", 2), entry("foo.dll", 3), entry("bar", 4)];
    assert_eq!(find_module_base(9, "foo.dll", &entries), Ok(2));
    assert_eq!(find_module_base(9, "FOO", &entries), Ok(2));
    assert_eq!(find_module_base(9, "APP.exe", &entries), Ok(1));
    assert_eq!(find_module_base(9, "bar", &entries), Ok(4));
    assert_eq!(
        find_module_base(9, "bar.dll", &entries),
        Err("module not found in pid 9: bar.dll".to_string())
    );
    assert_eq!(find_module_base(9, "app", &entries), Err("module not found in pid 9: app".to_string()));
    assert_eq!(find_module_base(9, "Foo.", &[].into()), Err("module not found in pid 9: Foo.".to_string()));
}

#[test]
fn module_names_decode_like_those_of_the_standard_library() {
    let buffers: Vec<Vec<u16>> = vec![
        vec![],
        vec![0],
        vec![0, 65],
        vec![65, 0, 66],
        vec![0xd834, 0xdd1e, 0x6d],
        vec![0xd834],
        vec![0xd834, 0],
        vec![0xdd1e, 0xd834],
        vec![0xd834, 0xd834, 0xdd1e],
        vec![0xdbff, 0xdfff],
        vec![0xd800, 0xdc00],
        vec![0xd7ff, 0xe000, 0xffff],
        vec![0xfffd],
        "\u{c9}.DLL".encode_utf16().collect(),
        "A.dll".encode_utf16().collect(),
        "[@Z`{az".encode_utf16().collect(),
    ];
    let names = [
        "", "A", "a", "\u{1d11e}m", "\u{fffd}", "\u{fffd}\u{fffd}", "\u{fffd}\u{1d11e}", "\u{10ffff}",
        "\u{10000}", "\u{d7ff}\u{e000}\u{ffff}", "\u{c9}", "\u{e9}", "\u{c9}.dll", "a.DLL", "[@z`{AZ",
    ];
    for units in &buffers {
        for name in names {
            let module = ModuleEntry { name: units.clone(), base: 1 };
            assert_eq!(module.matches(name), reference_match(units, name), "{units:x?} {name:?}");
        }
    }
}

#[test]
fn choice_of_the_target() {
    assert!(matches!(choose_target(Some(5), None, None), Ok(Target::Address(5))));
    assert!(matches!(choose_target(Some(5), Some("m".to_string()), Some(1)), Ok(Target::Address(5))));
    match choose_target(None, Some("foo.dll".to_string()), Some(0x1b520)) {
        Ok(Target::InModule { module, rva }) => {
            assert_eq!(module, "foo.dll");
            assert_eq!(rva, 0x1b520);
        }
        _ => panic!("a module and an offset make a target"),
    }
    match choose_target(None, None, Some(1)) {
        Err(e) => assert_eq!(e, "--addr or --module+--rva required"),
        Ok(_) => panic!("an offset alone is no target"),
    }
    match choose_target(None, Some("m".to_string()), None) {
        Err(e) => assert_eq!(e, "--rva required with --module"),
        Ok(_) => panic!("a module alone is no target"),
    }
    assert_eq!(address_in_module(0x1000, 0x234), 0x1234);
}

#[test]
fn modules_that_cannot_be_listed() {
    assert_eq!(snapshot_failed(12, "denied"), "snapshot pid 12: denied");
}

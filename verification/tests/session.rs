use minhook_cli::context::{Ctx, CONTEXT_FULL};
use minhook_cli::session::{
    classify, stack_len, DebugEvent, EventKind, Reply, Request, Session, Settings, Stream,
    DBG_CONTINUE, DBG_EXCEPTION_NOT_HANDLED, LATE_EVENTS_MAX,
};
use windows::Win32::Foundation::{EXCEPTION_ACCESS_VIOLATION, EXCEPTION_BREAKPOINT, EXCEPTION_SINGLE_STEP};
use windows::Win32::System::Diagnostics::Debug::{
    CREATE_PROCESS_DEBUG_EVENT, EXCEPTION_DEBUG_EVENT, EXIT_PROCESS_DEBUG_EVENT,
    EXIT_THREAD_DEBUG_EVENT, LOAD_DLL_DEBUG_EVENT,
};

const PID: u32 = 1234;
const TARGET: usize = 0x1000;
const PROCESS: isize = 77;
const ORIGINAL: u8 = 0x48;

fn settings(stack_words: usize, max_hits: Option<u64>) -> Settings {
    Settings { pid: PID, target: TARGET, stack_words, max_hits }
}

fn exception(code: u32, address: usize, thread_id: u32) -> Reply {
    Reply::Event(Some(DebugEvent {
        code: EXCEPTION_DEBUG_EVENT.0,
        process_id: PID,
        thread_id,
        exception_code: code,
        exception_address: address,
    }))
}

fn hit(thread_id: u32) -> Reply {
    exception(EXCEPTION_BREAKPOINT.0 as u32, TARGET, thread_id)
}

fn stepped(thread_id: u32) -> Reply {
    exception(EXCEPTION_SINGLE_STEP.0 as u32, TARGET + 3, thread_id)
}

fn event(code: u32) -> Reply {
    Reply::Event(Some(DebugEvent {
        code,
        process_id: PID,
        thread_id: 5,
        exception_code: EXCEPTION_BREAKPOINT.0 as u32,
        exception_address: TARGET,
    }))
}

fn done() -> Reply {
    Reply::Outcome(Ok(()))
}

fn denied() -> Reply {
    Reply::Outcome(Err("denied".to_string()))
}

fn written() -> Reply {
    Reply::Written(Ok(1))
}

fn read(buffer: Vec<u8>) -> Reply {
    let n = buffer.len();
    Reply::Read { buffer, outcome: Ok(n) }
}

fn stopped_context() -> Ctx {
    let mut ctx = Ctx::new(CONTEXT_FULL);
    ctx.set_rip(TARGET as u64 + 1);
    ctx.set_eflags(0x246);
    ctx.write_u64(0x98, 0x5000);
    ctx.write_u64(0x80, 1);
    ctx.write_u64(0x88, 2);
    ctx.write_u64(0xb8, 3);
    ctx.write_u64(0xc0, 4);
    ctx
}

fn describe(request: &Request) -> String {
    match request {
        Request::InstallHandler => "install".to_string(),
        Request::OpenProcess { pid } => format!("open process {pid}"),
        Request::Read { process, address, len } => format!("read {process} {address:x} {len}"),
        Request::ReadStack { process, address, words } => format!("stack {process} {address:x} {words}"),
        Request::Write { process, address, byte } => format!("write {process} {address:x} {byte:x}"),
        Request::Attach { pid } => format!("attach {pid}"),
        Request::PollInterrupt => "poll".to_string(),
        Request::WaitEvent { milliseconds } => format!("wait {milliseconds}"),
        Request::OpenThread { thread_id } => format!("open thread {thread_id}"),
        Request::GetContext { thread, context } => {
            format!("get {thread} {:x} {:x}", context.read_u32(0x30), context.rip())
        }
        Request::SetContext { thread, context } => {
            format!("set {thread} {:x} {:x}", context.rip(), context.eflags())
        }
        Request::Suspend { thread } => format!("suspend {thread}"),
        Request::Resume { thread } => format!("resume {thread}"),
        Request::Close { handle } => format!("close {handle}"),
        Request::Continue { process_id, thread_id, status } => {
            format!("continue {process_id} {thread_id} {status:x}")
        }
        Request::Detach { pid } => format!("detach {pid}"),
        Request::Exit => "exit".to_string(),
    }
}

fn step(session: Session, reply: Reply, log: &mut Vec<String>) -> Session {
    assert!(session.accepts(&reply), "{}", describe(&session.request()));
    let (session, output) = session.advance(reply);
    if let Some(output) = output {
        let stream = match output.stream {
            Stream::Stdout => "out",
            Stream::Stderr => "err",
        };
        log.push(format!("{stream}: {}", output.text));
    }
    log.push(describe(&session.request()));
    session
}

fn play(mut session: Session, replies: Vec<Reply>) -> (Session, Vec<String>) {
    let mut log = vec![];
    for reply in replies {
        session = step(session, reply, &mut log);
    }
    (session, log)
}

fn way_in() -> Vec<Reply> {
    vec![done(), Reply::Handle(Ok(PROCESS)), read(vec![ORIGINAL]), written(), done()]
}

fn tracing(stack_words: usize, max_hits: Option<u64>) -> Session {
    play(Session::new(settings(stack_words, max_hits)), way_in()).0
}

fn quick_hit(thread_id: u32, thread: isize) -> Vec<Reply> {
    vec![
        Reply::Interrupted(false),
        hit(thread_id),
        Reply::Handle(Ok(thread)),
        Reply::Context(Some(stopped_context())),
        read(vec![0; 8]),
        written(),
        Reply::ContextSet(true),
    ]
}

const BANNER: &str = "err: attached to pid 1234 \u{2014} INT3 armed at 0x1000; Ctrl+C to detach";
const WAY_OUT: [&str; 3] = ["write 77 1000 48", "detach 1234", "close 77"];

/// A session that has failed, or whose process has ended, takes nothing but these three answers.
fn ends(session: Session, failure: Option<&str>) {
    let (session, log) = play(session, vec![Reply::Written(Ok(0)), denied(), denied()]);
    let mut expected = vec!["detach 1234".to_string()];
    if failure.is_none() {
        assert!(log[1].starts_with("err: done \u{2014} "));
        expected.push(log[1].clone());
    }
    expected.push("close 77".to_string());
    expected.push("exit".to_string());
    assert_eq!(log, expected);
    match (session.into_result(), failure) {
        (Ok(()), None) => {}
        (Err(e), Some(message)) => assert_eq!(e, message),
        (result, _) => panic!("{result:?}"),
    }
}

fn flagged_context() -> Ctx {
    let mut ctx = stopped_context();
    ctx.set_rip(TARGET as u64);
    ctx.set_trap();
    ctx
}

/// Answers for a thread whose trap flag is cleared.
fn release(thread: isize) -> Vec<Reply> {
    vec![
        Reply::Handle(Ok(thread)),
        done(),
        Reply::Context(Some(flagged_context())),
        Reply::ContextSet(true),
        done(),
        done(),
    ]
}

#[test]
fn continue_statuses_are_those_of_the_system() {
    assert_eq!(DBG_CONTINUE, windows::Win32::Foundation::DBG_CONTINUE.0 as u32);
    assert_eq!(
        DBG_EXCEPTION_NOT_HANDLED,
        windows::Win32::Foundation::DBG_EXCEPTION_NOT_HANDLED.0 as u32
    );
}

#[test]
fn events_are_told_apart_by_the_codes_of_the_system() {
    let kind = |code: u32, exception_code: u32, exception_address: usize| {
        let event = DebugEvent { code, process_id: 1, thread_id: 2, exception_code, exception_address };
        classify(&event, TARGET)
    };
    let exception = EXCEPTION_DEBUG_EVENT.0;
    let breakpoint = EXCEPTION_BREAKPOINT.0 as u32;
    let single_step = EXCEPTION_SINGLE_STEP.0 as u32;
    let violation = EXCEPTION_ACCESS_VIOLATION.0 as u32;
    assert_eq!(kind(exception, breakpoint, TARGET), EventKind::Hit);
    assert_eq!(kind(exception, breakpoint, TARGET + 1), EventKind::OtherBreakpoint);
    assert_eq!(kind(exception, single_step, TARGET), EventKind::Stepped);
    assert_eq!(kind(exception, single_step, 0), EventKind::Stepped);
    assert_eq!(kind(exception, violation, TARGET), EventKind::OtherException);
    assert_eq!(kind(EXIT_PROCESS_DEBUG_EVENT.0, breakpoint, TARGET), EventKind::Exited);
    for code in [CREATE_PROCESS_DEBUG_EVENT, EXIT_THREAD_DEBUG_EVENT, LOAD_DLL_DEBUG_EVENT] {
        assert_eq!(kind(code.0, breakpoint, TARGET), EventKind::Other);
    }
}

#[test]
fn way_in_step_by_step() {
    let session = Session::new(settings(8, None));
    assert_eq!(describe(&session.request()), "install");
    let (_, log) = play(session, way_in());
    assert_eq!(
        log,
        ["open process 1234", "read 77 1000 1", "write 77 1000 cc", "attach 1234", BANNER, "poll"]
    );
}

#[test]
fn hit_with_stack_then_step_then_interrupt() {
    let (session, log) = play(
        tracing(2, None),
        vec![
            Reply::Interrupted(false),
            Reply::Event(None),
            Reply::Interrupted(false),
            hit(9),
            Reply::Handle(Ok(500)),
            Reply::Context(Some(stopped_context())),
            read(vec![0x78, 0x56, 0x34, 0x12, 0, 0, 0, 0]),
            read((0..16).collect()),
            written(),
            Reply::ContextSet(true),
            done(),
            Reply::Interrupted(false),
            stepped(9),
            written(),
            denied(),
            done(),
            Reply::Interrupted(true),
        ],
    );
    assert_eq!(
        log,
        [
            "wait 250",
            "poll",
            "wait 250",
            "open thread 9",
            "get 500 10000b 0",
            "read 77 5000 8",
            "out: [hit   1] tid=9  rip=0x0000000000001000  ret=0x0000000012345678\n         \
             rcx=0x0000000000000001  rdx=0x0000000000000002\n         \
             r8 =0x0000000000000003  r9 =0x0000000000000004",
            "stack 77 5000 2",
            "out:          stack: 0706050403020100 0f0e0d0c0b0a0908",
            "write 77 1000 48",
            "set 500 1000 346",
            "continue 1234 9 10002",
            "poll",
            "wait 250",
            "write 77 1000 cc",
            "close 500",
            "continue 1234 9 10002",
            "poll",
            "write 77 1000 48",
        ]
    );
    let (session, log) = play(session, vec![written(), Reply::Event(None), done(), done()]);
    assert_eq!(log, ["wait 0", "detach 1234", "err: done \u{2014} 1 hit(s)", "close 77", "exit"]);
    assert!(!session.accepts(&done()));
    assert_eq!(session.into_result(), Ok(()));
}

#[test]
fn unreadable_stack_is_left_out() {
    let (_, log) = play(
        tracing(2, None),
        vec![
            Reply::Interrupted(false),
            hit(9),
            Reply::Handle(Ok(500)),
            Reply::Context(Some(stopped_context())),
            Reply::Read { buffer: vec![0xff; 8], outcome: Err("denied".to_string()) },
            Reply::Read { buffer: vec![0; 16], outcome: Err("denied".to_string()) },
        ],
    );
    assert!(log[4].contains("ret=0x0000000000000000"));
    assert_eq!(log[5..], ["stack 77 5000 2", "write 77 1000 48"]);
}

#[test]
fn short_read_of_the_return_address_counts_as_none() {
    let (_, log) = play(
        tracing(0, None),
        vec![
            Reply::Interrupted(false),
            hit(9),
            Reply::Handle(Ok(500)),
            Reply::Context(Some(stopped_context())),
            Reply::Read { buffer: vec![0xff; 8], outcome: Ok(4) },
        ],
    );
    assert!(log[4].contains("ret=0x0000000000000000"));
    assert_eq!(log[5], "write 77 1000 48");
}

#[test]
fn second_hit_before_the_step_closes_the_first_thread() {
    let (session, _) = play(tracing(0, None), quick_hit(9, 500));
    let (session, _) = play(session, vec![done()]);
    let (session, log) = play(session, quick_hit(10, 501));
    assert_eq!(log[log.len() - 1], "close 500");
    let (session, log) = play(session, vec![done(), done(), Reply::Interrupted(false), stepped(10), written()]);
    assert_eq!(log, ["continue 1234 10 10002", "poll", "wait 250", "write 77 1000 cc", "close 501"]);
    let (session, _) = play(session, vec![done(), done(), Reply::Interrupted(true)]);
    let (session, log) = play(session, vec![written()]);
    assert_eq!(log, ["open thread 9"]);
    let (session, log) = play(session, release(600));
    assert_eq!(
        log,
        ["suspend 600", "get 600 10000b 0", "set 600 1000 246", "resume 600", "close 600", "wait 0"]
    );
    let (session, _) = play(session, vec![Reply::Event(None), done(), done()]);
    assert_eq!(session.into_result(), Ok(()));
}

#[test]
fn step_without_a_hit_plants_the_breakpoint_again() {
    let (_, log) = play(tracing(0, None), vec![Reply::Interrupted(false), stepped(3), written(), done()]);
    assert_eq!(log, ["wait 250", "write 77 1000 cc", "continue 1234 3 10002", "poll"]);
}

#[test]
fn last_hit_detaches() {
    let (session, log) = play(tracing(0, Some(2)), quick_hit(9, 500));
    assert_eq!(log[log.len() - 1], "continue 1234 9 10002");
    let (session, _) = play(session, vec![done()]);
    let (session, log) = play(session, quick_hit(9, 501));
    assert_eq!(log[log.len() - 1], "close 500");
    let (session, log) = play(session, vec![done(), done()]);
    assert_eq!(
        log,
        ["err: max-hits reached, detaching", "continue 1234 9 10002", WAY_OUT[0]]
    );
    let (session, log) = play(session, vec![written()]);
    assert_eq!(log, ["open thread 9"]);
    let (session, log) = play(session, release(600));
    assert_eq!(log[2], "set 600 1000 246");
    let (session, log) = play(session, vec![Reply::Event(None), done(), done()]);
    assert_eq!(log, [WAY_OUT[1], "err: done \u{2014} 2 hit(s)", WAY_OUT[2], "exit"]);
    assert_eq!(session.into_result(), Ok(()));
}

#[test]
fn limit_of_zero_lets_one_hit_through() {
    for max in [0, 1] {
        let (session, log) = play(tracing(0, Some(max)), quick_hit(9, 500));
        assert_eq!(
            log[log.len() - 2..],
            ["err: max-hits reached, detaching", "continue 1234 9 10002"]
        );
        let (session, log) = play(session, vec![done(), written()]);
        assert_eq!(log, ["write 77 1000 48", "open thread 9"]);
        let (session, _) = play(session, release(600));
        let (session, log) = play(session, vec![Reply::Event(None), done(), done()]);
        assert_eq!(log, ["detach 1234", "err: done \u{2014} 1 hit(s)", "close 77", "exit"]);
        assert_eq!(session.into_result(), Ok(()));
    }
}

#[test]
fn end_of_the_process_ends_the_session() {
    let (session, log) =
        play(tracing(0, None), vec![Reply::Interrupted(false), event(EXIT_PROCESS_DEBUG_EVENT.0)]);
    assert_eq!(log, ["wait 250", "err: target exited", "write 77 1000 48"]);
    ends(session, None);
}

#[test]
fn foreign_events_are_answered() {
    let cases = [
        (event(LOAD_DLL_DEBUG_EVENT.0), "continue 1234 5 10002"),
        (exception(EXCEPTION_BREAKPOINT.0 as u32, 0x2000, 6), "continue 1234 6 10002"),
        (exception(EXCEPTION_ACCESS_VIOLATION.0 as u32, TARGET, 7), "continue 1234 7 80010001"),
    ];
    for (reply, expected) in cases {
        let (_, log) = play(tracing(0, None), vec![Reply::Interrupted(false), reply, done()]);
        assert_eq!(log, ["wait 250", expected, "poll"]);
    }
}

#[test]
fn failures_on_the_way_in() {
    let cases = [
        (0, denied(), "SetConsoleCtrlHandler: denied", vec![]),
        (1, Reply::Handle(Err("denied".to_string())), "OpenProcess(1234): denied", vec![]),
        (
            2,
            Reply::Read { buffer: vec![0], outcome: Err("denied".to_string()) },
            "ReadProcessMemory at 0x1000: denied",
            vec!["close 77"],
        ),
        (2, Reply::Read { buffer: vec![0], outcome: Ok(0) }, "short read at 0x1000", vec!["close 77"]),
        (
            3,
            Reply::Written(Err("denied".to_string())),
            "WriteProcessMemory at 0x1000: denied",
            vec!["close 77"],
        ),
        (3, Reply::Written(Ok(0)), "short write at 0x1000", vec!["close 77"]),
        (4, denied(), "DebugActiveProcess(1234): denied", vec!["close 77"]),
    ];
    for (n, reply, message, cleanup) in cases {
        let replies: Vec<Reply> = way_in().into_iter().take(n).collect();
        let (session, _) = play(Session::new(settings(8, None)), replies);
        let mut log = vec![];
        let mut session = step(session, reply, &mut log);
        for _ in &cleanup {
            session = step(session, done(), &mut log);
        }
        let mut expected = cleanup;
        expected.push("exit");
        assert_eq!(log, expected);
        assert_eq!(session.into_result(), Err(message.to_string()));
    }
}

#[test]
fn failures_while_tracing() {
    let cases = [
        (2, Reply::Handle(Err("denied".to_string())), "OpenThread(9): denied"),
        (3, Reply::Context(None), "GetThreadContext failed"),
        (5, Reply::Written(Err("denied".to_string())), "WriteProcessMemory at 0x1000: denied"),
        (5, Reply::Written(Ok(0)), "short write at 0x1000"),
        (6, Reply::ContextSet(false), "SetThreadContext failed"),
        (7, denied(), "ContinueDebugEvent: denied"),
    ];
    for (n, reply, message) in cases {
        let replies: Vec<Reply> = quick_hit(9, 500).into_iter().take(n).collect();
        let (session, _) = play(tracing(0, None), replies);
        let mut log = vec![];
        let session = step(session, reply, &mut log);
        assert_eq!(log, [WAY_OUT[0]]);
        ends(session, Some(message));
    }
    let (session, _) = play(tracing(0, None), vec![Reply::Interrupted(false), stepped(9)]);
    let mut log = vec![];
    let session = step(session, Reply::Written(Ok(0)), &mut log);
    assert_eq!(log, [WAY_OUT[0]]);
    ends(session, Some("short write at 0x1000"));
}

#[test]
fn session_that_is_given_up_cleans_up() {
    ends(tracing(0, None).fail("out of memory".to_string()), Some("out of memory"));
    let session = Session::new(settings(0, None)).fail("no".to_string());
    assert_eq!(describe(&session.request()), "exit");
    assert_eq!(session.into_result(), Err("no".to_string()));
}

#[test]
fn session_that_is_given_up_twice_goes_on_as_it_was() {
    let session = Session::new(settings(0, None)).fail("first".to_string()).fail("second".to_string());
    assert_eq!(describe(&session.request()), "exit");
    assert_eq!(session.into_result(), Err("first".to_string()));
    let (session, _) = play(tracing(0, None).fail("first".to_string()), vec![written()]);
    let session = session.fail("second".to_string());
    assert_eq!(describe(&session.request()), "detach 1234");
    let (session, _) = play(session, vec![done()]);
    let session = session.fail("third".to_string());
    assert_eq!(describe(&session.request()), "close 77");
    let (session, _) = play(session, vec![done()]);
    assert_eq!(session.into_result(), Err("first".to_string()));
}

#[test]
fn interrupt_between_a_hit_and_its_step_clears_the_trap_flag() {
    let (session, log) = play(tracing(0, None), quick_hit(9, 500));
    assert_eq!(log[log.len() - 2..], ["set 500 1000 346", "continue 1234 9 10002"]);
    let (session, log) = play(session, vec![done(), Reply::Interrupted(true), written()]);
    assert_eq!(log, ["poll", "write 77 1000 48", "open thread 9"]);
    let (session, log) = play(session, release(600));
    assert_eq!(
        log,
        ["suspend 600", "get 600 10000b 0", "set 600 1000 246", "resume 600", "close 600", "wait 0"]
    );
    let (session, log) = play(session, vec![Reply::Event(None), done(), done()]);
    assert_eq!(log, ["detach 1234", "err: done \u{2014} 1 hit(s)", "close 77", "exit"]);
    assert_eq!(session.into_result(), Ok(()));
}

#[test]
fn step_that_was_on_its_way_is_received_before_detaching() {
    let (session, _) = play(tracing(0, None), quick_hit(9, 500));
    let (session, _) = play(session, vec![done(), Reply::Interrupted(true), written()]);
    let (session, _) = play(session, release(600));
    let (session, log) = play(session, vec![stepped(9), done(), Reply::Event(None), done(), done()]);
    assert_eq!(
        log,
        [
            "continue 1234 9 10002",
            "wait 0",
            "detach 1234",
            "err: done \u{2014} 1 hit(s)",
            "close 77",
            "exit",
        ]
    );
    assert_eq!(session.into_result(), Ok(()));
}

#[test]
fn hit_that_was_on_its_way_is_put_back_on_the_target() {
    let (session, _) = play(tracing(0, None), vec![Reply::Interrupted(true), written()]);
    let (session, log) = play(
        session,
        vec![
            hit(12),
            Reply::Handle(Ok(601)),
            done(),
            Reply::Context(Some(stopped_context())),
            Reply::ContextSet(true),
            done(),
            done(),
            done(),
            Reply::Event(None),
            done(),
        ],
    );
    assert_eq!(
        log,
        [
            "open thread 12",
            "suspend 601",
            "get 601 10000b 0",
            "set 601 1000 246",
            "resume 601",
            "close 601",
            "continue 1234 12 10002",
            "wait 0",
            "detach 1234",
            "err: done \u{2014} 0 hit(s)",
            "close 77",
        ]
    );
    let (session, _) = play(session, vec![done()]);
    assert_eq!(session.into_result(), Ok(()));
}

#[test]
fn other_late_events() {
    let late = |reply: Reply| {
        let (session, _) = play(tracing(0, None), vec![Reply::Interrupted(true), written()]);
        play(session, vec![reply])
    };
    assert_eq!(late(event(LOAD_DLL_DEBUG_EVENT.0)).1, ["continue 1234 5 10002"]);
    let violation = EXCEPTION_ACCESS_VIOLATION.0 as u32;
    let (session, log) = late(exception(violation, TARGET, 7));
    assert_eq!(log, ["continue 1234 7 80010001"]);
    assert_eq!(play(session, vec![denied()]).1, ["detach 1234"]);
    let foreign = exception(EXCEPTION_BREAKPOINT.0 as u32, 0x2000, 6);
    assert_eq!(late(foreign).1, ["continue 1234 6 10002"]);
    assert_eq!(late(event(EXIT_PROCESS_DEBUG_EVENT.0)).1, ["detach 1234"]);
}

#[test]
fn thread_that_cannot_be_put_right_does_not_hold_up_the_end() {
    let cases = [
        (vec![Reply::Handle(Err("gone".to_string()))], "wait 0"),
        (vec![Reply::Handle(Ok(600)), denied()], "close 600"),
        (vec![Reply::Handle(Ok(600)), done(), Reply::Context(None)], "resume 600"),
        (
            vec![
                Reply::Handle(Ok(600)),
                done(),
                Reply::Context(Some(flagged_context())),
                Reply::ContextSet(false),
            ],
            "resume 600",
        ),
    ];
    for (replies, expected) in cases {
        let (session, _) = play(tracing(0, None), quick_hit(9, 500));
        let (session, _) = play(session, vec![done(), Reply::Interrupted(true), written()]);
        let (_, log) = play(session, replies);
        assert_eq!(log[log.len() - 1], expected);
    }
}

#[test]
fn trap_flag_of_the_process_itself_is_left_alone() {
    let mut replies = quick_hit(9, 500);
    let mut own = stopped_context();
    own.set_trap();
    replies[3] = Reply::Context(Some(own));
    let (session, _) = play(tracing(0, None), replies);
    let (_, log) = play(session, vec![done(), Reply::Interrupted(true), written()]);
    assert_eq!(log, ["poll", "write 77 1000 48", "wait 0"]);
}

#[test]
fn answers_to_other_questions_are_not_accepted() {
    let session = tracing(0, None);
    assert!(session.accepts(&Reply::Interrupted(true)));
    assert!(!session.accepts(&done()));
    assert!(!session.accepts(&written()));
    assert!(!session.accepts(&hit(1)));
    let (session, _) = play(session, vec![Reply::Interrupted(false)]);
    assert!(session.accepts(&hit(1)));
    assert!(session.accepts(&Reply::Event(None)));
    let session = Session::new(settings(0, None));
    let (session, _) = play(session, vec![done(), Reply::Handle(Ok(PROCESS))]);
    assert!(!session.accepts(&read(vec![])));
    assert!(!session.accepts(&read(vec![1, 2])));
    let (session, _) = play(
        tracing(1, None),
        vec![
            Reply::Interrupted(false),
            hit(9),
            Reply::Handle(Ok(500)),
            Reply::Context(Some(stopped_context())),
            read(vec![0; 8]),
        ],
    );
    assert!(!session.accepts(&Reply::Read { buffer: vec![0; 8], outcome: Ok(16) }));
    assert!(session.accepts(&Reply::Read { buffer: vec![0; 8], outcome: Ok(15) }));
}

#[test]
fn stack_buffer_length() {
    assert_eq!(stack_len(0), Some(0));
    assert_eq!(stack_len(8), Some(64));
    assert_eq!(stack_len(isize::MAX as usize / 8), Some(isize::MAX as usize / 8 * 8));
    assert_eq!(stack_len(isize::MAX as usize / 8 + 1), None);
    assert_eq!(stack_len(usize::MAX), None);
}

#[test]
fn hits_are_numbered_in_order() {
    let mut session = tracing(0, None);
    for n in 1..=3 {
        let (next, log) = play(session, quick_hit(9, 500));
        let reports: Vec<&String> = log.iter().filter(|line| line.starts_with("out: ")).collect();
        assert_eq!(reports.len(), 1);
        assert!(reports[0].starts_with(&format!("out: [hit   {n}] tid=9 ")));
        let (next, _) = play(next, vec![done(), Reply::Interrupted(false), stepped(9), written(), done(), done()]);
        session = next;
    }
    let (session, _) = play(session, vec![Reply::Interrupted(true)]);
    let (_, log) = play(session, vec![written(), Reply::Event(None), done()]);
    assert_eq!(log, ["wait 0", "detach 1234", "err: done \u{2014} 3 hit(s)", "close 77"]);
}

#[test]
fn byte_that_cannot_be_put_back_does_not_hold_up_the_end() {
    let (session, _) = play(tracing(0, None), quick_hit(9, 500));
    let (session, _) = play(session, vec![done(), Reply::Interrupted(true)]);
    ends(session, None);
}

#[test]
fn process_that_keeps_raising_events_cannot_hold_a_stopped_session() {
    let (mut session, _) = play(tracing(0, None), vec![Reply::Interrupted(true), written()]);
    let violation = EXCEPTION_ACCESS_VIOLATION.0 as u32;
    let mut log = vec![];
    for n in 1..=LATE_EVENTS_MAX {
        assert_eq!(describe(&session.request()), "wait 0", "event {n}");
        session = step(session, exception(violation, 0x2000, 7), &mut log);
        session = step(session, done(), &mut log);
    }
    assert_eq!(describe(&session.request()), "detach 1234");
    let (session, _) = play(session, vec![done(), done()]);
    assert_eq!(session.into_result(), Ok(()));
}

#[test]
fn target_that_is_a_breakpoint_itself_cannot_hold_a_stopped_session() {
    let mut replies = way_in();
    replies[2] = read(vec![0xcc]);
    replies.push(Reply::Interrupted(true));
    replies.push(written());
    let (mut session, _) = play(Session::new(settings(0, None)), replies);
    let mut log = vec![];
    let mut answers: u32 = 0;
    loop {
        let reply = match session.request() {
            Request::WaitEvent { .. } => hit(9),
            Request::OpenThread { .. } => Reply::Handle(Ok(600)),
            Request::GetContext { .. } => Reply::Context(Some(stopped_context())),
            Request::SetContext { .. } => Reply::ContextSet(true),
            Request::Exit => break,
            _ => done(),
        };
        session = step(session, reply, &mut log);
        answers += 1;
    }
    assert_eq!(answers, 8 * LATE_EVENTS_MAX + 2);
    assert_eq!(log[log.len() - 3], "err: done \u{2014} 0 hit(s)");
    assert_eq!(session.into_result(), Ok(()));
}

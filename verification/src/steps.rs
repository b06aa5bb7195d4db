//! What a session does with each answer, told by what the answer holds, and what it asks for next.
//!
//! [`laws`](crate::laws) speaks of whole sessions; the laws here speak of one answer each.
use vstd::prelude::*;

use crate::bytes;
use crate::context;
use crate::context::Ctx;
use crate::memory;
use crate::report;
use crate::session;
use crate::session::{
    DebugEvent, Errand, EventId, EventKind, Line, Output, Phase, Reply, Request, Settings, State,
    Stream,
};
use crate::text;

verus! {

/// A session starts with nothing: no handle, no hit and no failure, and with all the late events
/// that it may take.
pub proof fn law_start(settings: Settings)
    ensures
        ({
            let state = State::initial(settings);
            &&& state.settings == settings
            &&& state.phase is InstallHandler
            &&& state.hits == 0
            &&& state.last_thread is None
            &&& state.flagged.len() == 0
            &&& !state.stopping && !state.exited
            &&& state.late_left == 1024
            &&& state.failure is None
        }),
{
}

/// Each request has one kind of answer. A buffer is as long as what was asked for, and the number
/// of bytes of the stack that were read lies in the buffer. Only a hit that could not be counted
/// any more is turned away.
pub proof fn law_answers(state: State, request: Request, reply: Reply)
    requires
        state.asks(request),
    ensures
        state.accepts(reply) <==> match request {
            Request::InstallHandler => reply is Outcome,
            Request::OpenProcess { .. } => reply is Handle,
            Request::Read { len, .. } => reply matches Reply::Read { buffer, .. } && buffer@.len()
                == len,
            Request::ReadStack { .. } => reply matches Reply::Read { buffer, outcome } && (
            outcome matches Ok(n) ==> 8 * (n as int / 8) <= buffer@.len()),
            Request::Write { .. } => reply is Written,
            Request::Attach { .. } => reply is Outcome,
            Request::PollInterrupt => reply is Interrupted,
            Request::WaitEvent { milliseconds } => reply is Event && !(milliseconds > 0
                && state.hits == u64::MAX && (reply->Event_0 matches Some(e) && e.code == 1
                && e.exception_code == 0x8000_0003 && e.exception_address
                == state.settings.target)),
            Request::OpenThread { .. } => reply is Handle,
            Request::GetContext { .. } => reply is Context,
            Request::SetContext { .. } => reply is ContextSet,
            Request::Suspend { .. } => reply is Outcome,
            Request::Resume { .. } => reply is Outcome,
            Request::Close { .. } => reply is Outcome,
            Request::Continue { .. } => reply is Outcome,
            Request::Detach { .. } => reply is Outcome,
            Request::Exit => false,
        },
{
}

/// What is printed is the line, on its stream, and nothing where there is none.
pub proof fn law_lines_are_shown(output: Option<Output>, line: Option<Line>)
    ensures
        session::shows(output, line) ==> (output is None <==> line is None),
        session::shows(output, line) && line is Some ==> output->0.stream == line->0.stream
            && output->0.text@ == line->0.text,
{
}

/// On the way in the session installs its handler, opens the process, reads one byte at the target,
/// writes the breakpoint there, and attaches.
pub proof fn law_way_in(state: State, request: Request)
    requires
        state.asks(request),
    ensures
        ({
            let pid = state.settings.pid;
            let address = state.settings.target;
            let process = state.process;
            &&& state.phase is InstallHandler ==> request is InstallHandler
            &&& state.phase is OpenProcess ==> request == (Request::OpenProcess { pid })
            &&& state.phase is ReadOriginal ==> request == (Request::Read {
                process,
                address,
                len: 1,
            })
            &&& state.phase is Arm ==> request == (Request::Write { process, address, byte: 0xCC })
            &&& state.phase is Attach ==> request == (Request::Attach { pid })
        }),
{
}

/// On the way in every success leads to the next request: the handle that was opened is kept, and so
/// is the byte that was read. Only attaching is told.
pub proof fn law_way_in_succeeds(
    state: State,
    done: Reply,
    opened: Reply,
    handle: isize,
    read: Reply,
    buffer: Vec<u8>,
    written: Reply,
)
    requires
        done == Reply::Outcome(Ok(())),
        opened == Reply::Handle(Ok(handle)),
        read == (Reply::Read { buffer, outcome: Ok(1) }),
        written == Reply::Written(Ok(1)),
    ensures
        state.phase is InstallHandler ==> state.after(done) == (State {
            phase: Phase::OpenProcess,
            ..state
        }) && state.says(done) is None,
        state.phase is OpenProcess ==> state.after(opened) == (State {
            process: handle,
            phase: Phase::ReadOriginal,
            ..state
        }) && state.says(opened) is None,
        state.phase is ReadOriginal ==> state.after(read) == (State {
            original: buffer@[0],
            phase: Phase::Arm,
            ..state
        }) && state.says(read) is None,
        state.phase is Arm ==> state.after(written) == (State { phase: Phase::Attach, ..state })
            && state.says(written) is None,
        state.phase is Attach ==> state.after(done) == (State { phase: Phase::Poll, ..state })
            && state.says(done) == Some(
            Line {
                stream: Stream::Stderr,
                text: report::attached_text(state.settings.pid, state.settings.target),
            },
        ),
{
}

/// A session that fails keeps the message of its first failure. Before it has a handle it is over;
/// before it is attached it closes the process; while it traces it goes to put the byte back; and
/// on its way out it goes on.
pub proof fn law_giving_up(state: State, message: Seq<char>)
    ensures
        ({
            let next = state.failed(message);
            let phase = state.phase;
            let new = phase is InstallHandler || phase is OpenProcess;
            let open = phase is ReadOriginal || phase is Arm || phase is Attach;
            let hit = phase is OpenThread || phase is GetContext || phase is ReadReturn
                || phase is ReadStack || phase is Disarm || phase is SetContext || phase is CloseOld;
            let tracing = hit || phase is Poll || phase is Wait || phase is Rearm
                || phase is CloseStepped || phase is Continue;
            &&& state.failure is None ==> next.failure == Some(message)
            &&& state.failure is Some ==> next.failure == state.failure
            &&& new ==> next.phase is Finished
            &&& open ==> next.phase is CloseProcess
            &&& tracing ==> next.phase is Restore
            &&& !new && !open && !tracing ==> next.phase == phase
            &&& next == (State { phase: next.phase, failure: next.failure, ..state })
        }),
{
}

/// Every failed call ends the session with a message that names the call, what it was made on and
/// the error. Nothing is printed on the way.
pub proof fn law_failures(state: State, error: String, failed: Reply, no_handle: Reply)
    requires
        failed == Reply::Outcome(Err(error)),
        no_handle == Reply::Handle(Err(error)),
    ensures
        ({
            let e = error@;
            let pid = text::decimal(state.settings.pid as nat);
            &&& state.phase is InstallHandler ==> state.after(failed) == state.failed(
                "SetConsoleCtrlHandler: "@ + e,
            ) && state.says(failed) is None
            &&& state.phase is OpenProcess ==> state.after(no_handle) == state.failed(
                "OpenProcess("@ + pid + "): "@ + e,
            ) && state.says(no_handle) is None
            &&& state.phase is Attach ==> state.after(failed) == state.failed(
                "DebugActiveProcess("@ + pid + "): "@ + e,
            ) && state.says(failed) is None
            &&& state.phase matches Phase::OpenThread { id } ==> state.after(no_handle)
                == state.failed(
                "OpenThread("@ + text::decimal(id.thread_id as nat) + "): "@ + e,
            ) && state.says(no_handle) is None
            &&& state.phase is GetContext ==> state.after(Reply::Context(None)) == state.failed(
                "GetThreadContext failed"@,
            ) && state.says(Reply::Context(None)) is None
            &&& state.phase is SetContext ==> state.after(Reply::ContextSet(false)) == state.failed(
                "SetThreadContext failed"@,
            ) && state.says(Reply::ContextSet(false)) is None
            &&& state.phase is Continue ==> state.after(failed) == state.failed(
                "ContinueDebugEvent: "@ + e,
            ) && state.says(failed) is None
        }),
{
    reveal_strlit(": ");
    reveal_strlit("(");
    reveal_strlit("SetConsoleCtrlHandler");
    reveal_strlit("SetConsoleCtrlHandler: ");
    reveal_strlit("OpenProcess");
    reveal_strlit("OpenProcess(");
    reveal_strlit("DebugActiveProcess");
    reveal_strlit("DebugActiveProcess(");
    reveal_strlit("OpenThread");
    reveal_strlit("OpenThread(");
    reveal_strlit("ContinueDebugEvent");
    reveal_strlit("ContinueDebugEvent: ");
    assert("SetConsoleCtrlHandler"@ + ": "@ =~= "SetConsoleCtrlHandler: "@);
    assert("ContinueDebugEvent"@ + ": "@ =~= "ContinueDebugEvent: "@);
    assert("OpenProcess"@ + "("@ =~= "OpenProcess("@);
    assert("DebugActiveProcess"@ + "("@ =~= "DebugActiveProcess("@);
    assert("OpenThread"@ + "("@ =~= "OpenThread("@);
}

/// A byte that was not read or not written ends the session, with the message of that read or write
/// at the target.
pub proof fn law_failed_bytes(
    state: State,
    buffer: Vec<u8>,
    outcome: Result<usize, String>,
    read: Reply,
    written: Reply,
)
    requires
        outcome != Ok::<usize, String>(1),
        read == (Reply::Read { buffer, outcome }),
        written == Reply::Written(outcome),
    ensures
        state.phase is ReadOriginal ==> state.after(read) == state.failed(
            memory::read_failure(state.settings.target, 1, outcome)->0,
        ) && state.says(read) is None,
        state.phase is Arm || state.phase is Disarm || state.phase is Rearm ==> state.after(written)
            == state.failed(memory::write_failure(state.settings.target, outcome)->0)
            && state.says(written) is None,
{
    memory::law_whole_or_failed(state.settings.target, 1, outcome);
}

/// Between events the session looks for an interrupt, and then waits a quarter of a second. An
/// interrupt makes it put the byte back; without one it waits; and if nothing comes it looks again.
pub proof fn law_waiting(state: State, request: Request)
    requires
        state.asks(request),
    ensures
        state.phase is Poll ==> {
            let yes = Reply::Interrupted(true);
            let no = Reply::Interrupted(false);
            &&& request is PollInterrupt
            &&& state.after(yes) == (State { phase: Phase::Restore, ..state })
            &&& state.after(no) == (State { phase: Phase::Wait, ..state })
            &&& state.says(yes) is None
            &&& state.says(no) is None
        },
        state.phase is Wait ==> {
            let nothing = Reply::Event(None);
            &&& request == (Request::WaitEvent { milliseconds: 250 })
            &&& state.after(nothing) == (State { phase: Phase::Poll, ..state })
            &&& state.says(nothing) is None
        },
{
}

/// What an event is taken for, by its own numbers.
pub proof fn law_kinds_of_events(event: DebugEvent, target: usize)
    ensures
        session::kind_of(event, target) == EventKind::Exited <==> event.code == 5,
        session::kind_of(event, target) == EventKind::Other <==> event.code != 1 && event.code != 5,
        session::kind_of(event, target) == EventKind::Hit <==> event.code == 1
            && event.exception_code == 0x8000_0003 && event.exception_address == target,
        session::kind_of(event, target) == EventKind::OtherBreakpoint <==> event.code == 1
            && event.exception_code == 0x8000_0003 && event.exception_address != target,
        session::kind_of(event, target) == EventKind::Stepped <==> event.code == 1
            && event.exception_code == 0x8000_0004,
{
}

proof fn lemma_without_thread_is_filter(threads: Seq<u32>, thread: u32)
    ensures
        session::without_thread(threads, thread) == threads.filter(|t: u32| t != thread),
    decreases threads.len(),
{
    reveal(Seq::filter);
    if threads.len() > 0 {
        lemma_without_thread_is_filter(threads.drop_last(), thread);
    }
}

/// What the session does with an event while it traces. It takes the process as ended, says so and
/// stops, if the code of the event is 5, and for no other event. An event that is neither that nor
/// an exception is simply continued. A breakpoint at the target is one hit more, and its thread is
/// opened; a single step has the breakpoint planted again, and its thread is no longer one that is
/// still to step; a breakpoint elsewhere is continued; and any other exception is left to the
/// process.
pub proof fn law_event(state: State, event: DebugEvent, reply: Reply)
    requires
        state.phase is Wait,
        reply == Reply::Event(Some(event)),
        state.accepts(reply),
    ensures
        ({
            let next = state.after(reply);
            let id = EventId { process_id: event.process_id, thread_id: event.thread_id };
            let exception = event.exception_code;
            let here = event.exception_address == state.settings.target;
            &&& next.exited <==> state.exited || event.code == 5
            &&& next.phase is Restore <==> event.code == 5
            &&& state.says(reply) is Some <==> event.code == 5
            &&& event.code == 5 ==> next == (State { exited: true, phase: Phase::Restore, ..state })
                && state.says(reply) == Some(Line { stream: Stream::Stderr, text: "target exited"@ })
            &&& event.code != 1 && event.code != 5 ==> next == (State {
                phase: Phase::Continue { id, status: 0x0001_0002 },
                ..state
            })
            &&& event.code == 1 && exception == 0x8000_0003 && here ==> next.hits == state.hits + 1
                && next == (State { hits: next.hits, phase: Phase::OpenThread { id }, ..state })
            &&& event.code == 1 && exception == 0x8000_0003 && !here ==> next == (State {
                phase: Phase::Continue { id, status: 0x0001_0002 },
                ..state
            })
            &&& event.code == 1 && exception == 0x8000_0004 ==> next == (State {
                flagged: state.flagged.filter(|t: u32| t != event.thread_id),
                phase: Phase::Rearm { id },
                ..state
            })
            &&& event.code == 1 && exception != 0x8000_0003 && exception != 0x8000_0004 ==> next
                == (State { phase: Phase::Continue { id, status: 0x8001_0001 }, ..state })
        }),
{
    lemma_without_thread_is_filter(state.flagged, event.thread_id);
}

/// A thread that hit the breakpoint is opened by its number and asked for its whole context. Nothing
/// is printed before the return address was read.
pub proof fn law_hit_is_looked_at(
    state: State,
    request: Request,
    id: EventId,
    thread: isize,
    ctx: Ctx,
    opened: Reply,
    got: Reply,
)
    requires
        state.asks(request),
        opened == Reply::Handle(Ok(thread)),
        got == Reply::Context(Some(ctx)),
    ensures
        state.phase == (Phase::OpenThread { id }) ==> {
            &&& request == (Request::OpenThread { thread_id: id.thread_id })
            &&& state.after(opened) == (State { phase: Phase::GetContext { id, thread }, ..state })
            &&& state.says(opened) is None
        },
        state.phase == (Phase::GetContext { id, thread }) ==> {
            &&& request is GetContext && request->GetContext_thread == thread
            &&& context::field_u32(request->GetContext_context@, 0x30) == 0x10_000B
            &&& forall|i: int|
                0 <= i < 1232 && !(0x30 <= i < 0x34) ==> #[trigger] request->GetContext_context@[i]
                    == 0
            &&& state.after(got) == (State { phase: Phase::ReadReturn { id, thread, ctx }, ..state })
            &&& state.says(got) is None
        },
{
    context::law_layout();
    context::law_fresh_block_bytes(context::CONTEXT_FULL);
}

/// The session reads the return address from where the stack pointer points. Its report of the hit
/// has the number of the hit, the thread, and, in all their 64 bits, an instruction pointer that is
/// one less than that of the thread, and the return address: the number whose eight bytes were read,
/// and zero if not all eight were. The registers are those of the thread. Then it reads the stack,
/// if any of it is to be shown, or takes the breakpoint away.
pub proof fn law_hit_is_reported(
    state: State,
    id: EventId,
    thread: isize,
    ctx: Ctx,
    buffer: Vec<u8>,
    outcome: Result<usize, String>,
    reply: Reply,
    ret: u64,
)
    requires
        state.phase == (Phase::ReadReturn { id, thread, ctx }),
        reply == (Reply::Read { buffer, outcome }),
        buffer@.len() == 8,
    ensures
        ({
            let line = state.says(reply)->0;
            let t = line.text;
            let digits = text::decimal(state.hits as nat).len() as int;
            let w = if digits < 3 {
                3
            } else {
                digits
            };
            let p = 11 + w + text::decimal(id.thread_id as nat).len();
            let pointer = context::field_u64(ctx@, 0xF8);
            &&& state.says(reply) is Some
            &&& line.stream == Stream::Stdout
            &&& t.len() == p + 160
            &&& text::reads_decimal(t.subrange(5 + w - digits, 5 + w), state.hits as int)
            &&& text::reads_decimal(t.subrange(11 + w, p), id.thread_id as int)
            &&& pointer > 0 ==> text::reads_hex16(t.subrange(p + 8, p + 24), (pointer - 1) as u64)
            &&& pointer == 0 ==> text::reads_hex16(t.subrange(p + 8, p + 24), 0)
            &&& outcome == Ok::<usize, String>(8) && bytes::le_bytes(ret as nat, 8) == buffer@
                ==> text::reads_hex16(t.subrange(p + 32, p + 48), ret)
            &&& outcome != Ok::<usize, String>(8) ==> text::reads_hex16(
                t.subrange(p + 32, p + 48),
                0,
            )
            &&& text::reads_hex16(t.subrange(p + 64, p + 80), context::field_u64(ctx@, 0x80))
            &&& text::reads_hex16(t.subrange(p + 88, p + 104), context::field_u64(ctx@, 0x88))
            &&& text::reads_hex16(t.subrange(p + 120, p + 136), context::field_u64(ctx@, 0xB8))
            &&& text::reads_hex16(t.subrange(p + 144, p + 160), context::field_u64(ctx@, 0xC0))
            &&& state.settings.stack_words > 0 ==> state.after(reply) == (State {
                phase: Phase::ReadStack { id, thread, ctx },
                ..state
            })
            &&& state.settings.stack_words == 0 ==> state.after(reply) == (State {
                phase: Phase::Disarm { id, thread, ctx },
                ..state
            })
        }),
{
    context::law_moving_back(ctx@);
    memory::law_whole_or_failed(session::stack_address(ctx), 8, outcome);
    bytes::lemma_le_bound_values();
    bytes::law_value_of_bytes(ret as nat, 8);
    bytes::lemma_le_value_bound(buffer@);
    report::law_hit_report(
        state.hits,
        id.thread_id,
        context::one_less(context::field_u64(ctx@, 0xF8)),
        session::return_address(ctx, buffer@, outcome),
        ctx@,
    );
}

/// The return address is the number in the eight bytes that were read, the least significant first,
/// and zero unless all eight were.
pub proof fn law_return_address(ctx: Ctx, buffer: Seq<u8>, outcome: Result<usize, String>)
    requires
        buffer.len() == 8,
    ensures
        outcome == Ok::<usize, String>(8) ==> {
            let ret = session::return_address(ctx, buffer, outcome);
            &&& bytes::le_bytes(ret as nat, 8) == buffer
            &&& ret == buffer[0] + 0x100 * buffer[1] + 0x1_0000 * buffer[2] + 0x100_0000 * buffer[3]
                + 0x1_0000_0000 * buffer[4] + 0x100_0000_0000 * buffer[5] + 0x1_0000_0000_0000
                * buffer[6] + 0x100_0000_0000_0000 * buffer[7]
        },
        outcome != Ok::<usize, String>(8) ==> session::return_address(ctx, buffer, outcome) == 0,
{
    memory::law_whole_or_failed(session::stack_address(ctx), 8, outcome);
    bytes::law_value_byte_by_byte(buffer);
    bytes::law_bytes_of_value(buffer);
    bytes::lemma_le_bound_values();
    bytes::lemma_le_value_bound(buffer);
}

/// The return address and the stack are read from the address in the stack pointer: eight bytes, and
/// as many words as are to be shown.
pub proof fn law_stack_is_read(state: State, request: Request, ctx: Ctx)
    requires
        state.asks(request),
    ensures
        state.phase is ReadReturn && state.phase->ReadReturn_ctx == ctx ==> request is Read
            && request->Read_process == state.process && request->Read_len == 8 && (
        context::field_u64(ctx@, 0x98) <= usize::MAX ==> request->Read_address
            == context::field_u64(ctx@, 0x98)),
        state.phase is ReadStack && state.phase->ReadStack_ctx == ctx ==> request is ReadStack
            && request->ReadStack_process == state.process && request->words
            == state.settings.stack_words && (context::field_u64(ctx@, 0x98) <= usize::MAX
            ==> request->ReadStack_address == context::field_u64(ctx@, 0x98)),
{
    context::law_layout();
}

/// The stack that was read is shown whole: as many words as the bytes that came make up, in order,
/// on a line of its own. A stack that could not be read is not shown. Either way the breakpoint is
/// taken away next.
pub proof fn law_stack_is_shown(
    state: State,
    id: EventId,
    thread: isize,
    ctx: Ctx,
    buffer: Vec<u8>,
    outcome: Result<usize, String>,
    reply: Reply,
    i: int,
)
    requires
        state.phase == (Phase::ReadStack { id, thread, ctx }),
        reply == (Reply::Read { buffer, outcome }),
        state.accepts(reply),
        0 <= i,
    ensures
        state.after(reply) == (State { phase: Phase::Disarm { id, thread, ctx }, ..state }),
        outcome is Err ==> state.says(reply) is None,
        outcome matches Ok(n) ==> {
            let line = state.says(reply)->0;
            let words = n as int / 8;
            &&& state.says(reply) is Some
            &&& line.stream == Stream::Stdout
            &&& line.text.len() == 15 + 17 * words
            &&& report::stands_at(line.text, 0, "         stack:"@)
            &&& i < words ==> line.text[15 + 17 * i] == ' ' && text::reads_hex16(
                line.text.subrange(16 + 17 * i, 32 + 17 * i),
                context::field_u64(buffer@, 8 * i),
            )
        },
{
    if let Ok(n) = outcome {
        report::law_stack_line(buffer@, (n / 8) as nat, i);
    }
}

proof fn lemma_stepping_block(block: Seq<u8>)
    requires
        block.len() == 1232,
    ensures
        ({
            let sent = context::trapping(context::rewound(block));
            &&& sent.len() == 1232
            &&& context::field_u64(sent, 0xF8) == context::field_u64(context::rewound(block), 0xF8)
            &&& context::field_u32(sent, 0x44) == context::field_u32(block, 0x44) | 0x100
            &&& forall|i: int|
                0 <= i < 1232 && !(0x44 <= i < 0x48) && !(0xF8 <= i < 0x100)
                    ==> #[trigger] sent[i] == block[i]
        }),
{
    let back = context::rewound(block);
    let sent = context::trapping(back);
    context::law_moving_back(block);
    context::law_trap_flag_alone_changes(back);
    assert(sent.subrange(0xF8, 0x100) =~= back.subrange(0xF8, 0x100));
    assert(back.subrange(0x44, 0x48) =~= block.subrange(0x44, 0x48));
    assert forall|i: int|
        0 <= i < 1232 && !(0x44 <= i < 0x48) && !(0xF8 <= i < 0x100) implies #[trigger] sent[i]
        == block[i] by {
        assert(sent[i] == back[i]);
        assert(back[i] == block[i]);
    }
}

/// The context that a thread is sent on with has an instruction pointer that is exactly one less, in
/// all its 64 bits: a thread that stopped one byte past the target goes on at the target. The trap
/// flag is set, and every other bit is as it was.
pub proof fn law_thread_is_sent_back(
    state: State,
    request: Request,
    id: EventId,
    thread: isize,
    ctx: Ctx,
)
    requires
        state.asks(request),
        state.phase == (Phase::SetContext { id, thread, ctx }),
    ensures
        request is SetContext,
        request->SetContext_thread == thread,
        ({
            let sent = request->SetContext_context@;
            let pointer = context::field_u64(ctx@, 0xF8);
            &&& sent.len() == 1232
            &&& pointer > 0 ==> context::field_u64(sent, 0xF8) == pointer - 1
            &&& pointer == state.settings.target + 1 ==> context::field_u64(sent, 0xF8)
                == state.settings.target
            &&& pointer == 0 ==> context::field_u64(sent, 0xF8) == 0
            &&& context::field_u32(sent, 0x44) == context::field_u32(ctx@, 0x44) | 0x100
            &&& forall|i: int|
                0 <= i < 1232 && !(0x44 <= i < 0x48) && !(0xF8 <= i < 0x100)
                    ==> #[trigger] sent[i] == ctx@[i]
        }),
{
    context::law_moving_back(ctx@);
    lemma_stepping_block(ctx@);
}

/// The instruction pointer in the report of a hit is the one that its thread is sent on with.
pub proof fn law_report_and_thread_agree(
    reporting: State,
    sending: State,
    id: EventId,
    thread: isize,
    ctx: Ctx,
    buffer: Vec<u8>,
    outcome: Result<usize, String>,
    reply: Reply,
    request: Request,
)
    requires
        reporting.phase == (Phase::ReadReturn { id, thread, ctx }),
        reply == (Reply::Read { buffer, outcome }),
        buffer@.len() == 8,
        sending.phase == (Phase::SetContext { id, thread, ctx }),
        sending.asks(request),
    ensures
        ({
            let t = reporting.says(reply)->0.text;
            let digits = text::decimal(reporting.hits as nat).len() as int;
            let w = if digits < 3 {
                3
            } else {
                digits
            };
            let p = 11 + w + text::decimal(id.thread_id as nat).len();
            &&& request is SetContext
            &&& text::reads_hex16(
                t.subrange(p + 8, p + 24),
                context::field_u64(request->SetContext_context@, 0xF8),
            )
        }),
{
    law_hit_is_reported(reporting, id, thread, ctx, buffer, outcome, reply, 0);
    law_thread_is_sent_back(sending, request, id, thread, ctx);
}

/// The limit is reached.
pub open spec fn is_last_hit(state: State) -> bool {
    match state.settings.max_hits {
        Some(max) => max <= state.hits,
        None => false,
    }
}

/// Once the breakpoint is taken away and the context is set, the thread is kept, and is remembered
/// as one with a trap flag to be cleared, if the flag was not its own. The thread kept from an
/// earlier hit is closed first. Then the process goes on. If as many hits were seen as were asked
/// for, the session says so, and will stop.
pub proof fn law_hit_is_settled(
    state: State,
    request: Request,
    id: EventId,
    thread: isize,
    ctx: Ctx,
    old_thread: isize,
    written: Reply,
    set: Reply,
    outcome: Result<(), String>,
    closed: Reply,
)
    requires
        state.asks(request),
        written == Reply::Written(Ok(1)),
        set == Reply::ContextSet(true),
        closed == Reply::Outcome(outcome),
    ensures
        ({
            let flagged = if context::field_u32(ctx@, 0x44) & 0x100 != 0 || state.flagged.contains(
                id.thread_id,
            ) {
                state.flagged
            } else {
                state.flagged.push(id.thread_id)
            };
            let going_on = Phase::Continue { id, status: 0x0001_0002 };
            let stopping = state.stopping || is_last_hit(state);
            let line = if is_last_hit(state) {
                Some(Line { stream: Stream::Stderr, text: "max-hits reached, detaching"@ })
            } else {
                None
            };
            &&& state.phase == (Phase::Disarm { id, thread, ctx }) ==> {
                &&& request == (Request::Write {
                    process: state.process,
                    address: state.settings.target,
                    byte: state.original,
                })
                &&& state.after(written) == (State {
                    phase: Phase::SetContext { id, thread, ctx },
                    ..state
                })
                &&& state.says(written) is None
            }
            &&& state.phase == (Phase::SetContext { id, thread, ctx }) && state.last_thread == Some(
                old_thread,
            ) ==> {
                &&& state.after(set) == (State {
                    last_thread: Some(thread),
                    flagged,
                    phase: Phase::CloseOld { id, thread: old_thread },
                    ..state
                })
                &&& state.says(set) is None
            }
            &&& state.phase == (Phase::SetContext { id, thread, ctx }) && state.last_thread is None
                ==> {
                &&& state.after(set) == (State {
                    last_thread: Some(thread),
                    flagged,
                    stopping,
                    phase: going_on,
                    ..state
                })
                &&& state.says(set) == line
            }
            &&& state.phase == (Phase::CloseOld { id, thread }) ==> {
                &&& request == (Request::Close { handle: thread })
                &&& state.after(closed) == (State { stopping, phase: going_on, ..state })
                &&& state.says(closed) == line
            }
        }),
{
    context::law_trap_flag_alone_changes(ctx@);
}

/// A limit is reached by the hit with its number, and by every later one; zero is reached by the
/// first. Without a limit no hit is the last.
pub proof fn law_limit(state: State, max: u64)
    ensures
        state.settings.max_hits is None ==> !state.limit_reached(),
        state.settings.max_hits == Some(max) ==> (state.limit_reached() <==> max <= state.hits),
        is_last_hit(state) == state.limit_reached(),
{
}

/// After a step the breakpoint is written again, the thread that was kept is closed, and the process
/// goes on.
pub proof fn law_step_is_settled(
    state: State,
    request: Request,
    id: EventId,
    thread: isize,
    written: Reply,
    outcome: Result<(), String>,
    closed: Reply,
)
    requires
        state.asks(request),
        written == Reply::Written(Ok(1)),
        closed == Reply::Outcome(outcome),
    ensures
        ({
            let going_on = Phase::Continue { id, status: 0x0001_0002 };
            &&& state.phase == (Phase::Rearm { id }) ==> {
                &&& request == (Request::Write {
                    process: state.process,
                    address: state.settings.target,
                    byte: 0xCC,
                })
                &&& state.last_thread == Some(thread) ==> state.after(written) == (State {
                    last_thread: None,
                    phase: Phase::CloseStepped { id, thread },
                    ..state
                })
                &&& state.last_thread is None ==> state.after(written) == (State {
                    phase: going_on,
                    ..state
                })
                &&& state.says(written) is None
            }
            &&& state.phase == (Phase::CloseStepped { id, thread }) ==> {
                &&& request == (Request::Close { handle: thread })
                &&& state.after(closed) == (State { phase: going_on, ..state })
                &&& state.says(closed) is None
            }
        }),
{
}

/// The process goes on from the event that it stands still for, with the status that was settled on.
/// The session then looks for an interrupt, or, after the last hit, puts the byte back.
pub proof fn law_going_on(state: State, request: Request, id: EventId, status: u32, done: Reply)
    requires
        state.asks(request),
        state.phase == (Phase::Continue { id, status }),
        done == Reply::Outcome(Ok(())),
    ensures
        request == (Request::Continue {
            process_id: id.process_id,
            thread_id: id.thread_id,
            status,
        }),
        state.after(done).phase is Restore <==> state.stopping,
        state.after(done).phase is Poll <==> !state.stopping,
        state.after(done) == (State { phase: state.after(done).phase, ..state }),
        state.says(done) is None,
{
}

/// The byte that was read first is what is put back. If that fails, if the process has ended or if
/// the session has failed, it detaches at once. Otherwise it turns to the last of the threads that
/// are still to step, or, if there is none, to the events that are ready.
pub proof fn law_byte_is_put_back(
    state: State,
    request: Request,
    outcome: Result<usize, String>,
    reply: Reply,
)
    requires
        state.asks(request),
        state.phase is Restore,
        reply == Reply::Written(outcome),
    ensures
        request == (Request::Write {
            process: state.process,
            address: state.settings.target,
            byte: state.original,
        }),
        state.says(reply) is None,
        ({
            let next = state.after(reply);
            let good = outcome == Ok::<usize, String>(1) && state.failure is None && !state.exited;
            &&& next == (State { phase: next.phase, ..state })
            &&& !good ==> next.phase is Detach
            &&& good && state.flagged.len() == 0 ==> next.phase is Drain
            &&& good && state.flagged.len() > 0 ==> next.phase == (Phase::MendOpen {
                errand: Errand {
                    thread_id: state.flagged[state.flagged.len() - 1],
                    hit: None,
                },
            })
        }),
{
    memory::law_whole_or_failed(state.settings.target, 1, outcome);
}

/// A thread is put right step by step: it is opened, kept from running, asked for its whole context,
/// given the right one, let run again, and closed. Nothing is printed.
pub proof fn law_mending(
    state: State,
    request: Request,
    errand: Errand,
    thread: isize,
    ctx: Ctx,
    done: Reply,
    opened: Reply,
    got: Reply,
    set: bool,
    outcome: Result<(), String>,
)
    requires
        state.asks(request),
        done == Reply::Outcome(Ok(())),
        opened == Reply::Handle(Ok(thread)),
        got == Reply::Context(Some(ctx)),
    ensures
        state.phase == (Phase::MendOpen { errand }) ==> {
            &&& request == (Request::OpenThread { thread_id: errand.thread_id })
            &&& state.after(opened) == (State {
                phase: Phase::MendSuspend { errand, thread },
                ..state
            })
            &&& state.says(opened) is None
        },
        state.phase == (Phase::MendSuspend { errand, thread }) ==> {
            &&& request == (Request::Suspend { thread })
            &&& state.after(done) == (State { phase: Phase::MendGet { errand, thread }, ..state })
            &&& state.says(done) is None
        },
        state.phase == (Phase::MendGet { errand, thread }) ==> {
            &&& request is GetContext && request->GetContext_thread == thread
            &&& context::field_u32(request->GetContext_context@, 0x30) == 0x10_000B
            &&& forall|i: int|
                0 <= i < 1232 && !(0x30 <= i < 0x34) ==> #[trigger] request->GetContext_context@[i]
                    == 0
            &&& state.after(got) == (State {
                phase: Phase::MendSet { errand, thread, ctx },
                ..state
            })
            &&& state.says(got) is None
        },
        state.phase == (Phase::MendSet { errand, thread, ctx }) ==> {
            &&& state.after(Reply::ContextSet(set)) == (State {
                phase: Phase::MendResume { errand, thread },
                ..state
            })
            &&& state.says(Reply::ContextSet(set)) is None
        },
        state.phase == (Phase::MendResume { errand, thread }) ==> {
            &&& request == (Request::Resume { thread })
            &&& state.after(Reply::Outcome(outcome)) == (State {
                phase: Phase::MendClose { errand, thread },
                ..state
            })
            &&& state.says(Reply::Outcome(outcome)) is None
        },
        state.phase == (Phase::MendClose { errand, thread }) ==> request == (Request::Close {
            handle: thread,
        }),
{
    context::law_layout();
    context::law_fresh_block_bytes(context::CONTEXT_FULL);
}

/// A thread that ran into the breakpoint is put back by exactly one byte and keeps its flags; any
/// other loses its trap flag and stays where it is. No other bit of it changes.
pub proof fn law_mended_thread(
    state: State,
    request: Request,
    errand: Errand,
    thread: isize,
    ctx: Ctx,
)
    requires
        state.asks(request),
        state.phase == (Phase::MendSet { errand, thread, ctx }),
    ensures
        request is SetContext,
        request->SetContext_thread == thread,
        ({
            let sent = request->SetContext_context@;
            let pointer = context::field_u64(ctx@, 0xF8);
            &&& errand.hit is Some ==> context::differs_only_in(sent, ctx@, 0xF8, 0x100)
            &&& errand.hit is Some && pointer > 0 ==> context::field_u64(sent, 0xF8) == pointer - 1
            &&& errand.hit is Some && pointer == 0 ==> context::field_u64(sent, 0xF8) == 0
            &&& errand.hit is None ==> context::differs_only_in(sent, ctx@, 0x44, 0x48)
            &&& errand.hit is None ==> context::field_u32(sent, 0x44) == context::field_u32(
                ctx@,
                0x44,
            ) & !0x100u32
        }),
{
    context::law_moving_back(ctx@);
    context::law_trap_flag_alone_changes(ctx@);
}

/// What cannot be done for a thread is left out: one that cannot be kept from running is closed, and
/// one whose context cannot be had is let run again.
pub proof fn law_mending_fails(
    state: State,
    errand: Errand,
    thread: isize,
    error: String,
    refused: Reply,
)
    requires
        refused == Reply::Outcome(Err(error)),
    ensures
        state.phase == (Phase::MendSuspend { errand, thread }) ==> state.after(refused) == (State {
            phase: Phase::MendClose { errand, thread },
            ..state
        }) && state.says(refused) is None,
        state.phase == (Phase::MendGet { errand, thread }) ==> state.after(Reply::Context(None)) == (
        State { phase: Phase::MendResume { errand, thread }, ..state }) && state.says(
            Reply::Context(None),
        ) is None,
{
}

/// When a thread is done with, or could not be opened, the process goes on from its hit, if it stood
/// still for one. Otherwise the thread is taken off the threads that are still to step, and the next
/// of them is turned to, or, if there is none, the events that are ready.
pub proof fn law_errand_ends(
    state: State,
    errand: Errand,
    thread: isize,
    id: EventId,
    error: String,
    outcome: Result<(), String>,
    reply: Reply,
)
    requires
        state.phase == (Phase::MendOpen { errand }) && reply == Reply::Handle(Err(error))
            || state.phase == (Phase::MendClose { errand, thread }) && reply == Reply::Outcome(
            outcome,
        ),
        errand.hit is None ==> state.flagged.len() > 0,
    ensures
        state.says(reply) is None,
        errand.hit == Some(id) ==> state.after(reply) == (State {
            phase: Phase::DrainContinue { id, status: 0x0001_0002 },
            ..state
        }),
        errand.hit is None ==> {
            let next = state.after(reply);
            let left = state.flagged.take(state.flagged.len() - 1);
            &&& next == (State { flagged: left, phase: next.phase, ..state })
            &&& left.len() == 0 ==> next.phase is Drain
            &&& left.len() > 0 ==> next.phase == (Phase::MendOpen {
                errand: Errand { thread_id: left[left.len() - 1], hit: None },
            })
        },
{
    assert(state.flagged.len() > 0 ==> state.flagged.drop_last() =~= state.flagged.take(
        state.flagged.len() - 1,
    ));
}

/// Events that are ready are asked for without waiting; when there is none, the session detaches.
/// Each event counts, and it is told by its own numbers: the process has ended if the code is 5, and
/// for no other event; a thread that ran into the breakpoint is to be put back; an exception that is
/// neither a breakpoint nor a step is left to the process; and everything else is continued.
pub proof fn law_late_event(state: State, request: Request, event: DebugEvent, reply: Reply)
    requires
        state.asks(request),
        state.phase is Drain,
        reply == Reply::Event(Some(event)),
    ensures
        request == (Request::WaitEvent { milliseconds: 0 }),
        state.after(Reply::Event(None)) == (State { phase: Phase::Detach, ..state }),
        state.says(Reply::Event(None)) is None,
        state.says(reply) is None,
        ({
            let next = state.after(reply);
            let id = EventId { process_id: event.process_id, thread_id: event.thread_id };
            let exception = event.exception_code;
            let here = event.exception_address == state.settings.target;
            let hit = event.code == 1 && exception == 0x8000_0003 && here;
            let foreign = event.code == 1 && exception != 0x8000_0003 && exception != 0x8000_0004;
            &&& state.late_left > 0 ==> next.late_left == state.late_left - 1
            &&& state.late_left == 0 ==> next.late_left == 0
            &&& next.exited <==> state.exited || event.code == 5
            &&& next == (State {
                late_left: next.late_left,
                exited: next.exited,
                phase: next.phase,
                ..state
            })
            &&& next.phase is Detach <==> event.code == 5
            &&& hit ==> next.phase == (Phase::MendOpen {
                errand: Errand { thread_id: event.thread_id, hit: Some(id) },
            })
            &&& foreign ==> next.phase == (Phase::DrainContinue { id, status: 0x8001_0001 })
            &&& event.code != 5 && !hit && !foreign ==> next.phase == (Phase::DrainContinue {
                id,
                status: 0x0001_0002,
            })
        }),
{
}

/// The process goes on from a late event, and the session takes the next one, unless the system has
/// refused or no more may be taken.
pub proof fn law_going_on_late(
    state: State,
    request: Request,
    id: EventId,
    status: u32,
    outcome: Result<(), String>,
    reply: Reply,
)
    requires
        state.asks(request),
        state.phase == (Phase::DrainContinue { id, status }),
        reply == Reply::Outcome(outcome),
    ensures
        request == (Request::Continue {
            process_id: id.process_id,
            thread_id: id.thread_id,
            status,
        }),
        state.after(reply).phase is Drain <==> outcome is Ok && state.late_left > 0,
        state.after(reply).phase is Detach <==> outcome is Err || state.late_left == 0,
        state.after(reply) == (State { phase: state.after(reply).phase, ..state }),
        state.says(reply) is None,
{
}

/// At the end the session detaches from the process and closes it, whatever the system answers. A
/// session that has not failed tells the number of hits.
pub proof fn law_end(
    state: State,
    request: Request,
    outcome: Result<(), String>,
    reply: Reply,
)
    requires
        state.asks(request),
        reply == Reply::Outcome(outcome),
    ensures
        state.phase is Detach ==> {
            &&& request == (Request::Detach { pid: state.settings.pid })
            &&& state.after(reply) == (State { phase: Phase::CloseProcess, ..state })
            &&& state.failure is Some ==> state.says(reply) is None
            &&& state.failure is None ==> state.says(reply) == Some(
                Line { stream: Stream::Stderr, text: report::done_text(state.hits) },
            )
        },
        state.phase is CloseProcess ==> {
            &&& request == (Request::Close { handle: state.process })
            &&& state.after(reply) == (State { phase: Phase::Finished, ..state })
            &&& state.says(reply) is None
        },
        state.phase is Finished ==> request is Exit,
{
}

} // verus!

//! A tracing session: from the first system call to the last, whatever the system answers.
//!
//! A session never calls the system itself. It says what it wants done ([`Session::request`]), the
//! caller does it and hands back the answer ([`Session::advance`]), and the session moves on to the
//! next request, with a line to print now and then. It plants a breakpoint on the target, attaches,
//! reports every thread that runs into the breakpoint, steps the thread over the original
//! instruction, and plants the breakpoint again.
//!
//! A session that is interrupted, or has seen the last hit that it was to see, leaves the process as
//! it found it: it puts the original byte back, clears the trap flag of every thread that is still
//! to step, deals with the events that the system has ready, and then detaches. It does not wait for
//! those events, and takes [`LATE_EVENTS_MAX`] of them at most, so that a process that keeps raising
//! events cannot hold it. If the byte cannot be put back, it detaches at once. A session that fails
//! while it is tracing puts the byte back and detaches. One that fails before it is attached only
//! closes the process: if attaching itself fails, the breakpoint stays on the target.
use vstd::prelude::*;

use crate::bytes;
use crate::context;
use crate::context::{Ctx, CONTEXT_FULL};
use crate::memory;
use crate::report;
use crate::text;
use crate::win32;

verus! {

/// The one-byte breakpoint instruction.
pub const INT3: u8 = 0xCC;

/// Tells the system that an event was dealt with.
pub const DBG_CONTINUE: u32 = 0x0001_0002;

/// Tells the system that an exception is the traced process's own affair.
pub const DBG_EXCEPTION_NOT_HANDLED: u32 = 0x8001_0001;

/// How long to wait for a debug event before looking for an interrupt again.
pub const WAIT_MILLISECONDS: u32 = 250;

/// How many debug events a session takes at most after it has stopped tracing.
pub const LATE_EVENTS_MAX: u32 = 1024;

/// What to trace.
#[derive(Clone, Copy)]
pub struct Settings {
    /// The process.
    pub pid: u32,
    /// The address of the function.
    pub target: usize,
    /// How many words of the stack to show; none if zero.
    pub stack_words: usize,
    /// After how many hits to stop.
    pub max_hits: Option<u64>,
}

/// A debug event. The two last fields count only if it carries an exception.
#[derive(Clone, Copy)]
pub struct DebugEvent {
    pub code: u32,
    pub process_id: u32,
    pub thread_id: u32,
    pub exception_code: u32,
    pub exception_address: usize,
}

/// What a debug event means to a session.
#[derive(Clone, Copy, Debug, PartialEq, Eq, Structural)]
pub enum EventKind {
    /// A thread ran into the breakpoint on the target.
    Hit,
    /// A thread has made one step.
    Stepped,
    /// A breakpoint that is not the session's.
    OtherBreakpoint,
    /// Any other exception.
    OtherException,
    /// The process has ended.
    Exited,
    /// Anything else.
    Other,
}

/// The event that the session is dealing with.
#[derive(Clone, Copy, Debug, PartialEq, Eq, Structural)]
pub struct EventId {
    pub process_id: u32,
    pub thread_id: u32,
}

/// A thread to be put right before the process is let go.
#[derive(Clone, Copy)]
pub struct Errand {
    pub thread_id: u32,
    /// The hit that the thread stands still for: its instruction pointer goes back on the target.
    /// Without one, it is the trap flag that the session set which is to be cleared.
    pub hit: Option<EventId>,
}

/// What a session asks the system for.
pub enum Request {
    /// Arrange for interrupts from the keyboard to be noted. Answered by `Outcome`.
    InstallHandler,
    /// Open the process for access to its memory. Answered by `Handle`.
    OpenProcess { pid: u32 },
    /// Read `len` bytes of a process. Answered by `Read`.
    Read { process: isize, address: usize, len: usize },
    /// Read as many 64-bit words of a process, see [`stack_len`]. Answered by `Read`.
    ReadStack { process: isize, address: usize, words: usize },
    /// Write one byte of a process. Answered by `Written`.
    Write { process: isize, address: usize, byte: u8 },
    /// Become the debugger of the process. Answered by `Outcome`.
    Attach { pid: u32 },
    /// See whether an interrupt was noted. Answered by `Interrupted`.
    PollInterrupt,
    /// Wait for a debug event. Answered by `Event`.
    WaitEvent { milliseconds: u32 },
    /// Open a thread for access to its context. Answered by `Handle`.
    OpenThread { thread_id: u32 },
    /// Fill in the context of a thread. Answered by `Context`.
    GetContext { thread: isize, context: Ctx },
    /// Set the context of a thread. Answered by `ContextSet`.
    SetContext { thread: isize, context: Ctx },
    /// Keep a thread from running. Answered by `Outcome`.
    Suspend { thread: isize },
    /// Let a thread run again. Answered by `Outcome`.
    Resume { thread: isize },
    /// Close a handle. Answered by `Outcome`.
    Close { handle: isize },
    /// Let the process go on after an event. Answered by `Outcome`.
    Continue { process_id: u32, thread_id: u32, status: u32 },
    /// Stop being the debugger of the process. Answered by `Outcome`.
    Detach { pid: u32 },
    /// Nothing more: the session is over.
    Exit,
}

/// What the system answers. Errors come in words.
pub enum Reply {
    Outcome(Result<(), String>),
    Handle(Result<isize, String>),
    /// The buffer as the system left it, and how many bytes the system says it read.
    Read { buffer: Vec<u8>, outcome: Result<usize, String> },
    /// How many bytes the system says it wrote.
    Written(Result<usize, String>),
    Interrupted(bool),
    /// No event came in time if `None`.
    Event(Option<DebugEvent>),
    /// The call failed if `None`.
    Context(Option<Ctx>),
    ContextSet(bool),
}

/// Where a line goes.
#[derive(Clone, Copy, Debug, PartialEq, Eq, Structural)]
pub enum Stream {
    Stdout,
    Stderr,
}

/// A line to print.
pub struct Output {
    pub stream: Stream,
    pub text: String,
}

/// A line to print, as a model.
pub ghost struct Line {
    pub stream: Stream,
    pub text: Seq<char>,
}

/// The answer that a session is waiting for.
#[derive(Clone, Copy)]
pub enum Phase {
    InstallHandler,
    OpenProcess,
    ReadOriginal,
    Arm,
    Attach,
    Poll,
    Wait,
    /// A hit: open the thread, get its context, read the return address and the stack, take the
    /// breakpoint away, make the thread step, and close the thread of an earlier hit.
    OpenThread { id: EventId },
    GetContext { id: EventId, thread: isize },
    ReadReturn { id: EventId, thread: isize, ctx: Ctx },
    ReadStack { id: EventId, thread: isize, ctx: Ctx },
    Disarm { id: EventId, thread: isize, ctx: Ctx },
    SetContext { id: EventId, thread: isize, ctx: Ctx },
    CloseOld { id: EventId, thread: isize },
    /// A step: plant the breakpoint again and close the thread.
    Rearm { id: EventId },
    CloseStepped { id: EventId, thread: isize },
    Continue { id: EventId, status: u32 },
    /// The end: put the original byte back,
    Restore,
    /// put the threads right that the session has tampered with,
    MendOpen { errand: Errand },
    MendSuspend { errand: Errand, thread: isize },
    MendGet { errand: Errand, thread: isize },
    MendSet { errand: Errand, thread: isize, ctx: Ctx },
    MendResume { errand: Errand, thread: isize },
    MendClose { errand: Errand, thread: isize },
    /// deal with the events that the system has ready, up to the limit,
    Drain,
    DrainContinue { id: EventId, status: u32 },
    /// detach, and close the process.
    Detach,
    CloseProcess,
    Finished,
}

/// A session.
pub struct Session {
    settings: Settings,
    process: isize,
    original: u8,
    hits: u64,
    last_thread: Option<isize>,
    flagged: Vec<u32>,
    stopping: bool,
    exited: bool,
    late_left: u32,
    phase: Phase,
    failure: Option<String>,
}

/// A session, as a model.
pub ghost struct State {
    pub settings: Settings,
    /// The handle of the process, once it is open.
    pub process: isize,
    /// The byte that the breakpoint takes the place of, once it was read.
    pub original: u8,
    /// How often a thread ran into the breakpoint.
    pub hits: u64,
    /// The handle of the thread that was last sent over the original instruction.
    pub last_thread: Option<isize>,
    /// The threads whose trap flag the session has set, and which have not stepped yet.
    pub flagged: Seq<u32>,
    /// The last hit that was asked for has been seen.
    pub stopping: bool,
    /// The process has ended by itself.
    pub exited: bool,
    /// How many events may still be taken after the session has stopped tracing.
    pub late_left: u32,
    pub phase: Phase,
    /// Why the session ends, if it ends early.
    pub failure: Option<Seq<char>>,
}

/// What an event means if the breakpoint is on `target`.
pub open spec fn kind_of(event: DebugEvent, target: usize) -> EventKind {
    if event.code == 1 {
        if event.exception_code == 0x8000_0003 && event.exception_address == target {
            EventKind::Hit
        } else if event.exception_code == 0x8000_0004 {
            EventKind::Stepped
        } else if event.exception_code == 0x8000_0003 {
            EventKind::OtherBreakpoint
        } else {
            EventKind::OtherException
        }
    } else if event.code == 5 {
        EventKind::Exited
    } else {
        EventKind::Other
    }
}

pub open spec fn id_of(event: DebugEvent) -> EventId {
    EventId { process_id: event.process_id, thread_id: event.thread_id }
}

/// What an event means if the breakpoint is on `target`.
pub fn classify(event: &DebugEvent, target: usize) -> (kind: EventKind)
    ensures
        kind == kind_of(*event, target),
        kind == EventKind::Exited <==> event.code == 5,
        kind == EventKind::Other <==> event.code != 1 && event.code != 5,
{
    if event.code == win32::exception_debug_event() {
        let breakpoint: bool = event.exception_code == win32::exception_breakpoint();
        if breakpoint && event.exception_address == target {
            EventKind::Hit
        } else if event.exception_code == win32::exception_single_step() {
            EventKind::Stepped
        } else if breakpoint {
            EventKind::OtherBreakpoint
        } else {
            EventKind::OtherException
        }
    } else if event.code == win32::exit_process_debug_event() {
        EventKind::Exited
    } else {
        EventKind::Other
    }
}

/// The message of a call that failed.
pub open spec fn call_failed(call: Seq<char>, error: Seq<char>) -> Seq<char> {
    call + ": "@ + error
}

/// The message of a call on a process or thread that failed.
pub open spec fn call_on_failed(call: Seq<char>, id: u32, error: Seq<char>) -> Seq<char> {
    call + "("@ + text::decimal(id as nat) + "): "@ + error
}

fn call_message(call: &str, error: &String) -> (message: String)
    ensures
        message@ == call_failed(call@, error@),
{
    let mut message: String = call.to_owned();
    message.append(": ");
    message.append(error.as_str());
    message
}

fn call_on_message(call: &str, id: u32, error: &String) -> (message: String)
    ensures
        message@ == call_on_failed(call@, id, error@),
{
    let mut message: String = call.to_owned();
    message.append("(");
    text::push_decimal(&mut message, id as u64);
    message.append("): ");
    message.append(error.as_str());
    message
}

/// The length in bytes of a buffer for `words` words of the stack, if a buffer can be that long.
pub fn stack_len(words: usize) -> (len: Option<usize>)
    ensures
        words * 8 <= isize::MAX ==> len == Some((words * 8) as usize),
        words * 8 > isize::MAX ==> len is None,
{
    if words <= isize::MAX as usize / 8 {
        Some(words * 8)
    } else {
        None
    }
}

impl Phase {
    /// The session is on its way out.
    pub open spec fn is_out(self) -> bool {
        match self {
            Phase::Restore
            | Phase::MendOpen { .. }
            | Phase::MendSuspend { .. }
            | Phase::MendGet { .. }
            | Phase::MendSet { .. }
            | Phase::MendResume { .. }
            | Phase::MendClose { .. }
            | Phase::Drain
            | Phase::DrainContinue { .. }
            | Phase::Detach
            | Phase::CloseProcess
            | Phase::Finished => true,
            _ => false,
        }
    }

    /// Where a session goes when it fails. Once it is attached, it puts the byte back and detaches;
    /// before, it only closes the process, if that is open. A session that is on its way out
    /// already goes on as it was.
    pub open spec fn way_out(self) -> Phase {
        match self {
            Phase::InstallHandler | Phase::OpenProcess => Phase::Finished,
            Phase::ReadOriginal | Phase::Arm | Phase::Attach => Phase::CloseProcess,
            _ => if self.is_out() {
                self
            } else {
                Phase::Restore
            },
        }
    }

    /// Where a session goes when it fails.
    fn exit(self) -> (phase: Phase)
        ensures
            phase == self.way_out(),
    {
        match self {
            Phase::InstallHandler | Phase::OpenProcess => Phase::Finished,
            Phase::ReadOriginal | Phase::Arm | Phase::Attach => Phase::CloseProcess,
            Phase::Restore
            | Phase::MendOpen { .. }
            | Phase::MendSuspend { .. }
            | Phase::MendGet { .. }
            | Phase::MendSet { .. }
            | Phase::MendResume { .. }
            | Phase::MendClose { .. }
            | Phase::Drain
            | Phase::DrainContinue { .. }
            | Phase::Detach
            | Phase::CloseProcess
            | Phase::Finished => self,
            _ => Phase::Restore,
        }
    }
}

/// `threads` with `thread` among them.
pub open spec fn with_thread(threads: Seq<u32>, thread: u32) -> Seq<u32> {
    if threads.contains(thread) {
        threads
    } else {
        threads.push(thread)
    }
}

/// `threads` without `thread`.
pub open spec fn without_thread(threads: Seq<u32>, thread: u32) -> Seq<u32>
    decreases threads.len(),
{
    if threads.len() == 0 {
        threads
    } else if threads.last() == thread {
        without_thread(threads.drop_last(), thread)
    } else {
        without_thread(threads.drop_last(), thread).push(threads.last())
    }
}

fn has_thread(threads: &Vec<u32>, thread: u32) -> (found: bool)
    ensures
        found == threads@.contains(thread),
{
    let mut i: usize = 0;
    while i < threads.len()
        invariant
            i <= threads@.len(),
            forall|j: int| 0 <= j < i ==> threads@[j] != thread,
        decreases threads@.len() - i,
    {
        if threads[i] == thread {
            return true;
        }
        i = i + 1;
    }
    false
}

fn add_thread(threads: &mut Vec<u32>, thread: u32)
    ensures
        final(threads)@ == with_thread(old(threads)@, thread),
{
    if !has_thread(threads, thread) {
        threads.push(thread);
    }
}

fn remove_thread(threads: &Vec<u32>, thread: u32) -> (rest: Vec<u32>)
    ensures
        rest@ == without_thread(threads@, thread),
{
    let mut rest: Vec<u32> = Vec::new();
    let mut i: usize = 0;
    while i < threads.len()
        invariant
            i <= threads@.len(),
            rest@ == without_thread(threads@.take(i as int), thread),
        decreases threads@.len() - i,
    {
        assert(threads@.take(i + 1).drop_last() == threads@.take(i as int));
        assert(threads@.take(i + 1).last() == threads@[i as int]);
        if threads[i] != thread {
            rest.push(threads[i]);
        }
        i = i + 1;
    }
    assert(threads@.take(i as int) == threads@);
    rest
}

/// The return address that a hit is reported with: zero if it could not be read.
pub open spec fn return_address(ctx: Ctx, buffer: Seq<u8>, outcome: Result<usize, String>) -> u64 {
    if memory::read_failure(stack_address(ctx), 8, outcome) is None {
        bytes::le_value(buffer) as u64
    } else {
        0
    }
}

/// The address that the stack pointer holds.
pub open spec fn stack_address(ctx: Ctx) -> usize {
    context::field_u64(ctx@, context::OFF_RSP as int) as usize
}

impl Errand {
    /// The context that the thread is to go on with.
    pub open spec fn mended(self, block: Seq<u8>) -> Seq<u8> {
        if self.hit is Some {
            context::rewound(block)
        } else {
            context::untrapped(block)
        }
    }
}

impl State {
    pub open spec fn initial(settings: Settings) -> State {
        State {
            settings,
            process: 0,
            original: 0,
            hits: 0,
            last_thread: None,
            flagged: Seq::empty(),
            stopping: false,
            exited: false,
            late_left: LATE_EVENTS_MAX,
            phase: Phase::InstallHandler,
            failure: None,
        }
    }

    /// What is asked for in this state.
    pub open spec fn asks(self, request: Request) -> bool {
        let pid = self.settings.pid;
        let target = self.settings.target;
        let process = self.process;
        match self.phase {
            Phase::InstallHandler => request == Request::InstallHandler,
            Phase::OpenProcess => request == (Request::OpenProcess { pid }),
            Phase::ReadOriginal => request == (Request::Read { process, address: target, len: 1 }),
            Phase::Arm | Phase::Rearm { .. } => request == (Request::Write {
                process,
                address: target,
                byte: INT3,
            }),
            Phase::Attach => request == (Request::Attach { pid }),
            Phase::Poll => request == Request::PollInterrupt,
            Phase::Wait => request == (Request::WaitEvent { milliseconds: WAIT_MILLISECONDS }),
            Phase::Drain => request == (Request::WaitEvent { milliseconds: 0 }),
            Phase::OpenThread { id } => request == (Request::OpenThread {
                thread_id: id.thread_id,
            }),
            Phase::MendOpen { errand } => request == (Request::OpenThread {
                thread_id: errand.thread_id,
            }),
            Phase::MendSuspend { thread, .. } => request == (Request::Suspend { thread }),
            Phase::MendResume { thread, .. } => request == (Request::Resume { thread }),
            Phase::MendSet { errand, thread, ctx } => request matches Request::SetContext {
                thread: t,
                context: c,
            } && t == thread && c@ == errand.mended(ctx@),
            Phase::GetContext { thread, .. }
            | Phase::MendGet { thread, .. } => request matches Request::GetContext {
                thread: t,
                context: c,
            } && t == thread && c@ == context::blank(CONTEXT_FULL),
            Phase::ReadReturn { ctx, .. } => request == (Request::Read {
                process,
                address: stack_address(ctx),
                len: 8,
            }),
            Phase::ReadStack { ctx, .. } => request == (Request::ReadStack {
                process,
                address: stack_address(ctx),
                words: self.settings.stack_words,
            }),
            Phase::Disarm { .. } | Phase::Restore => request == (Request::Write {
                process,
                address: target,
                byte: self.original,
            }),
            Phase::SetContext { thread, ctx, .. } => request matches Request::SetContext {
                thread: t,
                context: c,
            } && t == thread && c@ == context::trapping(context::rewound(ctx@)),
            Phase::CloseOld { thread, .. }
            | Phase::CloseStepped { thread, .. }
            | Phase::MendClose { thread, .. } => request == (Request::Close { handle: thread }),
            Phase::Continue { id, status }
            | Phase::DrainContinue { id, status } => request == (Request::Continue {
                process_id: id.process_id,
                thread_id: id.thread_id,
                status,
            }),
            Phase::Detach => request == (Request::Detach { pid }),
            Phase::CloseProcess => request == (Request::Close { handle: process }),
            Phase::Finished => request == Request::Exit,
        }
    }

    /// `reply` answers what is asked for in this state, and the numbers in it can be dealt with.
    pub open spec fn accepts(self, reply: Reply) -> bool {
        match self.phase {
            Phase::InstallHandler | Phase::Attach | Phase::Continue { .. } | Phase::CloseOld { .. }
            | Phase::CloseStepped { .. } | Phase::MendSuspend { .. } | Phase::MendResume { .. }
            | Phase::MendClose { .. } | Phase::DrainContinue { .. } | Phase::Detach
            | Phase::CloseProcess => reply is Outcome,
            Phase::OpenProcess | Phase::OpenThread { .. } | Phase::MendOpen { .. } => {
                reply is Handle
            },
            Phase::ReadOriginal => reply matches Reply::Read { buffer, .. } && buffer@.len() == 1,
            Phase::Arm | Phase::Disarm { .. } | Phase::Rearm { .. } | Phase::Restore => {
                reply is Written
            },
            Phase::Poll => reply is Interrupted,
            Phase::Wait => reply matches Reply::Event(event) && (event matches Some(e) && kind_of(
                e,
                self.settings.target,
            ) == EventKind::Hit ==> self.hits < u64::MAX),
            Phase::Drain => reply is Event,
            Phase::GetContext { .. } | Phase::MendGet { .. } => reply is Context,
            Phase::ReadReturn { .. } => reply matches Reply::Read { buffer, .. } && buffer@.len()
                == 8,
            Phase::ReadStack { .. } => reply matches Reply::Read { buffer, outcome } && (
            outcome matches Ok(n) ==> n / 8 * 8 <= buffer@.len()),
            Phase::SetContext { .. } | Phase::MendSet { .. } => reply is ContextSet,
            Phase::Finished => false,
        }
    }

    pub open spec fn at(self, phase: Phase) -> State {
        State { phase, ..self }
    }

    /// The session fails. It ends with the message of its first failure.
    pub open spec fn failed(self, message: Seq<char>) -> State {
        State {
            phase: self.phase.way_out(),
            failure: if self.failure is Some {
                self.failure
            } else {
                Some(message)
            },
            ..self
        }
    }

    /// The session fails, or else goes on.
    pub open spec fn failed_or(self, failure: Option<Seq<char>>, next: State) -> State {
        match failure {
            Some(message) => self.failed(message),
            None => next,
        }
    }

    /// As many hits were seen as were asked for.
    pub open spec fn limit_reached(self) -> bool {
        self.settings.max_hits matches Some(max) && self.hits >= max
    }

    /// A hit is dealt with: the process may go on, for the last time if the limit is reached.
    pub open spec fn settled(self, id: EventId) -> State {
        State {
            stopping: self.stopping || self.limit_reached(),
            phase: Phase::Continue { id, status: DBG_CONTINUE },
            ..self
        }
    }

    /// What a debug event leads to.
    pub open spec fn after_event(self, event: DebugEvent) -> State {
        let id = id_of(event);
        match kind_of(event, self.settings.target) {
            EventKind::Hit => State {
                hits: (self.hits + 1) as u64,
                phase: Phase::OpenThread { id },
                ..self
            },
            EventKind::Stepped => State {
                flagged: without_thread(self.flagged, id.thread_id),
                phase: Phase::Rearm { id },
                ..self
            },
            EventKind::OtherBreakpoint | EventKind::Other => self.at(
                Phase::Continue { id, status: DBG_CONTINUE },
            ),
            EventKind::OtherException => self.at(
                Phase::Continue { id, status: DBG_EXCEPTION_NOT_HANDLED },
            ),
            EventKind::Exited => State { exited: true, phase: Phase::Restore, ..self },
        }
    }

    /// One event less may be taken.
    pub open spec fn with_late_event(self) -> State {
        State {
            late_left: if self.late_left == 0 {
                0
            } else {
                (self.late_left - 1) as u32
            },
            ..self
        }
    }

    /// What a debug event leads to that is taken after the session has stopped tracing. A thread
    /// that ran into the breakpoint is put back on the target; it is not counted as a hit any more.
    pub open spec fn after_late_event(self, event: DebugEvent) -> State {
        let id = id_of(event);
        match kind_of(event, self.settings.target) {
            EventKind::Hit => self.at(
                Phase::MendOpen { errand: Errand { thread_id: id.thread_id, hit: Some(id) } },
            ),
            EventKind::Stepped | EventKind::OtherBreakpoint | EventKind::Other => self.at(
                Phase::DrainContinue { id, status: DBG_CONTINUE },
            ),
            EventKind::OtherException => self.at(
                Phase::DrainContinue { id, status: DBG_EXCEPTION_NOT_HANDLED },
            ),
            EventKind::Exited => State { exited: true, phase: Phase::Detach, ..self },
        }
    }

    /// The next thread whose trap flag is to be cleared, and the events that are ready when there is
    /// none.
    pub open spec fn mending(self) -> State {
        if self.flagged.len() > 0 {
            self.at(
                Phase::MendOpen { errand: Errand { thread_id: self.flagged.last(), hit: None } },
            )
        } else {
            self.at(Phase::Drain)
        }
    }

    /// Nothing more can be done for a thread.
    pub open spec fn after_errand(self, errand: Errand) -> State {
        match errand.hit {
            Some(id) => self.at(Phase::DrainContinue { id, status: DBG_CONTINUE }),
            None => State {
                flagged: if self.flagged.len() > 0 {
                    self.flagged.drop_last()
                } else {
                    self.flagged
                },
                ..self
            }.mending(),
        }
    }

    /// What an answer leads to.
    pub open spec fn after(self, reply: Reply) -> State {
        let target = self.settings.target;
        match (self.phase, reply) {
            (Phase::InstallHandler, Reply::Outcome(outcome)) => match outcome {
                Ok(_) => self.at(Phase::OpenProcess),
                Err(e) => self.failed(call_failed("SetConsoleCtrlHandler"@, e@)),
            },
            (Phase::OpenProcess, Reply::Handle(outcome)) => match outcome {
                Ok(process) => State { process, phase: Phase::ReadOriginal, ..self },
                Err(e) => self.failed(call_on_failed("OpenProcess"@, self.settings.pid, e@)),
            },
            (Phase::ReadOriginal, Reply::Read { buffer, outcome }) => self.failed_or(
                memory::read_failure(target, 1, outcome),
                State { original: buffer@[0], phase: Phase::Arm, ..self },
            ),
            (Phase::Arm, Reply::Written(outcome)) => self.failed_or(
                memory::write_failure(target, outcome),
                self.at(Phase::Attach),
            ),
            (Phase::Attach, Reply::Outcome(outcome)) => match outcome {
                Ok(_) => self.at(Phase::Poll),
                Err(e) => self.failed(call_on_failed("DebugActiveProcess"@, self.settings.pid, e@)),
            },
            (Phase::Poll, Reply::Interrupted(interrupted)) => if interrupted {
                self.at(Phase::Restore)
            } else {
                self.at(Phase::Wait)
            },
            (Phase::Wait, Reply::Event(event)) => match event {
                Some(event) => self.after_event(event),
                None => self.at(Phase::Poll),
            },
            (Phase::OpenThread { id }, Reply::Handle(outcome)) => match outcome {
                Ok(thread) => self.at(Phase::GetContext { id, thread }),
                Err(e) => self.failed(call_on_failed("OpenThread"@, id.thread_id, e@)),
            },
            (Phase::GetContext { id, thread }, Reply::Context(context)) => match context {
                Some(ctx) => self.at(Phase::ReadReturn { id, thread, ctx }),
                None => self.failed("GetThreadContext failed"@),
            },
            (Phase::ReadReturn { id, thread, ctx }, Reply::Read { .. }) => if
                self.settings.stack_words > 0 {
                self.at(Phase::ReadStack { id, thread, ctx })
            } else {
                self.at(Phase::Disarm { id, thread, ctx })
            },
            (Phase::ReadStack { id, thread, ctx }, Reply::Read { .. }) => self.at(
                Phase::Disarm { id, thread, ctx },
            ),
            (Phase::Disarm { id, thread, ctx }, Reply::Written(outcome)) => self.failed_or(
                memory::write_failure(target, outcome),
                self.at(Phase::SetContext { id, thread, ctx }),
            ),
            (Phase::SetContext { id, thread, ctx }, Reply::ContextSet(set)) => if set {
                let kept = State {
                    last_thread: Some(thread),
                    flagged: if context::has_trap(ctx@) {
                        self.flagged
                    } else {
                        with_thread(self.flagged, id.thread_id)
                    },
                    ..self
                };
                match self.last_thread {
                    Some(old_thread) => kept.at(Phase::CloseOld { id, thread: old_thread }),
                    None => kept.settled(id),
                }
            } else {
                self.failed("SetThreadContext failed"@)
            },
            (Phase::CloseOld { id, .. }, _) => self.settled(id),
            (Phase::Rearm { id }, Reply::Written(outcome)) => {
                let released = State { last_thread: None, ..self };
                self.failed_or(
                    memory::write_failure(target, outcome),
                    match self.last_thread {
                        Some(thread) => released.at(Phase::CloseStepped { id, thread }),
                        None => released.at(Phase::Continue { id, status: DBG_CONTINUE }),
                    },
                )
            },
            (Phase::CloseStepped { id, .. }, _) => self.at(
                Phase::Continue { id, status: DBG_CONTINUE },
            ),
            (Phase::Continue { .. }, Reply::Outcome(outcome)) => match outcome {
                Ok(_) => if self.stopping {
                    self.at(Phase::Restore)
                } else {
                    self.at(Phase::Poll)
                },
                Err(e) => self.failed(call_failed("ContinueDebugEvent"@, e@)),
            },
            (Phase::Restore, Reply::Written(outcome)) => if self.failure is Some || self.exited
                || memory::write_failure(target, outcome) is Some {
                self.at(Phase::Detach)
            } else {
                self.mending()
            },
            (Phase::MendOpen { errand }, Reply::Handle(outcome)) => match outcome {
                Ok(thread) => self.at(Phase::MendSuspend { errand, thread }),
                Err(_) => self.after_errand(errand),
            },
            (Phase::MendSuspend { errand, thread }, Reply::Outcome(outcome)) => match outcome {
                Ok(_) => self.at(Phase::MendGet { errand, thread }),
                Err(_) => self.at(Phase::MendClose { errand, thread }),
            },
            (Phase::MendGet { errand, thread }, Reply::Context(context)) => match context {
                Some(ctx) => self.at(Phase::MendSet { errand, thread, ctx }),
                None => self.at(Phase::MendResume { errand, thread }),
            },
            (Phase::MendSet { errand, thread, .. }, _) => self.at(
                Phase::MendResume { errand, thread },
            ),
            (Phase::MendResume { errand, thread }, _) => self.at(
                Phase::MendClose { errand, thread },
            ),
            (Phase::MendClose { errand, .. }, _) => self.after_errand(errand),
            (Phase::Drain, Reply::Event(event)) => match event {
                Some(event) => self.with_late_event().after_late_event(event),
                None => self.at(Phase::Detach),
            },
            (Phase::DrainContinue { .. }, Reply::Outcome(outcome)) => if outcome is Ok
                && self.late_left > 0 {
                self.at(Phase::Drain)
            } else {
                self.at(Phase::Detach)
            },
            (Phase::Detach, _) => self.at(Phase::CloseProcess),
            (Phase::CloseProcess, _) => self.at(Phase::Finished),
            _ => self,
        }
    }

    /// The line that is printed on an answer, before the next request.
    pub open spec fn says(self, reply: Reply) -> Option<Line> {
        match (self.phase, reply) {
            (Phase::Attach, Reply::Outcome(Ok(_))) => Some(
                Line {
                    stream: Stream::Stderr,
                    text: report::attached_text(self.settings.pid, self.settings.target),
                },
            ),
            (Phase::Wait, Reply::Event(Some(event))) => if kind_of(event, self.settings.target)
                == EventKind::Exited {
                Some(Line { stream: Stream::Stderr, text: "target exited"@ })
            } else {
                None
            },
            (Phase::ReadReturn { id, ctx, .. }, Reply::Read { buffer, outcome }) => Some(
                Line {
                    stream: Stream::Stdout,
                    text: report::hit_text(
                        self.hits,
                        id.thread_id,
                        context::one_less(context::field_u64(ctx@, context::OFF_RIP as int)),
                        return_address(ctx, buffer@, outcome),
                        ctx@,
                    ),
                },
            ),
            (Phase::ReadStack { .. }, Reply::Read { buffer, outcome: Ok(n) }) => Some(
                Line {
                    stream: Stream::Stdout,
                    text: report::stack_text(buffer@, (n / 8) as nat),
                },
            ),
            (Phase::SetContext { .. }, Reply::ContextSet(set)) => if set && self.last_thread is None
                && self.limit_reached() {
                Some(Line { stream: Stream::Stderr, text: "max-hits reached, detaching"@ })
            } else {
                None
            },
            (Phase::CloseOld { .. }, _) => if self.limit_reached() {
                Some(Line { stream: Stream::Stderr, text: "max-hits reached, detaching"@ })
            } else {
                None
            },
            (Phase::Detach, _) => if self.failure is None {
                Some(Line { stream: Stream::Stderr, text: report::done_text(self.hits) })
            } else {
                None
            },
            _ => None,
        }
    }
}

/// `output` is what `line` says.
pub open spec fn shows(output: Option<Output>, line: Option<Line>) -> bool {
    match line {
        None => output is None,
        Some(l) => output matches Some(o) && o.stream == l.stream && o.text@ == l.text,
    }
}

fn to_stderr(text: String) -> (output: Option<Output>)
    ensures
        shows(output, Some(Line { stream: Stream::Stderr, text: text@ })),
{
    Some(Output { stream: Stream::Stderr, text })
}

fn to_stdout(text: String) -> (output: Option<Output>)
    ensures
        shows(output, Some(Line { stream: Stream::Stdout, text: text@ })),
{
    Some(Output { stream: Stream::Stdout, text })
}

impl View for Session {
    type V = State;

    closed spec fn view(&self) -> State {
        State {
            settings: self.settings,
            process: self.process,
            original: self.original,
            hits: self.hits,
            last_thread: self.last_thread,
            flagged: self.flagged@,
            stopping: self.stopping,
            exited: self.exited,
            late_left: self.late_left,
            phase: self.phase,
            failure: match self.failure {
                Some(message) => Some(message@),
                None => None,
            },
        }
    }
}

impl Session {
    /// A session that has not asked for anything yet.
    pub fn new(settings: Settings) -> (session: Session)
        ensures
            session@ == State::initial(settings),
    {
        Session {
            settings,
            process: 0,
            original: 0,
            hits: 0,
            last_thread: None,
            flagged: Vec::new(),
            stopping: false,
            exited: false,
            late_left: LATE_EVENTS_MAX,
            phase: Phase::InstallHandler,
            failure: None,
        }
    }

    /// What the session asks for now.
    pub fn request(&self) -> (request: Request)
        ensures
            self@.asks(request),
    {
        let pid: u32 = self.settings.pid;
        let target: usize = self.settings.target;
        let process: isize = self.process;
        match self.phase {
            Phase::InstallHandler => Request::InstallHandler,
            Phase::OpenProcess => Request::OpenProcess { pid },
            Phase::ReadOriginal => Request::Read { process, address: target, len: 1 },
            Phase::Arm | Phase::Rearm { .. } => Request::Write {
                process,
                address: target,
                byte: INT3,
            },
            Phase::Attach => Request::Attach { pid },
            Phase::Poll => Request::PollInterrupt,
            Phase::Wait => Request::WaitEvent { milliseconds: WAIT_MILLISECONDS },
            Phase::Drain => Request::WaitEvent { milliseconds: 0 },
            Phase::OpenThread { id } => Request::OpenThread { thread_id: id.thread_id },
            Phase::MendOpen { errand } => Request::OpenThread { thread_id: errand.thread_id },
            Phase::MendSuspend { thread, .. } => Request::Suspend { thread },
            Phase::MendResume { thread, .. } => Request::Resume { thread },
            Phase::MendSet { errand, thread, ctx } => {
                let mut context: Ctx = ctx;
                match errand.hit {
                    Some(_) => context.rewind(),
                    None => context.clear_trap(),
                }
                Request::SetContext { thread, context }
            },
            Phase::GetContext { thread, .. } | Phase::MendGet { thread, .. } => Request::GetContext {
                thread,
                context: Ctx::new(CONTEXT_FULL),
            },
            Phase::ReadReturn { ctx, .. } => Request::Read {
                process,
                address: ctx.rsp() as usize,
                len: 8,
            },
            Phase::ReadStack { ctx, .. } => Request::ReadStack {
                process,
                address: ctx.rsp() as usize,
                words: self.settings.stack_words,
            },
            Phase::Disarm { .. } | Phase::Restore => Request::Write {
                process,
                address: target,
                byte: self.original,
            },
            Phase::SetContext { thread, ctx, .. } => {
                let mut context: Ctx = ctx;
                context.rewind();
                context.set_trap();
                Request::SetContext { thread, context }
            },
            Phase::CloseOld { thread, .. }
            | Phase::CloseStepped { thread, .. }
            | Phase::MendClose { thread, .. } => Request::Close { handle: thread },
            Phase::Continue { id, status } | Phase::DrainContinue { id, status } => Request::Continue {
                process_id: id.process_id,
                thread_id: id.thread_id,
                status,
            },
            Phase::Detach => Request::Detach { pid },
            Phase::CloseProcess => Request::Close { handle: process },
            Phase::Finished => Request::Exit,
        }
    }

    /// Whether `reply` answers what the session asks for, and the numbers in it can be dealt with.
    pub fn accepts(&self, reply: &Reply) -> (accepted: bool)
        ensures
            accepted == self@.accepts(*reply),
    {
        match (self.phase, reply) {
            (
                Phase::InstallHandler
                | Phase::Attach
                | Phase::Continue { .. }
                | Phase::CloseOld { .. }
                | Phase::CloseStepped { .. }
                | Phase::MendSuspend { .. }
                | Phase::MendResume { .. }
                | Phase::MendClose { .. }
                | Phase::DrainContinue { .. }
                | Phase::Detach
                | Phase::CloseProcess,
                Reply::Outcome(_),
            ) => true,
            (
                Phase::OpenProcess | Phase::OpenThread { .. } | Phase::MendOpen { .. },
                Reply::Handle(_),
            ) => true,
            (Phase::ReadOriginal, Reply::Read { buffer, .. }) => buffer.len() == 1,
            (
                Phase::Arm | Phase::Disarm { .. } | Phase::Rearm { .. } | Phase::Restore,
                Reply::Written(_),
            ) => true,
            (Phase::Poll, Reply::Interrupted(_)) => true,
            (Phase::Wait, Reply::Event(event)) => match event {
                Some(e) => match classify(e, self.settings.target) {
                    EventKind::Hit => self.hits < u64::MAX,
                    _ => true,
                },
                None => true,
            },
            (Phase::Drain, Reply::Event(_)) => true,
            (Phase::GetContext { .. } | Phase::MendGet { .. }, Reply::Context(_)) => true,
            (Phase::ReadReturn { .. }, Reply::Read { buffer, .. }) => buffer.len() == 8,
            (Phase::ReadStack { .. }, Reply::Read { buffer, outcome }) => match outcome {
                Ok(n) => *n / 8 * 8 <= buffer.len(),
                Err(_) => true,
            },
            (Phase::SetContext { .. } | Phase::MendSet { .. }, Reply::ContextSet(_)) => true,
            _ => false,
        }
    }

    fn at(self, phase: Phase) -> (session: Session)
        ensures
            session@ == self@.at(phase),
    {
        Session { phase, ..self }
    }

    /// Gives the session up: it ends with `message`, or with that of an earlier failure, and goes
    /// its way out from where it is. If it is attached, it puts the byte back and detaches; if it
    /// is not, the breakpoint stays on the target if it is there already.
    pub fn fail(self, message: String) -> (session: Session)
        ensures
            session@ == self@.failed(message@),
    {
        let failure: Option<String> = match self.failure {
            Some(earlier) => Some(earlier),
            None => Some(message),
        };
        Session { phase: self.phase.exit(), failure, ..self }
    }

    /// Goes on to `next` if a byte was written to the target, and fails otherwise.
    fn if_written(self, outcome: &Result<usize, String>, next: Phase) -> (session: Session)
        ensures
            session@ == self@.failed_or(
                memory::write_failure(self@.settings.target, *outcome),
                self@.at(next),
            ),
    {
        match memory::write_byte(self.settings.target, outcome) {
            Ok(_) => self.at(next),
            Err(message) => self.fail(message),
        }
    }

    /// Lets the process go on after a hit, for the last time if the limit is reached.
    fn settle(self, id: EventId) -> (step: (Session, Option<Output>))
        ensures
            step.0@ == self@.settled(id),
            shows(
                step.1,
                if self@.limit_reached() {
                    Some(Line { stream: Stream::Stderr, text: "max-hits reached, detaching"@ })
                } else {
                    None
                },
            ),
    {
        let limit: bool = match self.settings.max_hits {
            Some(max) => self.hits >= max,
            None => false,
        };
        let session: Session = Session {
            stopping: self.stopping || limit,
            phase: Phase::Continue { id, status: DBG_CONTINUE },
            ..self
        };
        if limit {
            (session, to_stderr("max-hits reached, detaching".to_owned()))
        } else {
            (session, None)
        }
    }

    /// Deals with a debug event.
    fn on_event(self, event: DebugEvent) -> (step: (Session, Option<Output>))
        requires
            kind_of(event, self@.settings.target) == EventKind::Hit ==> self@.hits < u64::MAX,
        ensures
            step.0@ == self@.after_event(event),
            shows(
                step.1,
                if kind_of(event, self@.settings.target) == EventKind::Exited {
                    Some(Line { stream: Stream::Stderr, text: "target exited"@ })
                } else {
                    None
                },
            ),
    {
        let id: EventId = EventId { process_id: event.process_id, thread_id: event.thread_id };
        match classify(&event, self.settings.target) {
            EventKind::Hit => (
                Session { hits: self.hits + 1, phase: Phase::OpenThread { id }, ..self },
                None,
            ),
            EventKind::Stepped => {
                let flagged: Vec<u32> = remove_thread(&self.flagged, id.thread_id);
                (Session { flagged, phase: Phase::Rearm { id }, ..self }, None)
            },
            EventKind::OtherBreakpoint | EventKind::Other => (
                self.at(Phase::Continue { id, status: DBG_CONTINUE }),
                None,
            ),
            EventKind::OtherException => (
                self.at(Phase::Continue { id, status: DBG_EXCEPTION_NOT_HANDLED }),
                None,
            ),
            EventKind::Exited => (
                Session { exited: true, phase: Phase::Restore, ..self },
                to_stderr("target exited".to_owned()),
            ),
        }
    }

    /// Deals with a debug event that is taken after the session has stopped tracing.
    fn on_late_event(self, event: DebugEvent) -> (session: Session)
        ensures
            session@ == self@.after_late_event(event),
    {
        let id: EventId = EventId { process_id: event.process_id, thread_id: event.thread_id };
        match classify(&event, self.settings.target) {
            EventKind::Hit => self.at(
                Phase::MendOpen { errand: Errand { thread_id: id.thread_id, hit: Some(id) } },
            ),
            EventKind::Stepped | EventKind::OtherBreakpoint | EventKind::Other => self.at(
                Phase::DrainContinue { id, status: DBG_CONTINUE },
            ),
            EventKind::OtherException => self.at(
                Phase::DrainContinue { id, status: DBG_EXCEPTION_NOT_HANDLED },
            ),
            EventKind::Exited => Session { exited: true, phase: Phase::Detach, ..self },
        }
    }

    /// Turns to the next thread whose trap flag is to be cleared, or to the events that are ready.
    fn mend(self) -> (session: Session)
        ensures
            session@ == self@.mending(),
    {
        let n: usize = self.flagged.len();
        if n > 0 {
            let errand: Errand = Errand { thread_id: self.flagged[n - 1], hit: None };
            self.at(Phase::MendOpen { errand })
        } else {
            self.at(Phase::Drain)
        }
    }

    /// Leaves a thread.
    fn end_errand(self, errand: Errand) -> (session: Session)
        ensures
            session@ == self@.after_errand(errand),
    {
        match errand.hit {
            Some(id) => self.at(Phase::DrainContinue { id, status: DBG_CONTINUE }),
            None => {
                let mut session: Session = self;
                let _ = session.flagged.pop();
                session.mend()
            },
        }
    }

    /// The report of a hit, once its return address was read.
    fn hit_output(
        &self,
        id: EventId,
        ctx: &Ctx,
        buffer: &Vec<u8>,
        outcome: &Result<usize, String>,
    ) -> (output: Option<Output>)
        requires
            buffer@.len() == 8,
        ensures
            shows(
                output,
                Some(
                    Line {
                        stream: Stream::Stdout,
                        text: report::hit_text(
                            self@.hits,
                            id.thread_id,
                            context::one_less(context::field_u64(ctx@, context::OFF_RIP as int)),
                            return_address(*ctx, buffer@, *outcome),
                            ctx@,
                        ),
                    },
                ),
            ),
    {
        let address: usize = ctx.rsp() as usize;
        let ret: u64 = match memory::read_qword(address, buffer.as_slice(), outcome) {
            Ok(value) => value,
            Err(_) => 0,
        };
        let rip: u64 = ctx.rip().saturating_sub(1);
        to_stdout(report::hit_report(self.hits, id.thread_id, rip, ret, ctx))
    }

    /// Takes an answer on the way out.
    fn advance_out(self, reply: Reply) -> (step: (Session, Option<Output>))
        requires
            self@.phase.is_out(),
            self@.accepts(reply),
        ensures
            step.0@ == self@.after(reply),
            shows(step.1, self@.says(reply)),
    {
        match (self.phase, reply) {
            (Phase::Restore, Reply::Written(outcome)) => {
                let failed: bool = match self.failure {
                    Some(_) => true,
                    None => false,
                };
                if failed || self.exited || memory::write_byte(
                    self.settings.target,
                    &outcome,
                ).is_err() {
                    (self.at(Phase::Detach), None)
                } else {
                    (self.mend(), None)
                }
            },
            (Phase::MendOpen { errand }, Reply::Handle(outcome)) => match outcome {
                Ok(thread) => (self.at(Phase::MendSuspend { errand, thread }), None),
                Err(_) => (self.end_errand(errand), None),
            },
            (Phase::MendSuspend { errand, thread }, Reply::Outcome(outcome)) => match outcome {
                Ok(_) => (self.at(Phase::MendGet { errand, thread }), None),
                Err(_) => (self.at(Phase::MendClose { errand, thread }), None),
            },
            (Phase::MendGet { errand, thread }, Reply::Context(context)) => match context {
                Some(ctx) => (self.at(Phase::MendSet { errand, thread, ctx }), None),
                None => (self.at(Phase::MendResume { errand, thread }), None),
            },
            (Phase::MendSet { errand, thread, .. }, _) => (
                self.at(Phase::MendResume { errand, thread }),
                None,
            ),
            (Phase::MendResume { errand, thread }, _) => (
                self.at(Phase::MendClose { errand, thread }),
                None,
            ),
            (Phase::MendClose { errand, .. }, _) => (self.end_errand(errand), None),
            (Phase::Drain, Reply::Event(event)) => match event {
                Some(event) => {
                    let late_left: u32 = self.late_left.saturating_sub(1);
                    (Session { late_left, ..self }.on_late_event(event), None)
                },
                None => (self.at(Phase::Detach), None),
            },
            (Phase::DrainContinue { .. }, Reply::Outcome(outcome)) => {
                if outcome.is_ok() && self.late_left > 0 {
                    (self.at(Phase::Drain), None)
                } else {
                    (self.at(Phase::Detach), None)
                }
            },
            (Phase::Detach, _) => {
                let output: Option<Output> = match self.failure {
                    Some(_) => None,
                    None => to_stderr(report::done_line(self.hits)),
                };
                (self.at(Phase::CloseProcess), output)
            },
            (Phase::CloseProcess, _) => (self.at(Phase::Finished), None),
            _ => (self, None),
        }
    }

    /// Takes an answer: the session that goes on from there, and the line to print first.
    #[verifier::rlimit(40)]
    pub fn advance(self, reply: Reply) -> (step: (Session, Option<Output>))
        requires
            self@.accepts(reply),
        ensures
            step.0@ == self@.after(reply),
            shows(step.1, self@.says(reply)),
    {
        let pid: u32 = self.settings.pid;
        match (self.phase, reply) {
            (Phase::InstallHandler, Reply::Outcome(outcome)) => match outcome {
                Ok(_) => (self.at(Phase::OpenProcess), None),
                Err(e) => (self.fail(call_message("SetConsoleCtrlHandler", &e)), None),
            },
            (Phase::OpenProcess, Reply::Handle(outcome)) => match outcome {
                Ok(process) => (Session { process, phase: Phase::ReadOriginal, ..self }, None),
                Err(e) => (self.fail(call_on_message("OpenProcess", pid, &e)), None),
            },
            (Phase::ReadOriginal, Reply::Read { buffer, outcome }) => {
                match memory::read_byte(self.settings.target, buffer[0], &outcome) {
                    Ok(original) => (Session { original, phase: Phase::Arm, ..self }, None),
                    Err(message) => (self.fail(message), None),
                }
            },
            (Phase::Arm, Reply::Written(outcome)) => (
                self.if_written(&outcome, Phase::Attach),
                None,
            ),
            (Phase::Attach, Reply::Outcome(outcome)) => match outcome {
                Ok(_) => {
                    let line: String = report::attached_line(pid, self.settings.target);
                    (self.at(Phase::Poll), to_stderr(line))
                },
                Err(e) => (self.fail(call_on_message("DebugActiveProcess", pid, &e)), None),
            },
            (Phase::Poll, Reply::Interrupted(interrupted)) => if interrupted {
                (self.at(Phase::Restore), None)
            } else {
                (self.at(Phase::Wait), None)
            },
            (Phase::Wait, Reply::Event(event)) => match event {
                Some(event) => self.on_event(event),
                None => (self.at(Phase::Poll), None),
            },
            (Phase::OpenThread { id }, Reply::Handle(outcome)) => match outcome {
                Ok(thread) => (self.at(Phase::GetContext { id, thread }), None),
                Err(e) => (self.fail(call_on_message("OpenThread", id.thread_id, &e)), None),
            },
            (Phase::GetContext { id, thread }, Reply::Context(context)) => match context {
                Some(ctx) => (self.at(Phase::ReadReturn { id, thread, ctx }), None),
                None => (self.fail("GetThreadContext failed".to_owned()), None),
            },
            (Phase::ReadReturn { id, thread, ctx }, Reply::Read { buffer, outcome }) => {
                let output: Option<Output> = self.hit_output(id, &ctx, &buffer, &outcome);
                if self.settings.stack_words > 0 {
                    (self.at(Phase::ReadStack { id, thread, ctx }), output)
                } else {
                    (self.at(Phase::Disarm { id, thread, ctx }), output)
                }
            },
            (Phase::ReadStack { id, thread, ctx }, Reply::Read { buffer, outcome }) => {
                let session: Session = self.at(Phase::Disarm { id, thread, ctx });
                match outcome {
                    Ok(n) => (session, to_stdout(report::stack_line(buffer.as_slice(), n))),
                    Err(_) => (session, None),
                }
            },
            (Phase::Disarm { id, thread, ctx }, Reply::Written(outcome)) => (
                self.if_written(&outcome, Phase::SetContext { id, thread, ctx }),
                None,
            ),
            (Phase::SetContext { id, thread, ctx }, Reply::ContextSet(set)) => if set {
                let earlier: Option<isize> = self.last_thread;
                let mut kept: Session = Session { last_thread: Some(thread), ..self };
                if !ctx.traps() {
                    add_thread(&mut kept.flagged, id.thread_id);
                }
                match earlier {
                    Some(old_thread) => (
                        kept.at(Phase::CloseOld { id, thread: old_thread }),
                        None,
                    ),
                    None => kept.settle(id),
                }
            } else {
                (self.fail("SetThreadContext failed".to_owned()), None)
            },
            (Phase::CloseOld { id, .. }, _) => self.settle(id),
            (Phase::Rearm { id }, Reply::Written(outcome)) => {
                match memory::write_byte(self.settings.target, &outcome) {
                    Ok(_) => {
                        let next: Phase = match self.last_thread {
                            Some(thread) => Phase::CloseStepped { id, thread },
                            None => Phase::Continue { id, status: DBG_CONTINUE },
                        };
                        (Session { last_thread: None, phase: next, ..self }, None)
                    },
                    Err(message) => (self.fail(message), None),
                }
            },
            (Phase::CloseStepped { id, .. }, _) => (
                self.at(Phase::Continue { id, status: DBG_CONTINUE }),
                None,
            ),
            (Phase::Continue { .. }, Reply::Outcome(outcome)) => match outcome {
                Ok(_) => if self.stopping {
                    (self.at(Phase::Restore), None)
                } else {
                    (self.at(Phase::Poll), None)
                },
                Err(e) => (self.fail(call_message("ContinueDebugEvent", &e)), None),
            },
            (_, reply) => self.advance_out(reply),
        }
    }

    /// How the session ended.
    pub fn into_result(self) -> (result: Result<(), String>)
        requires
            self@.phase is Finished,
        ensures
            match self@.failure {
                None => result is Ok,
                Some(message) => result is Err && result->Err_0@ == message,
            },
    {
        match self.failure {
            None => Ok(()),
            Some(message) => Err(message),
        }
    }
}

} // verus!

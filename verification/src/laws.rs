//! What holds of every session, from its first request to any later point, whatever the system
//! answers.
//!
//! The part of the system that a session can change is modelled by a [`World`]. A session and a
//! world move together, answer by answer.
use vstd::prelude::*;

use crate::context;
use crate::memory;
use crate::session;
use crate::session::{
    DebugEvent, EventId, EventKind, Phase, Reply, Request, Settings, State, DBG_CONTINUE,
    DBG_EXCEPTION_NOT_HANDLED, INT3, LATE_EVENTS_MAX,
};

verus! {

/// What a session can change of the system.
pub ghost struct World {
    /// The memory of the process before the session: the byte at each address.
    pub first: Map<usize, u8>,
    /// The memory of the process.
    pub memory: Map<usize, u8>,
    /// The threads with a trap flag that the session has set and that has not made them stop yet.
    pub flagged: Set<u32>,
    /// The handle of the process is open.
    pub process_open: bool,
    /// The handles of threads that are open.
    pub threads: Set<isize>,
    /// The process is being debugged.
    pub attached: bool,
    /// The process has been debugged.
    pub was_attached: bool,
    /// The event that the process stands still for.
    pub pending: Option<EventId>,
    /// The byte was put back at the end.
    pub restored: bool,
    /// The system has refused to close a handle.
    pub leaked: bool,
    /// The system has refused something else that a session asks for on its way out.
    pub refused: bool,
}

impl World {
    /// The system before a session.
    pub open spec fn before(memory: Map<usize, u8>) -> World {
        World {
            first: memory,
            memory,
            flagged: Set::empty(),
            process_open: false,
            threads: Set::empty(),
            attached: false,
            was_attached: false,
            pending: None,
            restored: false,
            leaked: false,
            refused: false,
        }
    }

    /// The answer is true of the system: a byte that was read is the byte that stands there, and a
    /// thread that was opened got a handle that is not in use.
    pub open spec fn honest(self, state: State, reply: Reply) -> bool {
        match (state.phase, reply) {
            (Phase::ReadOriginal, Reply::Read { buffer, outcome }) => memory::is_true_read(
                self.memory,
                state.settings.target,
                buffer@[0],
                outcome,
            ),
            (Phase::OpenThread { .. }, Reply::Handle(Ok(thread))) => !self.threads.contains(thread),
            (Phase::MendOpen { .. }, Reply::Handle(Ok(thread))) => !self.threads.contains(thread),
            _ => true,
        }
    }

    /// The system once a byte was to be written at the target.
    pub open spec fn after_write(
        self,
        state: State,
        byte: u8,
        outcome: Result<usize, String>,
    ) -> World {
        World {
            memory: memory::after_write(self.memory, state.settings.target, byte, outcome),
            ..self
        }
    }

    /// The system once it has told of an event. A thread that tells of its step has lost its trap
    /// flag, and a process that has ended has no threads.
    pub open spec fn after_event(self, state: State, event: DebugEvent) -> World {
        World {
            pending: Some(session::id_of(event)),
            flagged: match session::kind_of(event, state.settings.target) {
                EventKind::Stepped => self.flagged.remove(event.thread_id),
                EventKind::Exited => Set::empty(),
                _ => self.flagged,
            },
            ..self
        }
    }

    pub open spec fn after_opening(self, thread: isize) -> World {
        World { threads: self.threads.insert(thread), ..self }
    }

    pub open spec fn after_closing(self, thread: isize, outcome: Result<(), String>) -> World {
        match outcome {
            Ok(_) => World { threads: self.threads.remove(thread), ..self },
            Err(_) => World { leaked: true, ..self },
        }
    }

    pub open spec fn after_refusal(self) -> World {
        World { refused: true, ..self }
    }

    /// The system once it has given `reply` to what `state` asks for. A call that was answered by an
    /// error, and a write that was not answered by one byte written, have changed nothing.
    pub open spec fn after(self, state: State, reply: Reply) -> World {
        match (state.phase, reply) {
            (Phase::OpenProcess, Reply::Handle(Ok(_))) => World { process_open: true, ..self },
            (Phase::Arm, Reply::Written(outcome)) => self.after_write(state, INT3, outcome),
            (Phase::Rearm { .. }, Reply::Written(outcome)) => self.after_write(
                state,
                INT3,
                outcome,
            ),
            (Phase::Disarm { .. }, Reply::Written(outcome)) => self.after_write(
                state,
                state.original,
                outcome,
            ),
            (Phase::Restore, Reply::Written(outcome)) => {
                let done = memory::write_failure(state.settings.target, outcome) is None;
                World {
                    restored: done,
                    refused: self.refused || !done,
                    ..self.after_write(state, state.original, outcome)
                }
            },
            (Phase::Attach, Reply::Outcome(Ok(_))) => World {
                attached: true,
                was_attached: true,
                ..self
            },
            (Phase::Wait, Reply::Event(Some(event))) => self.after_event(state, event),
            (Phase::Drain, Reply::Event(Some(event))) => self.after_event(state, event),
            (Phase::OpenThread { .. }, Reply::Handle(Ok(thread))) => self.after_opening(thread),
            (Phase::MendOpen { .. }, Reply::Handle(Ok(thread))) => self.after_opening(thread),
            (Phase::SetContext { id, ctx, .. }, Reply::ContextSet(true)) => if context::has_trap(
                ctx@,
            ) {
                self
            } else {
                World { flagged: self.flagged.insert(id.thread_id), ..self }
            },
            (Phase::MendSet { errand, .. }, Reply::ContextSet(true)) => if errand.hit is Some {
                self
            } else {
                World { flagged: self.flagged.remove(errand.thread_id), ..self }
            },
            (Phase::CloseOld { thread, .. }, Reply::Outcome(outcome)) => self.after_closing(
                thread,
                outcome,
            ),
            (Phase::CloseStepped { thread, .. }, Reply::Outcome(outcome)) => self.after_closing(
                thread,
                outcome,
            ),
            (Phase::MendClose { thread, .. }, Reply::Outcome(outcome)) => self.after_closing(
                thread,
                outcome,
            ),
            (Phase::Continue { .. }, Reply::Outcome(Ok(_))) => World { pending: None, ..self },
            (Phase::DrainContinue { .. }, Reply::Outcome(Ok(_))) => World { pending: None, ..self },
            (Phase::Detach, Reply::Outcome(Ok(_))) => World { attached: false, ..self },
            (Phase::CloseProcess, Reply::Outcome(Ok(_))) => World { process_open: false, ..self },
            (Phase::CloseProcess, Reply::Outcome(Err(_))) => World { leaked: true, ..self },
            (Phase::MendOpen { .. }, Reply::Handle(Err(_))) => self.after_refusal(),
            (Phase::MendSuspend { .. }, Reply::Outcome(Err(_))) => self.after_refusal(),
            (Phase::MendGet { .. }, Reply::Context(None)) => self.after_refusal(),
            (Phase::MendSet { .. }, Reply::ContextSet(false)) => self.after_refusal(),
            (Phase::MendResume { .. }, Reply::Outcome(Err(_))) => self.after_refusal(),
            (Phase::DrainContinue { .. }, Reply::Outcome(Err(_))) => self.after_refusal(),
            (Phase::Detach, Reply::Outcome(Err(_))) => self.after_refusal(),
            _ => self,
        }
    }
}

/// Every answer suits what is asked for and is true of the system.
pub open spec fn fair(state: State, world: World, replies: Seq<Reply>) -> bool
    decreases replies.len(),
{
    replies.len() > 0 ==> {
        &&& state.accepts(replies[0])
        &&& world.honest(state, replies[0])
        &&& fair(state.after(replies[0]), world.after(state, replies[0]), replies.skip(1))
    }
}

/// The session and the system after all of `replies`.
pub open spec fn run(state: State, world: World, replies: Seq<Reply>) -> (State, World)
    decreases replies.len(),
{
    if replies.len() == 0 {
        (state, world)
    } else {
        run(state.after(replies[0]), world.after(state, replies[0]), replies.skip(1))
    }
}

/// How many of `replies` tell of a thread that ran into the breakpoint while the session traces.
pub open spec fn hits_among(state: State, replies: Seq<Reply>) -> nat
    decreases replies.len(),
{
    if replies.len() == 0 {
        0
    } else {
        let rest = hits_among(state.after(replies[0]), replies.skip(1));
        match (state.phase, replies[0]) {
            (Phase::Wait, Reply::Event(Some(event))) => if session::kind_of(
                event,
                state.settings.target,
            ) == EventKind::Hit {
                rest + 1
            } else {
                rest
            },
            _ => rest,
        }
    }
}

/// The numbers of the hits that are reported on the way, in the order of the reports.
pub open spec fn reports_among(state: State, replies: Seq<Reply>) -> Seq<u64>
    decreases replies.len(),
{
    if replies.len() == 0 {
        Seq::empty()
    } else {
        let rest = reports_among(state.after(replies[0]), replies.skip(1));
        if state.phase is ReadReturn {
            seq![state.hits] + rest
        } else {
            rest
        }
    }
}

impl Phase {
    /// The process is being debugged while the session waits for this answer.
    pub open spec fn while_attached(self) -> bool {
        match self {
            Phase::InstallHandler
            | Phase::OpenProcess
            | Phase::ReadOriginal
            | Phase::Arm
            | Phase::Attach
            | Phase::CloseProcess
            | Phase::Finished => false,
            _ => true,
        }
    }

    /// The session is tracing, and not on its way in or out.
    pub open spec fn while_tracing(self) -> bool {
        self.while_attached() && !self.is_out()
    }

    /// The event that is dealt with.
    pub open spec fn event(self) -> Option<EventId> {
        match self {
            Phase::OpenThread { id }
            | Phase::GetContext { id, .. }
            | Phase::ReadReturn { id, .. }
            | Phase::ReadStack { id, .. }
            | Phase::Disarm { id, .. }
            | Phase::SetContext { id, .. }
            | Phase::CloseOld { id, .. }
            | Phase::Rearm { id }
            | Phase::CloseStepped { id, .. }
            | Phase::Continue { id, .. }
            | Phase::DrainContinue { id, .. } => Some(id),
            Phase::MendOpen { errand }
            | Phase::MendSuspend { errand, .. }
            | Phase::MendGet { errand, .. }
            | Phase::MendSet { errand, .. }
            | Phase::MendResume { errand, .. }
            | Phase::MendClose { errand, .. } => errand.hit,
            _ => None,
        }
    }

    /// The thread that is dealt with, by its handle.
    pub open spec fn thread(self) -> Option<isize> {
        match self {
            Phase::GetContext { thread, .. }
            | Phase::ReadReturn { thread, .. }
            | Phase::ReadStack { thread, .. }
            | Phase::Disarm { thread, .. }
            | Phase::SetContext { thread, .. }
            | Phase::CloseOld { thread, .. }
            | Phase::CloseStepped { thread, .. }
            | Phase::MendSuspend { thread, .. }
            | Phase::MendGet { thread, .. }
            | Phase::MendSet { thread, .. }
            | Phase::MendResume { thread, .. }
            | Phase::MendClose { thread, .. } => Some(thread),
            _ => None,
        }
    }

    /// The thread, by its number, whose trap flag is being cleared.
    pub open spec fn released(self) -> Option<u32> {
        match self {
            Phase::MendOpen { errand }
            | Phase::MendSuspend { errand, .. }
            | Phase::MendGet { errand, .. }
            | Phase::MendSet { errand, .. }
            | Phase::MendResume { errand, .. }
            | Phase::MendClose { errand, .. } => if errand.hit is None {
                Some(errand.thread_id)
            } else {
                None
            },
            _ => None,
        }
    }
}

pub open spec fn as_set(handle: Option<isize>) -> Set<isize> {
    match handle {
        Some(h) => Set::empty().insert(h),
        None => Set::empty(),
    }
}

/// What a session and the system have to do with each other at any point.
pub open spec fn in_step(state: State, world: World) -> bool {
    let phase = state.phase;
    let target = state.settings.target;
    let on_the_way_in = phase is InstallHandler || phase is OpenProcess || phase is ReadOriginal
        || phase is Arm || phase is Attach;
    let ending = phase is Detach || phase is CloseProcess || phase is Finished;
    let stopped = phase.is_out() && state.failure is None && !state.exited;
    let open = as_set(state.last_thread).union(as_set(phase.thread()));
    // The process is open and debugged when the session thinks so, unless the system refuses to let
    // go of it.
    &&& phase.while_attached() ==> world.attached
    &&& world.attached && !phase.while_attached() ==> world.refused
    &&& !(phase is InstallHandler || phase is OpenProcess || phase is Finished)
        ==> world.process_open
    &&& phase is InstallHandler || phase is OpenProcess ==> !world.process_open
    &&& world.process_open && phase is Finished ==> world.leaked
    &&& world.attached ==> world.was_attached
    // No address but the target is ever changed, and what stood there is known once it may be.
    &&& world.memory.remove(target) == world.first.remove(target)
    &&& phase is Arm || phase is Attach || world.was_attached ==> world.first.contains_key(target)
        && world.first[target] == state.original
    // On the way in nothing has happened yet, but for the breakpoint that is planted at last.
    &&& on_the_way_in ==> !world.was_attached && !world.restored && !world.leaked && !world.refused
        && world.pending is None && world.flagged == Set::<u32>::empty() && world.threads == Set::<
        isize,
    >::empty() && state.last_thread is None && state.failure is None && !state.exited
    &&& on_the_way_in ==> world.memory == if phase is Attach {
        world.first.insert(target, INT3)
    } else {
        world.first
    }
    // The breakpoint is planted, but for the time that a thread takes to step over the original.
    &&& phase.while_tracing() ==> world.memory == if phase is SetContext || state.last_thread
        is Some {
        world.first
    } else {
        world.first.insert(target, INT3)
    }
    &&& phase.while_tracing() ==> !world.refused && state.failure is None && !state.exited
    // The process stands still for the event that the session deals with, and for no other.
    &&& phase.while_tracing() || stopped && !ending ==> world.pending == phase.event()
    &&& stopped && ending && !world.refused ==> world.pending is None
    // The open threads are the one that was sent to step last and the one that is dealt with, and
    // those that the system refused to close.
    &&& phase.while_tracing() || phase.is_out() && state.failure is None ==> open.subset_of(
        world.threads,
    ) && (!world.leaked ==> world.threads == open) && (phase.thread() is Some ==> phase.thread()
        != state.last_thread)
    // The session knows of every thread with a trap flag of its own, until the flag is cleared.
    &&& phase.while_tracing() || stopped && !world.refused ==> forall|t: u32| #[trigger]
        world.flagged.contains(t) ==> state.flagged.contains(t)
    &&& stopped && !world.refused && (phase is MendResume || phase is MendClose)
        && phase.released() is Some ==> !world.flagged.contains(phase.released()->0)
    &&& phase.released() is Some ==> state.flagged.len() > 0 && state.flagged.last()
        == phase.released()->0
    &&& stopped && !world.refused && phase.released() is None && !(phase is Restore)
        ==> state.flagged.len() == 0
    &&& state.exited ==> world.flagged == Set::<u32>::empty() && (phase is Restore || ending)
    // Events are only counted once the session takes what is ready, and it stops in time.
    &&& !phase.is_out() || phase is Restore || phase.released() is Some ==> state.late_left
        == LATE_EVENTS_MAX
    &&& phase is Drain ==> state.late_left > 0
    // At the end the byte is back, if the last write succeeded.
    &&& world.restored ==> world.memory == world.first
    &&& world.restored ==> phase.is_out() && !(phase is Restore)
    &&& phase.is_out() && !(phase is Restore) && world.was_attached && !world.refused
        ==> world.restored
    &&& state.failure is Some || state.exited ==> phase.is_out()
    &&& phase is Finished || phase is CloseProcess ==> state.failure is Some || world.was_attached
}

proof fn lemma_without_thread(threads: Seq<u32>, thread: u32, other: u32)
    requires
        threads.contains(other),
        other != thread,
    ensures
        session::without_thread(threads, thread).contains(other),
    decreases threads.len(),
{
    let rest = session::without_thread(threads.drop_last(), thread);
    let k = choose|k: int| 0 <= k < threads.len() && threads[k] == other;
    if k < threads.len() - 1 {
        assert(threads.drop_last()[k] == other);
        lemma_without_thread(threads.drop_last(), thread, other);
        let j = choose|j: int| 0 <= j < rest.len() && rest[j] == other;
        assert(rest.push(threads.last())[j] == other);
    } else {
        assert(rest.push(threads.last())[rest.len() as int] == other);
    }
}

proof fn lemma_with_thread(threads: Seq<u32>, thread: u32, other: u32)
    requires
        threads.contains(other) || other == thread,
    ensures
        session::with_thread(threads, thread).contains(other),
{
    if !threads.contains(thread) {
        let more = threads.push(thread);
        if threads.contains(other) {
            let k = choose|k: int| 0 <= k < threads.len() && threads[k] == other;
            assert(more[k] == other);
        } else {
            assert(more[threads.len() as int] == other);
        }
    }
}

proof fn lemma_drop_last(threads: Seq<u32>, other: u32)
    requires
        threads.contains(other),
        other != threads.last(),
    ensures
        threads.drop_last().contains(other),
{
    let k = choose|k: int| 0 <= k < threads.len() && threads[k] == other;
    assert(threads.drop_last()[k] == other);
}

/// A session and the system stay in step.
#[verifier::rlimit(40)]
pub proof fn law_step_keeps_in_step(state: State, world: World, reply: Reply)
    requires
        in_step(state, world),
        state.accepts(reply),
        world.honest(state, reply),
    ensures
        in_step(state.after(reply), world.after(state, reply)),
{
    let next = state.after(reply);
    let now = world.after(state, reply);
    let target = state.settings.target;
    assert(now.memory.remove(target) =~= now.first.remove(target));
    if world.first.contains_key(target) && world.first[target] == state.original {
        assert(world.memory.insert(target, state.original) =~= world.first) by {
            assert forall|a: usize| a != target implies (world.memory.contains_key(a)
                == world.first.contains_key(a) && (world.first.contains_key(a)
                ==> world.memory[a] == world.first[a])) by {
                assert(world.memory.remove(target).contains_key(a) == world.memory.contains_key(a));
                assert(world.first.remove(target).contains_key(a) == world.first.contains_key(a));
                if world.first.contains_key(a) {
                    assert(world.memory.remove(target)[a] == world.memory[a]);
                    assert(world.first.remove(target)[a] == world.first[a]);
                }
            }
        }
        assert(world.memory.insert(target, INT3) =~= world.first.insert(target, INT3)) by {
            assert(world.memory.insert(target, state.original).insert(target, INT3)
                =~= world.memory.insert(target, INT3));
        }
    }
    if !now.leaked {
        assert(now.threads =~= as_set(next.last_thread).union(as_set(next.phase.thread()))
            || !(next.phase.while_tracing() || next.phase.is_out() && next.failure is None));
    }
    assert forall|t: u32| #[trigger]
        now.flagged.contains(t) && (next.phase.while_tracing() || next.phase.is_out()
            && next.failure is None && !next.exited && !now.refused) implies next.flagged.contains(
        t,
    ) by {
        match (state.phase, reply) {
            (Phase::Wait, Reply::Event(Some(event))) => {
                if session::kind_of(event, target) == EventKind::Stepped {
                    lemma_without_thread(state.flagged, event.thread_id, t);
                }
            },
            (Phase::SetContext { id, .. }, _) => {
                lemma_with_thread(state.flagged, id.thread_id, t);
            },
            (Phase::MendClose { errand, .. }, _) => {
                if errand.hit is None {
                    lemma_drop_last(state.flagged, t);
                }
            },
            _ => {},
        }
    }
}

/// A session and the system stay in step over any number of answers. The session keeps its
/// settings.
pub proof fn law_run_keeps_in_step(state: State, world: World, replies: Seq<Reply>)
    requires
        in_step(state, world),
        fair(state, world, replies),
    ensures
        ({
            let (end, outcome) = run(state, world, replies);
            &&& in_step(end, outcome)
            &&& outcome.first == world.first
            &&& world.was_attached ==> outcome.was_attached
            &&& end.settings == state.settings
        }),
    decreases replies.len(),
{
    if replies.len() > 0 {
        law_step_keeps_in_step(state, world, replies[0]);
        law_run_keeps_in_step(
            state.after(replies[0]),
            world.after(state, replies[0]),
            replies.skip(1),
        );
    }
}

/// Giving up a session keeps it in step with the system.
pub proof fn law_giving_up_keeps_in_step(state: State, world: World, message: Seq<char>)
    requires
        in_step(state, world),
    ensures
        in_step(state.failed(message), world),
        state.failed(message).phase.is_out(),
{
}

/// At any point of a session that is tracing:
/// the breakpoint is on the target whenever no thread is on its way over the original instruction,
/// the memory is as it was before the session whenever one is, and no other address ever differs;
/// the session waits for an event only when the process stands still for none;
/// the event that it lets the process go on from is the one that the process stands still for;
/// between events no thread is open but the one on its way over the original instruction, unless
/// the system has refused to close one;
/// and every thread with a trap flag that the session has set is one that it knows of.
pub proof fn law_tracing(settings: Settings, memory: Map<usize, u8>, replies: Seq<Reply>)
    requires
        fair(State::initial(settings), World::before(memory), replies),
    ensures
        ({
            let (state, world) = run(State::initial(settings), World::before(memory), replies);
            let idle = state.phase is Poll || state.phase is Wait;
            &&& idle && state.last_thread is None ==> world.memory == memory.insert(
                settings.target,
                INT3,
            )
            &&& idle && state.last_thread is Some ==> world.memory == memory
            &&& world.memory.remove(settings.target) == memory.remove(settings.target)
            &&& idle ==> world.pending is None
            &&& state.phase matches Phase::Continue { id, .. } ==> world.pending == Some(id)
            &&& (idle || state.phase is Continue) && !world.leaked ==> world.threads == as_set(
                state.last_thread,
            )
            &&& idle ==> forall|t: u32| #[trigger]
                world.flagged.contains(t) ==> state.flagged.contains(t)
        }),
{
    law_run_keeps_in_step(State::initial(settings), World::before(memory), replies);
    let (state, world) = run(State::initial(settings), World::before(memory), replies);
    assert(as_set(state.last_thread).union(as_set(None)) =~= as_set(state.last_thread));
}

/// When a session is over, the process is not debugged, its memory is as it was before the session
/// if it was debugged, and the handle of the process is closed, each unless the system has refused
/// it. If the session did not fail, no thread has a trap flag left that the session has set, and the
/// process stands still for no event, unless it has ended.
pub proof fn law_finished_session_has_cleaned_up(
    settings: Settings,
    memory: Map<usize, u8>,
    replies: Seq<Reply>,
)
    requires
        fair(State::initial(settings), World::before(memory), replies),
        run(State::initial(settings), World::before(memory), replies).0.phase is Finished,
    ensures
        ({
            let (state, world) = run(State::initial(settings), World::before(memory), replies);
            &&& !world.leaked ==> !world.process_open
            &&& !world.refused ==> !world.attached
            &&& !world.refused && world.was_attached ==> world.memory == memory
            &&& state.failure is None ==> world.was_attached
            &&& state.failure is None && !world.refused ==> world.flagged == Set::<u32>::empty()
            &&& state.failure is None && !world.refused ==> world.pending is None || state.exited
        }),
{
    law_run_keeps_in_step(State::initial(settings), World::before(memory), replies);
    let (state, world) = run(State::initial(settings), World::before(memory), replies);
    if state.failure is None && !world.refused {
        assert(world.flagged =~= Set::<u32>::empty());
    }
}

/// The most answers that a session on its way out still takes.
pub open spec fn answers_left(state: State) -> nat {
    let threads = 6 * state.flagged.len();
    let events = 8 * state.late_left as nat;
    match state.phase {
        Phase::Restore => threads + events + 4,
        Phase::MendOpen { errand } => if errand.hit is Some {
            events + 10
        } else {
            threads + events + 3
        },
        Phase::MendSuspend { errand, .. } => if errand.hit is Some {
            events + 9
        } else {
            threads + events + 2
        },
        Phase::MendGet { errand, .. } => if errand.hit is Some {
            events + 8
        } else {
            threads + events + 1
        },
        Phase::MendSet { errand, .. } => if errand.hit is Some {
            events + 7
        } else {
            threads + events
        },
        Phase::MendResume { errand, .. } => if errand.hit is Some {
            events + 6
        } else {
            (threads + events - 1) as nat
        },
        Phase::MendClose { errand, .. } => if errand.hit is Some {
            events + 5
        } else {
            (threads + events - 2) as nat
        },
        Phase::DrainContinue { .. } => events + 4,
        Phase::Drain => events + 3,
        Phase::Detach => 2,
        Phase::CloseProcess => 1,
        _ => 0,
    }
}

/// A session that is on its way out goes on to its end, whatever the system answers: it traces no
/// more, counts no more hits, its failure stays, and it is over after a number of answers that is
/// known beforehand. If it has failed, or the process has ended, that number is three.
pub proof fn law_way_out(state: State, world: World, replies: Seq<Reply>)
    requires
        in_step(state, world),
        state.phase.is_out(),
        fair(state, world, replies),
    ensures
        ({
            let end = run(state, world, replies).0;
            &&& end.phase.is_out()
            &&& end.failure == state.failure
            &&& end.hits == state.hits
            &&& replies.len() + answers_left(end) <= answers_left(state)
            &&& answers_left(end) == 0 <==> end.phase is Finished
            &&& state.phase is Restore && (state.failure is Some || state.exited) ==> replies.len()
                <= 3 && (replies.len() == 3 ==> end.phase is Finished)
        }),
    decreases replies.len(),
{
    if replies.len() > 0 {
        let next = state.after(replies[0]);
        let now = world.after(state, replies[0]);
        law_step_keeps_in_step(state, world, replies[0]);
        law_way_out(next, now, replies.skip(1));
        if state.phase is Restore && (state.failure is Some || state.exited) {
            lemma_detaching_session_ends(next, now, replies.skip(1));
        }
    }
}

/// A session that is about to detach is over after two more answers.
proof fn lemma_detaching_session_ends(state: State, world: World, replies: Seq<Reply>)
    requires
        state.phase is Detach,
        fair(state, world, replies),
    ensures
        replies.len() <= 2,
        replies.len() == 2 ==> run(state, world, replies).0.phase is Finished,
{
    reveal_with_fuel(run, 4);
    reveal_with_fuel(fair, 4);
    if replies.len() > 0 {
        let second = replies.skip(1);
        if second.len() > 0 {
            let third = second.skip(1);
            if third.len() > 0 {
                assert(state.after(replies[0]).after(second[0]).phase is Finished);
                assert(false);
            }
        }
    }
}

/// A tracing session that is interrupted detaches cleanly. It traces no more, has not failed, and is
/// over after a bounded number of answers, whatever they are. When it is over, the process is not
/// debugged and stands still for no event, unless it has ended; its memory is as it was before the
/// session; and no thread has a trap flag left that the session has set. All of this holds unless
/// the system has refused to do as asked. The handle of the process is closed unless the system has
/// refused that.
pub proof fn law_interrupt_detaches(state: State, world: World, replies: Seq<Reply>)
    requires
        in_step(state, world),
        state.phase is Poll,
        replies.len() > 0,
        fair(state, world, replies),
        replies[0] == Reply::Interrupted(true),
    ensures
        ({
            let (end, outcome) = run(state, world, replies);
            &&& end.phase.is_out()
            &&& end.failure is None
            &&& end.hits == state.hits
            &&& end.phase is Finished ==> left_clean(end, outcome)
            &&& replies.len() + answers_left(end) <= 6 * state.flagged.len() + 5 + 8
                * LATE_EVENTS_MAX
        }),
{
    lemma_clean_stop(state, world, replies);
}

/// A session that has seen the last hit that it was to see detaches as cleanly as one that is
/// interrupted, once the system lets the process go on from that hit.
pub proof fn law_limit_detaches(state: State, world: World, replies: Seq<Reply>)
    requires
        in_step(state, world),
        state.phase is Continue,
        state.stopping,
        replies.len() > 0,
        fair(state, world, replies),
        replies[0] == Reply::Outcome(Ok(())),
    ensures
        ({
            let (end, outcome) = run(state, world, replies);
            &&& end.phase.is_out()
            &&& end.failure is None
            &&& end.hits == state.hits
            &&& end.phase is Finished ==> left_clean(end, outcome)
            &&& replies.len() + answers_left(end) <= 6 * state.flagged.len() + 5 + 8
                * LATE_EVENTS_MAX
        }),
{
    lemma_clean_stop(state, world, replies);
}

/// The process was left as it was found, but for what the system has refused.
pub open spec fn left_clean(state: State, world: World) -> bool {
    &&& !world.leaked ==> !world.process_open
    &&& !world.refused ==> {
        &&& !world.attached
        &&& world.memory == world.first
        &&& world.flagged == Set::<u32>::empty()
        &&& world.pending is None || state.exited
    }
}

proof fn lemma_clean_stop(state: State, world: World, replies: Seq<Reply>)
    requires
        in_step(state, world),
        state.phase.while_tracing(),
        replies.len() > 0,
        fair(state, world, replies),
        state.after(replies[0]) == state.at(Phase::Restore),
    ensures
        ({
            let (end, outcome) = run(state, world, replies);
            &&& end.phase.is_out()
            &&& end.failure is None
            &&& end.hits == state.hits
            &&& end.phase is Finished ==> left_clean(end, outcome)
            &&& replies.len() + answers_left(end) <= 6 * state.flagged.len() + 5 + 8
                * LATE_EVENTS_MAX
        }),
{
    let next = state.after(replies[0]);
    let now = world.after(state, replies[0]);
    law_step_keeps_in_step(state, world, replies[0]);
    law_way_out(next, now, replies.skip(1));
    law_run_keeps_in_step(next, now, replies.skip(1));
    let (end, outcome) = run(state, world, replies);
    if end.phase is Finished && !outcome.refused {
        assert(outcome.flagged =~= Set::<u32>::empty());
    }
}

/// A session that fails while it is tracing puts the byte back and detaches, each if the system can,
/// and ends with the message of the call that failed.
pub proof fn law_failure_detaches(state: State, world: World, replies: Seq<Reply>)
    requires
        in_step(state, world),
        state.phase.while_tracing(),
        replies.len() == 4,
        fair(state, world, replies),
        state.after(replies[0]).failure is Some,
    ensures
        ({
            let (end, outcome) = run(state, world, replies);
            &&& end.phase is Finished
            &&& end.failure == state.after(replies[0]).failure
            &&& !outcome.leaked ==> !outcome.process_open
            &&& !outcome.refused ==> !outcome.attached && outcome.memory == world.first
        }),
{
    let next = state.after(replies[0]);
    let now = world.after(state, replies[0]);
    law_step_keeps_in_step(state, world, replies[0]);
    law_way_out(next, now, replies.skip(1));
    law_run_keeps_in_step(next, now, replies.skip(1));
}

/// If attaching fails, the session only closes the process: the breakpoint stays on the target, and
/// the rest of the memory is as it was.
pub proof fn law_failed_attach_leaves_the_breakpoint(
    state: State,
    world: World,
    replies: Seq<Reply>,
)
    requires
        in_step(state, world),
        state.phase is Attach,
        replies.len() == 2,
        fair(state, world, replies),
        replies[0]->Outcome_0 is Err,
    ensures
        ({
            let (end, outcome) = run(state, world, replies);
            &&& end.phase is Finished
            &&& end.failure is Some
            &&& !outcome.attached
            &&& outcome.memory == world.first.insert(state.settings.target, INT3)
        }),
{
    reveal_with_fuel(run, 3);
    reveal_with_fuel(fair, 3);
    let rest = replies.skip(1);
    assert(rest.skip(1).len() == 0);
}

/// The number of hits is the number of events that told of one while the session traced.
pub proof fn law_hits_are_counted(state: State, world: World, replies: Seq<Reply>)
    requires
        fair(state, world, replies),
    ensures
        run(state, world, replies).0.hits == state.hits + hits_among(state, replies),
    decreases replies.len(),
{
    if replies.len() > 0 {
        law_hits_are_counted(
            state.after(replies[0]),
            world.after(state, replies[0]),
            replies.skip(1),
        );
    }
}

/// A hit was seen that is still to be reported.
pub open spec fn owes_report(state: State) -> bool {
    state.phase is OpenThread || state.phase is GetContext || state.phase is ReadReturn
}

/// A session that has failed stays failed, with the same message.
pub proof fn law_failure_stays(state: State, world: World, replies: Seq<Reply>)
    requires
        in_step(state, world),
        state.failure is Some,
        fair(state, world, replies),
    ensures
        run(state, world, replies).0.failure == state.failure,
    decreases replies.len(),
{
    if replies.len() > 0 {
        law_step_keeps_in_step(state, world, replies[0]);
        law_failure_stays(
            state.after(replies[0]),
            world.after(state, replies[0]),
            replies.skip(1),
        );
    }
}

proof fn lemma_reports_are_numbered(state: State, world: World, replies: Seq<Reply>)
    requires
        in_step(state, world),
        fair(state, world, replies),
    ensures
        ({
            let reported = state.hits - if owes_report(state) {
                1int
            } else {
                0int
            };
            let reports = reports_among(state, replies);
            let end = run(state, world, replies).0;
            &&& forall|i: int| 0 <= i < reports.len() ==> reports[i] == reported + i + 1
            &&& end.failure is None ==> end.hits == reported + reports.len() + if owes_report(end) {
                1int
            } else {
                0int
            }
        }),
    decreases replies.len(),
{
    if replies.len() > 0 {
        let next = state.after(replies[0]);
        let now = world.after(state, replies[0]);
        law_step_keeps_in_step(state, world, replies[0]);
        lemma_reports_are_numbered(next, now, replies.skip(1));
        if next.failure is Some {
            law_failure_stays(next, now, replies.skip(1));
            lemma_no_reports_on_the_way_out(next, now, replies.skip(1));
        }
        let rest = reports_among(next, replies.skip(1));
        let reports = reports_among(state, replies);
        let reported = state.hits - if owes_report(state) {
            1int
        } else {
            0int
        };
        assert forall|i: int| 0 <= i < reports.len() implies reports[i] == reported + i + 1 by {
            if state.phase is ReadReturn {
                if i > 0 {
                    assert(reports[i] == rest[i - 1]);
                }
            } else {
                assert(reports[i] == rest[i]);
            }
        }
    }
}

proof fn lemma_no_reports_on_the_way_out(state: State, world: World, replies: Seq<Reply>)
    requires
        in_step(state, world),
        state.failure is Some,
        fair(state, world, replies),
    ensures
        reports_among(state, replies).len() == 0,
    decreases replies.len(),
{
    if replies.len() > 0 {
        law_step_keeps_in_step(state, world, replies[0]);
        lemma_no_reports_on_the_way_out(
            state.after(replies[0]),
            world.after(state, replies[0]),
            replies.skip(1),
        );
    }
}

/// Hits are reported one by one, numbered from one. As long as the session has not failed, every
/// hit has been reported, but for one that it may be about to report.
pub proof fn law_hits_are_reported_in_order(settings: Settings, memory: Map<usize, u8>, replies: Seq<Reply>)
    requires
        fair(State::initial(settings), World::before(memory), replies),
    ensures
        ({
            let start = State::initial(settings);
            let reports = reports_among(start, replies);
            let end = run(start, World::before(memory), replies).0;
            &&& forall|i: int| 0 <= i < reports.len() ==> reports[i] == i + 1
            &&& end.failure is None ==> end.hits == reports.len() + if owes_report(end) {
                1int
            } else {
                0int
            }
        }),
{
    lemma_reports_are_numbered(State::initial(settings), World::before(memory), replies);
}

/// No more hits than asked for, as far as a session goes: it looks for another one only while it
/// has seen none or fewer than `max`.
pub open spec fn within_limit(state: State, max: u64) -> bool {
    let may_go_on = state.hits == 0 || state.hits < max;
    &&& state.hits <= 1 || state.hits <= max
    &&& match state.phase {
        Phase::InstallHandler
        | Phase::OpenProcess
        | Phase::ReadOriginal
        | Phase::Arm
        | Phase::Attach => state.hits == 0,
        Phase::Poll | Phase::Wait | Phase::Rearm { .. } | Phase::CloseStepped { .. } => may_go_on,
        Phase::Continue { .. } => state.stopping || may_go_on,
        _ => true,
    }
}

proof fn lemma_run_stays_within_limit(
    state: State,
    world: World,
    replies: Seq<Reply>,
    max: u64,
)
    requires
        fair(state, world, replies),
        state.settings.max_hits == Some(max),
        within_limit(state, max),
    ensures
        within_limit(run(state, world, replies).0, max),
    decreases replies.len(),
{
    if replies.len() > 0 {
        lemma_run_stays_within_limit(
            state.after(replies[0]),
            world.after(state, replies[0]),
            replies.skip(1),
            max,
        );
    }
}

/// A session with a limit never sees more hits than the limit, except that a limit of zero lets one
/// through. The hit that reaches the limit is the last.
pub proof fn law_hit_limit(settings: Settings, memory: Map<usize, u8>, replies: Seq<Reply>, max: u64)
    requires
        fair(State::initial(settings), World::before(memory), replies),
        settings.max_hits == Some(max),
    ensures
        ({
            let (state, world) = run(State::initial(settings), World::before(memory), replies);
            &&& state.hits <= 1 || state.hits <= max
            &&& state.hits >= 1 && state.hits >= max ==> !(state.phase is Poll)
                && !(state.phase is Wait)
        }),
{
    lemma_run_stays_within_limit(State::initial(settings), World::before(memory), replies, max);
}

/// A session writes nowhere but on the target, and nothing but the breakpoint and the byte that it
/// found there.
pub proof fn law_only_the_target_is_written(state: State, request: Request)
    requires
        state.asks(request),
    ensures
        request matches Request::Write { process, address, byte } ==> process == state.process
            && address == state.settings.target && (byte == INT3 || byte == state.original),
{
}

/// Every event but the end of the process is answered: an exception that is neither a breakpoint
/// nor a step is left to the process, and everything else is taken as dealt with.
pub proof fn law_foreign_exceptions_are_left_alone(
    state: State,
    event: DebugEvent,
)
    requires
        state.phase is Wait,
    ensures
        ({
            let kind = session::kind_of(event, state.settings.target);
            let next = state.after(Reply::Event(Some(event))).phase;
            let id = session::id_of(event);
            &&& kind == EventKind::OtherException <==> next == (Phase::Continue {
                id,
                status: DBG_EXCEPTION_NOT_HANDLED,
            })
            &&& kind == EventKind::OtherBreakpoint || kind == EventKind::Other <==> next == (
            Phase::Continue { id, status: DBG_CONTINUE })
            &&& kind == EventKind::Exited <==> next == Phase::Restore
        }),
{
}

} // verus!

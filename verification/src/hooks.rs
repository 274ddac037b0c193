//! Lifecycle hooks and handler execution. Hooks are ordered extension
//! points with fixed invocation points in the dispatch state machine;
//! each hook set carries a trace of the invocations it has observed, so
//! the dispatcher's contract can state exactly which hooks ran for a
//! message and in what order. Handlers are reached through an executor
//! capability that records which commands it has run.

use vstd::prelude::*;

use crate::context::{DispatchContext, DispatchError};
use crate::text::views;

verus! {

/// One observed hook invocation.
pub enum HookEvent {
    /// `before` ran (after parse and resolve, before the rate limit).
    Before,
    /// `after` ran with the handler's outcome.
    After { succeeded: bool },
    /// `unknown_command` ran; carries the unresolved token.
    UnknownCommand { token: Seq<u8> },
    /// `normal_message` ran: the message was no command at all.
    NormalMessage,
    /// `dispatch_error` ran with the given error.
    ErrorReported { error: DispatchError },
}

/// The lifecycle hooks of a dispatcher. Every implementation tracks the
/// invocations it has observed in `trace`, newest last; each hook
/// appends exactly its own event and makes whatever side effects it
/// likes beyond that.
pub trait Hooks {
    /// The hook invocations observed so far.
    spec fn trace(&self) -> Seq<HookEvent>;

    /// The verdict the before hook will give in its present state.
    spec fn before_verdict(&self) -> bool;

    /// Runs after a successful parse and resolve, before the rate-limit
    /// check. Returning false aborts the dispatch silently: no handler,
    /// no after hook, no error hook.
    fn before(&mut self, ctx: &DispatchContext) -> (proceed: bool)
        ensures
            final(self).trace() == old(self).trace().push(HookEvent::Before),
            proceed == old(self).before_verdict(),
    ;

    /// Runs once the handler has completed, with its outcome.
    fn after(&mut self, ctx: &DispatchContext, succeeded: bool)
        ensures
            final(self).trace() == old(self).trace().push(HookEvent::After { succeeded }),
    ;

    /// Runs when a prefix was recognized but no command matched the
    /// token; the token is recoverable from the context.
    fn unknown_command(&mut self, ctx: &DispatchContext)
        ensures
            final(self).trace() == old(self).trace().push(
                HookEvent::UnknownCommand { token: ctx.token@ },
            ),
    ;

    /// Runs when the message carried no recognized prefix at all.
    fn normal_message(&mut self, ctx: &DispatchContext)
        ensures
            final(self).trace() == old(self).trace().push(HookEvent::NormalMessage),
    ;

    /// Runs when a stage after `before` failed, with the typed error.
    fn dispatch_error(&mut self, ctx: &DispatchContext, error: &DispatchError)
        ensures
            final(self).trace() == old(self).trace().push(
                HookEvent::ErrorReported { error: *error },
            ),
    ;
}

/// The outcome a command handler reports.
#[derive(Clone, Copy, PartialEq, Eq, Structural, Debug)]
pub enum HandlerResult {
    Done,
    Failed,
    TimedOut,
}

/// The capability through which the dispatcher runs command handlers.
/// `calls` records the names of the commands executed, in order, so the
/// dispatcher's contract can state exactly which handlers ran.
pub trait Executor {
    /// Names of the commands executed so far.
    spec fn calls(&self) -> Seq<Seq<u8>>;

    /// The outcome the next handler run will report, in the executor's
    /// present state.
    spec fn next_result(&self) -> HandlerResult;

    /// Run the handler of command `name` on `ctx` and report its
    /// outcome (a bounded-time overrun as `TimedOut`).
    fn execute(&mut self, name: &Vec<u8>, ctx: &DispatchContext) -> (r: HandlerResult)
        ensures
            final(self).calls() == old(self).calls().push(name@),
            r == old(self).next_result(),
    ;
}

/// An exec-side record of one hook invocation.
#[derive(Clone, PartialEq, Eq, Debug)]
pub enum RecordedHook {
    Before,
    After(bool),
    UnknownCommand(Vec<u8>),
    NormalMessage,
    ErrorReported(DispatchError),
}

/// The event a record stands for.
pub open spec fn hook_event_of(e: RecordedHook) -> HookEvent {
    match e {
        RecordedHook::Before => HookEvent::Before,
        RecordedHook::After(s) => HookEvent::After { succeeded: s },
        RecordedHook::UnknownCommand(t) => HookEvent::UnknownCommand { token: t@ },
        RecordedHook::NormalMessage => HookEvent::NormalMessage,
        RecordedHook::ErrorReported(e) => HookEvent::ErrorReported { error: e },
    }
}

/// A hook set that does nothing but record its invocations; `before`
/// answers with a fixed verdict. It doubles as the reference
/// implementation showing that the `Hooks` contract is satisfiable.
pub struct RecordingHooks {
    /// The verdict `before` gives on every call.
    pub approve: bool,
    pub events: Vec<RecordedHook>,
}

impl RecordingHooks {
    /// A fresh recorder whose `before` always answers `approve`.
    pub fn new(approve: bool) -> (r: RecordingHooks)
        ensures
            r.trace() == Seq::<HookEvent>::empty(),
            r.approve == approve,
    {
        let r = RecordingHooks { approve, events: Vec::new() };
        proof {
            assert(r.events@.map_values(|e: RecordedHook| hook_event_of(e)) =~= Seq::<
                HookEvent,
            >::empty());
        }
        r
    }
}

impl Hooks for RecordingHooks {
    open spec fn trace(&self) -> Seq<HookEvent> {
        self.events@.map_values(|e: RecordedHook| hook_event_of(e))
    }

    open spec fn before_verdict(&self) -> bool {
        self.approve
    }

    fn before(&mut self, ctx: &DispatchContext) -> (proceed: bool) {
        let ghost e0 = self.events@;
        self.events.push(RecordedHook::Before);
        proof {
            e0.lemma_push_map_commute(
                |e: RecordedHook| hook_event_of(e),
                self.events@[self.events@.len() - 1],
            );
            assert(final(self).trace() =~= old(self).trace().push(HookEvent::Before));
        }
        self.approve
    }

    fn after(&mut self, ctx: &DispatchContext, succeeded: bool) {
        let ghost e0 = self.events@;
        self.events.push(RecordedHook::After(succeeded));
        proof {
            e0.lemma_push_map_commute(
                |e: RecordedHook| hook_event_of(e),
                self.events@[self.events@.len() - 1],
            );
            assert(final(self).trace() =~= old(self).trace().push(
                HookEvent::After { succeeded },
            ));
        }
    }

    fn unknown_command(&mut self, ctx: &DispatchContext) {
        let ghost e0 = self.events@;
        let t = crate::text::copy_bytes(&ctx.token);
        self.events.push(RecordedHook::UnknownCommand(t));
        proof {
            e0.lemma_push_map_commute(
                |e: RecordedHook| hook_event_of(e),
                self.events@[self.events@.len() - 1],
            );
            assert(final(self).trace() =~= old(self).trace().push(
                HookEvent::UnknownCommand { token: ctx.token@ },
            ));
        }
    }

    fn normal_message(&mut self, ctx: &DispatchContext) {
        let ghost e0 = self.events@;
        self.events.push(RecordedHook::NormalMessage);
        proof {
            e0.lemma_push_map_commute(
                |e: RecordedHook| hook_event_of(e),
                self.events@[self.events@.len() - 1],
            );
            assert(final(self).trace() =~= old(self).trace().push(HookEvent::NormalMessage));
        }
    }

    fn dispatch_error(&mut self, ctx: &DispatchContext, error: &DispatchError) {
        let ghost e0 = self.events@;
        self.events.push(RecordedHook::ErrorReported(*error));
        proof {
            e0.lemma_push_map_commute(
                |e: RecordedHook| hook_event_of(e),
                self.events@[self.events@.len() - 1],
            );
            assert(final(self).trace() =~= old(self).trace().push(
                HookEvent::ErrorReported { error: *error },
            ));
        }
    }
}

/// An executor that runs no real handlers: it answers each call with
/// the next outcome of a fixed script (then `Done`) and records the
/// command names it was asked to run. It is the reference
/// implementation showing that the `Executor` contract is satisfiable,
/// and the test double for driving the dispatcher.
pub struct ScriptedExecutor {
    /// Outcomes to hand out, in order.
    pub script: Vec<HandlerResult>,
    /// How many outcomes were already handed out.
    pub cursor: usize,
    pub called: Vec<Vec<u8>>,
}

impl ScriptedExecutor {
    /// A fresh executor answering with `script`, then `Done`.
    pub fn new(script: Vec<HandlerResult>) -> (r: ScriptedExecutor)
        ensures
            r.calls() == Seq::<Seq<u8>>::empty(),
            r.script == script,
    {
        let r = ScriptedExecutor { script, cursor: 0, called: Vec::new() };
        proof {
            assert(views(r.called@) =~= Seq::<Seq<u8>>::empty());
        }
        r
    }
}

impl Executor for ScriptedExecutor {
    open spec fn calls(&self) -> Seq<Seq<u8>> {
        views(self.called@)
    }

    open spec fn next_result(&self) -> HandlerResult {
        if self.cursor < self.script@.len() {
            self.script@[self.cursor as int]
        } else {
            HandlerResult::Done
        }
    }

    fn execute(&mut self, name: &Vec<u8>, ctx: &DispatchContext) -> (r: HandlerResult) {
        let outcome = if self.cursor < self.script.len() {
            let r = self.script[self.cursor];
            self.cursor += 1;
            r
        } else {
            HandlerResult::Done
        };
        let ghost c0 = self.called@;
        let n = crate::text::copy_bytes(name);
        self.called.push(n);
        proof {
            c0.lemma_push_map_commute(
                |v: Vec<u8>| v@,
                self.called@[self.called@.len() - 1],
            );
            assert(final(self).calls() =~= old(self).calls().push(name@));
        }
        outcome
    }
}

} // verus!

//! The dispatcher: the state machine that takes each inbound message
//! through parse, resolve, the before hook, the rate limit, the counter
//! and the handler, and invokes the lifecycle hooks at their fixed
//! points. Its contract pins down, for every terminal outcome, exactly
//! which hooks ran (through the hook trace), whether the handler ran
//! (through the executor's call record), and how the counters and
//! bucket state moved.

use vstd::prelude::*;

use crate::context::{DispatchContext, DispatchError, MessageEvent};
use crate::counter::{bumped, count_of, CounterMap};
use crate::hooks::{Executor, HandlerResult, HookEvent, Hooks};
use crate::limiter::{
    bucket_delay,
    bucket_scope,
    check_outcome_spec,
    next_scope_state,
    BucketSet,
    CheckOutcome,
};
use crate::parser::{parse, parse_spec, ParserConfig};
use crate::registry::{resolve_spec, Command, Registry};
use crate::text::copy_bytes;

verus! {

/// Terminal state of one dispatch.
#[derive(Clone, Copy, PartialEq, Eq, Structural, Debug)]
pub enum DispatchOutcome {
    /// The message carried no recognized prefix or mention.
    NotACommand,
    /// A prefix was recognized but no command answered the token.
    Unresolved,
    /// The before hook vetoed the dispatch; silent by design.
    Aborted,
    /// The command's bucket denied the invocation.
    RateLimited { retry_after: u64, is_first_denial: bool },
    /// The handler ran and succeeded.
    Completed,
    /// The handler ran and failed or overran its budget.
    Failed,
}

/// The dispatch core: parser configuration, command registry, rate-limit
/// buckets and invocation counters. The buckets and counters are the
/// only mutable state; a dispatch takes the dispatcher exclusively, so
/// checks against one bucket scope are serialized.
pub struct Dispatcher {
    pub cfg: ParserConfig,
    pub registry: Registry,
    pub buckets: BucketSet,
    pub counters: CounterMap,
}

impl Dispatcher {
    /// What the parser yields on this message.
    pub open spec fn msg_parse(self, msg: MessageEvent) -> Option<(Seq<u8>, Seq<u8>)> {
        parse_spec(self.cfg, msg.text@)
    }

    /// What parse followed by resolve yields on this message.
    pub open spec fn msg_resolution(self, msg: MessageEvent) -> Option<(int, int, Seq<u8>)> {
        match parse_spec(self.cfg, msg.text@) {
            None => None,
            Some((t, a)) => resolve_spec(self.registry, t, a, self.cfg),
        }
    }

    /// The command a resolved message dispatches to.
    pub open spec fn resolved_command(self, msg: MessageEvent) -> Command
        recommends
            self.msg_resolution(msg) is Some,
    {
        match self.msg_resolution(msg) {
            Some((g, c, _)) => self.registry.groups@[g].commands@[c],
            None => arbitrary(),
        }
    }

    /// The resolved command's name.
    pub open spec fn resolved_name(self, msg: MessageEvent) -> Seq<u8> {
        self.resolved_command(msg).name@
    }

    /// The resolved command's bucket name, if it declares one.
    pub open spec fn resolved_bucket(self, msg: MessageEvent) -> Option<Seq<u8>> {
        match self.resolved_command(msg).bucket {
            Some(b) => Some(b@),
            None => None,
        }
    }

    /// No invocation count moved between `a` and `b`.
    pub open spec fn counters_unchanged(a: Dispatcher, b: Dispatcher) -> bool {
        forall|k: Seq<u8>| count_of(b.counters, k) == count_of(a.counters, k)
    }

    /// No bucket scope state moved between `a` and `b`.
    pub open spec fn buckets_unchanged(a: Dispatcher, b: Dispatcher) -> bool {
        forall|n: Seq<u8>, k: u64|
            bucket_scope(b.buckets, n, k) == bucket_scope(a.buckets, n, k)
    }

    /// Dispatch one inbound message at time `now` (seconds). The
    /// transition table:
    /// no prefix -> `NotACommand` and only the normal-message hook;
    /// no matching command -> `Unresolved` and only the unknown-command
    /// hook; before-hook veto -> `Aborted`, silently; a declared bucket
    /// denying -> `RateLimited` and the error hook; otherwise the
    /// counter moves once, the handler runs once, and the after hook
    /// (plus the error hook on failure) closes the dispatch. Rate-limit
    /// scope keys are the author's identity.
    pub fn dispatch<H: Hooks, X: Executor>(
        &mut self,
        hooks: &mut H,
        exec: &mut X,
        msg: &MessageEvent,
        now: u64,
    ) -> (o: DispatchOutcome)
        requires
            old(self).registry.wf(),
        ensures
            final(self).cfg == old(self).cfg,
            final(self).registry == old(self).registry,
            forall|n2: Seq<u8>|
                bucket_delay(final(self).buckets, n2) == bucket_delay(old(self).buckets, n2),
            (o is NotACommand) <==> old(self).msg_parse(*msg) is None,
            (o is Unresolved) <==> (old(self).msg_parse(*msg) is Some && old(self).msg_resolution(
                *msg,
            ) is None),
            o is NotACommand ==> final(hooks).trace() == old(hooks).trace().push(
                HookEvent::NormalMessage,
            ),
            o is Unresolved ==> final(hooks).trace() == old(hooks).trace().push(
                HookEvent::UnknownCommand { token: old(self).msg_parse(*msg)->Some_0.0 },
            ),
            o is Aborted ==> final(hooks).trace() == old(hooks).trace().push(HookEvent::Before),
            (o is NotACommand || o is Unresolved || o is Aborted) ==> (
            Dispatcher::counters_unchanged(*old(self), *final(self)) && Dispatcher::buckets_unchanged(
                *old(self),
                *final(self),
            ) && final(exec).calls() == old(exec).calls()),
            o matches DispatchOutcome::RateLimited { retry_after, is_first_denial } ==> ({
                let bn = old(self).resolved_bucket(*msg)->Some_0;
                let d = bucket_delay(old(self).buckets, bn)->Some_0;
                &&& old(self).msg_resolution(*msg) is Some
                &&& old(self).resolved_bucket(*msg) is Some
                &&& bucket_delay(old(self).buckets, bn) is Some
                &&& check_outcome_spec(d, bucket_scope(old(self).buckets, bn, msg.author), now)
                    == (CheckOutcome::Limited { retry_after, is_first_denial })
                &&& bucket_scope(final(self).buckets, bn, msg.author) == Some(
                    next_scope_state(d, bucket_scope(old(self).buckets, bn, msg.author), now),
                )
                &&& forall|k2: u64|
                    k2 != msg.author ==> bucket_scope(final(self).buckets, bn, k2) == bucket_scope(
                        old(self).buckets,
                        bn,
                        k2,
                    )
                &&& forall|n2: Seq<u8>, k2: u64|
                    n2 != bn ==> bucket_scope(final(self).buckets, n2, k2) == bucket_scope(
                        old(self).buckets,
                        n2,
                        k2,
                    )
                &&& Dispatcher::counters_unchanged(*old(self), *final(self))
                &&& final(exec).calls() == old(exec).calls()
                &&& final(hooks).trace() == old(hooks).trace().push(HookEvent::Before).push(
                    HookEvent::ErrorReported {
                        error: DispatchError::RateLimited { retry_after, is_first_denial },
                    },
                )
            }),
            (o is Completed || o is Failed) ==> ({
                let name = old(self).resolved_name(*msg);
                &&& old(self).msg_resolution(*msg) is Some
                &&& count_of(final(self).counters, name) == bumped(
                    count_of(old(self).counters, name),
                )
                &&& forall|k2: Seq<u8>|
                    k2 != name ==> count_of(final(self).counters, k2) == count_of(
                        old(self).counters,
                        k2,
                    )
                &&& final(exec).calls() == old(exec).calls().push(name)
                &&& match old(self).resolved_bucket(*msg) {
                    Some(bn) => match bucket_delay(old(self).buckets, bn) {
                        Some(d) => check_outcome_spec(
                            d,
                            bucket_scope(old(self).buckets, bn, msg.author),
                            now,
                        ) == CheckOutcome::Allowed && bucket_scope(
                            final(self).buckets,
                            bn,
                            msg.author,
                        ) == Some(
                            next_scope_state(
                                d,
                                bucket_scope(old(self).buckets, bn, msg.author),
                                now,
                            ),
                        ) && (forall|k2: u64|
                            k2 != msg.author ==> bucket_scope(final(self).buckets, bn, k2)
                                == bucket_scope(old(self).buckets, bn, k2)) && (forall|
                            n2: Seq<u8>,
                            k2: u64,
                        |
                            n2 != bn ==> bucket_scope(final(self).buckets, n2, k2) == bucket_scope(
                                old(self).buckets,
                                n2,
                                k2,
                            )),
                        None => Dispatcher::buckets_unchanged(*old(self), *final(self)),
                    },
                    None => Dispatcher::buckets_unchanged(*old(self), *final(self)),
                }
            }),
            old(self).msg_resolution(*msg) is Some ==> ((o is Aborted) <==> !old(
                hooks,
            ).before_verdict()),
            (o is Completed || o is Failed) ==> ((o is Completed) <==> old(exec).next_result()
                == HandlerResult::Done),
            o is Completed ==> final(hooks).trace() == old(hooks).trace().push(
                HookEvent::Before,
            ).push(HookEvent::After { succeeded: true }),
            o is Failed ==> final(hooks).trace() == old(hooks).trace().push(
                HookEvent::Before,
            ).push(HookEvent::After { succeeded: false }).push(
                HookEvent::ErrorReported {
                    error: match old(exec).next_result() {
                        HandlerResult::Failed => DispatchError::HandlerFailed,
                        _ => DispatchError::HandlerTimedOut,
                    },
                },
            ),
    {
        let parsed = parse(&self.cfg, &msg.text);
        match parsed {
            None => {
                let ctx = DispatchContext {
                    raw: copy_bytes(&msg.text),
                    author: msg.author,
                    channel: msg.channel,
                    token: Vec::new(),
                    args: Vec::new(),
                    command_name: Vec::new(),
                };
                hooks.normal_message(&ctx);
                DispatchOutcome::NotACommand
            },
            Some(inv) => {
                let res = self.registry.resolve(&inv.token, &inv.args, &self.cfg);
                match res {
                    None => {
                        let ctx = DispatchContext {
                            raw: copy_bytes(&msg.text),
                            author: msg.author,
                            channel: msg.channel,
                            token: inv.token,
                            args: inv.args,
                            command_name: Vec::new(),
                        };
                        hooks.unknown_command(&ctx);
                        DispatchOutcome::Unresolved
                    },
                    Some(r) => {
                        let name = copy_bytes(
                            &self.registry.groups[r.group].commands[r.command].name,
                        );
                        let bucket_name: Option<Vec<u8>> = match &self.registry.groups[
                            r.group
                        ].commands[r.command].bucket {
                            Some(b) => Some(copy_bytes(b)),
                            None => None,
                        };
                        let ctx = DispatchContext {
                            raw: copy_bytes(&msg.text),
                            author: msg.author,
                            channel: msg.channel,
                            token: inv.token,
                            args: r.args,
                            command_name: copy_bytes(&name),
                        };
                        if !hooks.before(&ctx) {
                            return DispatchOutcome::Aborted;
                        }
                        if let Some(bn) = &bucket_name {
                            let chk = self.buckets.check(bn, msg.author, now);
                            if let Some(outcome) = chk {
                                if let CheckOutcome::Limited { retry_after, is_first_denial } =
                                    outcome {
                                    let e = DispatchError::RateLimited {
                                        retry_after,
                                        is_first_denial,
                                    };
                                    hooks.dispatch_error(&ctx, &e);
                                    return DispatchOutcome::RateLimited {
                                        retry_after,
                                        is_first_denial,
                                    };
                                }
                            }
                        }
                        self.counters.increment(&name);
                        let hr = exec.execute(&name, &ctx);
                        match hr {
                            HandlerResult::Done => {
                                hooks.after(&ctx, true);
                                DispatchOutcome::Completed
                            },
                            HandlerResult::Failed => {
                                hooks.after(&ctx, false);
                                let e = DispatchError::HandlerFailed;
                                hooks.dispatch_error(&ctx, &e);
                                DispatchOutcome::Failed
                            },
                            HandlerResult::TimedOut => {
                                hooks.after(&ctx, false);
                                let e = DispatchError::HandlerTimedOut;
                                hooks.dispatch_error(&ctx, &e);
                                DispatchOutcome::Failed
                            },
                        }
                    },
                }
            },
        }
    }
}

} // verus!
